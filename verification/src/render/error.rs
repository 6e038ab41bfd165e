//! Typed, fail-loud errors for the render pipeline.

use vstd::prelude::*;
use crate::text::push_str;

verus! {

/// Everything the render pipeline refuses.
#[derive(Debug, Clone, PartialEq)]
#[non_exhaustive]
pub enum RenderError {
    /// A required GPU capability is unavailable.
    MissingCapability {
        /// The unsupported feature.
        capability: String,
    },
    /// A glTF material format is not recognized.
    UnsupportedMaterialFormat {
        /// The glTF material extension or structure that failed.
        format: String,
    },
    /// CSM cascade parameters are invalid.
    InvalidCsmConfig {
        /// Description of the invalid parameter.
        detail: String,
    },
    /// Frame instrumentation is out of expected bounds.
    InstrumentationAnomaly {
        /// Description of the out-of-bounds reading.
        detail: String,
    },
    /// A material parameter is unusable (e.g. not a finite number).
    InvalidMaterialParameter {
        /// The parameter, with its index for array parameters
        /// (`base_color_factor[1]`).
        parameter: String,
        /// What is wrong with it.
        detail: String,
    },
}

/// The display text of each render error.
pub open spec fn render_error_text(e: RenderError) -> Seq<char> {
    match e {
        RenderError::MissingCapability { capability } => "missing GPU capability: "@
            + capability@,
        RenderError::UnsupportedMaterialFormat { format } => "unsupported material format: "@
            + format@,
        RenderError::InvalidCsmConfig { detail } => "invalid CSM configuration: "@ + detail@,
        RenderError::InstrumentationAnomaly { detail } => "frame instrumentation anomaly: "@
            + detail@,
        RenderError::InvalidMaterialParameter { parameter, detail } => "invalid material parameter `"@
            + parameter@ + "`: "@ + detail@,
    }
}

impl RenderError {
    /// The human-readable description of this error.
    pub fn to_string(&self) -> (s: String)
        ensures
            s@ == render_error_text(*self),
    {
        let mut s = String::new();
        match self {
            RenderError::MissingCapability { capability } => {
                push_str(&mut s, "missing GPU capability: ");
                push_str(&mut s, capability.as_str());
            },
            RenderError::UnsupportedMaterialFormat { format } => {
                push_str(&mut s, "unsupported material format: ");
                push_str(&mut s, format.as_str());
            },
            RenderError::InvalidCsmConfig { detail } => {
                push_str(&mut s, "invalid CSM configuration: ");
                push_str(&mut s, detail.as_str());
            },
            RenderError::InstrumentationAnomaly { detail } => {
                push_str(&mut s, "frame instrumentation anomaly: ");
                push_str(&mut s, detail.as_str());
            },
            RenderError::InvalidMaterialParameter { parameter, detail } => {
                push_str(&mut s, "invalid material parameter `");
                push_str(&mut s, parameter.as_str());
                push_str(&mut s, "`: ");
                push_str(&mut s, detail.as_str());
            },
        }
        assert(s@ =~= render_error_text(*self));
        s
    }
}

} // verus!
