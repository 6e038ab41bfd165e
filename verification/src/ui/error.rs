//! Typed errors for the i18n substrate. A missing key at lookup time is not an
//! error (it renders loudly); these are authoring faults in `.ftl` sources.

use vstd::prelude::*;
use crate::text::push_str;

verus! {

/// Errors raised while building an i18n catalog.
#[derive(Debug, Clone, PartialEq, Eq)]
pub enum I18nError {
    /// A Fluent (`.ftl`) source failed to parse.
    FluentParse {
        /// The locale whose source failed to parse.
        locale: String,
        /// Debug rendering of the underlying parser errors.
        detail: String,
    },
    /// A parsed resource could not be added to the bundle (e.g. duplicate id).
    ResourceAdd {
        /// The locale whose resource failed to add.
        locale: String,
        /// Debug rendering of the underlying bundle errors.
        detail: String,
    },
}

/// The display text of an i18n error.
pub open spec fn i18n_error_text(e: I18nError) -> Seq<char> {
    match e {
        I18nError::FluentParse { locale, detail } => "fluent parse failed for locale `"@ + locale@
            + "`: "@ + detail@,
        I18nError::ResourceAdd { locale, detail } => "fluent resource add failed for locale `"@
            + locale@ + "`: "@ + detail@,
    }
}

impl I18nError {
    /// The human-readable description, naming the locale and the detail.
    pub fn to_string(&self) -> (s: String)
        ensures
            s@ == i18n_error_text(*self),
    {
        let mut s = String::new();
        match self {
            I18nError::FluentParse { locale, detail } => {
                push_str(&mut s, "fluent parse failed for locale `");
                push_str(&mut s, locale.as_str());
                push_str(&mut s, "`: ");
                push_str(&mut s, detail.as_str());
            },
            I18nError::ResourceAdd { locale, detail } => {
                push_str(&mut s, "fluent resource add failed for locale `");
                push_str(&mut s, locale.as_str());
                push_str(&mut s, "`: ");
                push_str(&mut s, detail.as_str());
            },
        }
        assert(s@ =~= i18n_error_text(*self));
        s
    }
}

} // verus!
