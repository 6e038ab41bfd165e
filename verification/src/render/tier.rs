//! Capability-driven render tiers: pick a feature level from the GPU
//! capabilities queried at boot. Selection is total and deterministic and
//! never picks a tier the device cannot run.

use vstd::prelude::*;
use crate::render::error::RenderError;
use crate::text::push_str;

verus! {

/// GPU capabilities queried once at boot.
#[derive(Debug, Clone, Copy, PartialEq, Eq, Structural)]
pub struct GpuCapabilities {
    /// A native desktop backend (Vulkan/Metal/DX12), as opposed to WebGPU.
    pub native_backend: bool,
    /// Compute shaders.
    pub compute: bool,
    /// Bindless resource arrays.
    pub bindless: bool,
    /// Indirect multi-draw.
    pub multi_draw_indirect: bool,
    /// Hardware ray tracing.
    pub ray_tracing: bool,
}

/// The WebGPU baseline: no native backend and no advanced feature.
pub open spec fn web_baseline_caps() -> GpuCapabilities {
    GpuCapabilities {
        native_backend: false,
        compute: false,
        bindless: false,
        multi_draw_indirect: false,
        ray_tracing: false,
    }
}

impl Default for GpuCapabilities {
    /// The safe floor: the WebGPU baseline.
    fn default() -> (c: Self)
        ensures
            c == web_baseline_caps(),
    {
        Self::web_baseline()
    }
}

impl GpuCapabilities {
    /// The WebGPU baseline. Resolves to [`RenderTier::Web`].
    pub fn web_baseline() -> (c: Self)
        ensures
            c == web_baseline_caps(),
    {
        Self {
            native_backend: false,
            compute: false,
            bindless: false,
            multi_draw_indirect: false,
            ray_tracing: false,
        }
    }

    /// A native desktop GPU without hardware ray tracing. Resolves to
    /// [`RenderTier::High`].
    pub fn native_high() -> (c: Self)
        ensures
            c == (GpuCapabilities {
                native_backend: true,
                compute: true,
                bindless: true,
                multi_draw_indirect: true,
                ray_tracing: false,
            }),
    {
        Self {
            native_backend: true,
            compute: true,
            bindless: true,
            multi_draw_indirect: true,
            ray_tracing: false,
        }
    }

    /// A native GPU with every AAA prerequisite. Resolves to
    /// [`RenderTier::Ultra`].
    pub fn native_ultra() -> (c: Self)
        ensures
            c == (GpuCapabilities {
                native_backend: true,
                compute: true,
                bindless: true,
                multi_draw_indirect: true,
                ray_tracing: true,
            }),
    {
        Self { ray_tracing: true, ..Self::native_high() }
    }
}

/// Which anti-aliasing a tier runs.
#[derive(Debug, Clone, Copy, PartialEq, Eq, Structural)]
pub enum AntiAliasing {
    /// DLSS temporal upscaling — Ultra only.
    Dlss,
    /// Temporal anti-aliasing — High.
    Taa,
    /// Subpixel morphological AA — Web.
    Smaa,
}

/// How a tier resolves indirect lighting.
#[derive(Debug, Clone, Copy, PartialEq, Eq, Structural)]
pub enum GlobalIllumination {
    /// Baked irradiance volumes + light probes.
    Baked,
    /// Real-time ray-traced GI — Ultra only.
    Realtime,
}

/// A render feature level, ordered richest → leanest.
#[derive(Debug, Clone, Copy, PartialEq, Eq, PartialOrd, Ord, Structural)]
pub enum RenderTier {
    /// Native AAA: meshlet virtual geometry + real-time GI + DLSS.
    Ultra,
    /// Native baseline: discrete LOD + baked GI + TAA.
    High,
    /// WebGPU baseline: clustered-forward + SMAA.
    Web,
}

/// Position of a tier on the ladder, richest first.
pub open spec fn tier_rank(t: RenderTier) -> int {
    match t {
        RenderTier::Ultra => 0,
        RenderTier::High => 1,
        RenderTier::Web => 2,
    }
}

/// The tier [`RenderTier::select`] picks for `caps`.
pub open spec fn selected_tier(caps: GpuCapabilities) -> RenderTier {
    if caps.native_backend && caps.compute && caps.bindless && caps.multi_draw_indirect
        && caps.ray_tracing {
        RenderTier::Ultra
    } else if caps.native_backend {
        RenderTier::High
    } else {
        RenderTier::Web
    }
}

/// The first prerequisite of `tier` that `caps` lacks, by name.
pub open spec fn first_missing(tier: RenderTier, caps: GpuCapabilities) -> Option<Seq<char>> {
    match tier {
        RenderTier::Web => None,
        RenderTier::High => if !caps.native_backend {
            Some("native_backend"@)
        } else {
            None
        },
        RenderTier::Ultra => if !caps.native_backend {
            Some("native_backend"@)
        } else if !caps.compute {
            Some("compute"@)
        } else if !caps.bindless {
            Some("bindless"@)
        } else if !caps.multi_draw_indirect {
            Some("multi_draw_indirect"@)
        } else if !caps.ray_tracing {
            Some("ray_tracing"@)
        } else {
            None
        },
    }
}

/// Selection never over-claims: the selected tier runs on the device, and no
/// richer tier does.
pub proof fn lemma_select_is_richest_supported(caps: GpuCapabilities, other: RenderTier)
    ensures
        first_missing(selected_tier(caps), caps) is None,
        first_missing(other, caps) is None ==> tier_rank(selected_tier(caps)) <= tier_rank(other),
{
}

/// Degrading a forced tier never upgrades it, and degrading Ultra is exactly
/// selection: "the best you can run".
pub proof fn lemma_degrade_from_ultra_is_select(caps: GpuCapabilities, t: RenderTier)
    requires
        first_missing(t, caps) is None,
        forall|u: RenderTier| #[trigger] first_missing(u, caps) is None ==> tier_rank(t) <= tier_rank(u),
    ensures
        t == selected_tier(caps),
{
    assert(first_missing(selected_tier(caps), caps) is None);
    assert(tier_rank(t) <= tier_rank(selected_tier(caps)));
}

/// An un-probed (default) device lands on the Web tier.
pub proof fn lemma_default_selects_web()
    ensures
        selected_tier(web_baseline_caps()) == RenderTier::Web,
{
}

fn owned(s: &str) -> (r: String)
    ensures
        r@ == s@,
{
    let mut r = String::new();
    push_str(&mut r, s);
    r
}

impl RenderTier {
    /// Select the richest tier the device supports.
    pub fn select(caps: &GpuCapabilities) -> (t: Self)
        ensures
            t == selected_tier(*caps),
    {
        if caps.native_backend && caps.compute && caps.bindless && caps.multi_draw_indirect
            && caps.ray_tracing {
            RenderTier::Ultra
        } else if caps.native_backend {
            RenderTier::High
        } else {
            RenderTier::Web
        }
    }

    /// Fail loud if `caps` cannot run this tier, naming the first missing
    /// capability.
    pub fn ensure_supported_by(self, caps: &GpuCapabilities) -> (r: Result<(), RenderError>)
        ensures
            match first_missing(self, *caps) {
                None => r is Ok,
                Some(name) => r matches Err(RenderError::MissingCapability { capability })
                    && capability@ == name,
            },
    {
        let missing: Option<&str> = match self {
            RenderTier::Web => None,
            RenderTier::High => if !caps.native_backend {
                Some("native_backend")
            } else {
                None
            },
            RenderTier::Ultra => if !caps.native_backend {
                Some("native_backend")
            } else if !caps.compute {
                Some("compute")
            } else if !caps.bindless {
                Some("bindless")
            } else if !caps.multi_draw_indirect {
                Some("multi_draw_indirect")
            } else if !caps.ray_tracing {
                Some("ray_tracing")
            } else {
                None
            },
        };
        match missing {
            Some(capability) => Err(RenderError::MissingCapability { capability: owned(capability) }),
            None => Ok(()),
        }
    }

    /// The richest tier no richer than this one that `caps` can run: a forced
    /// tier degrades down the ladder Ultra → High → Web until supported.
    pub fn degrade_to_supported(self, caps: &GpuCapabilities) -> (t: Self)
        ensures
            first_missing(t, *caps) is None,
            tier_rank(t) >= tier_rank(self),
            forall|u: RenderTier|
                tier_rank(self) <= tier_rank(u) && #[trigger] first_missing(u, *caps) is None
                    ==> tier_rank(t) <= tier_rank(u),
    {
        let mut t = self;
        loop
            invariant
                tier_rank(t) >= tier_rank(self),
                forall|u: RenderTier|
                    tier_rank(self) <= tier_rank(u) < tier_rank(t) ==> #[trigger] first_missing(
                        u,
                        *caps,
                    ) is Some,
            decreases 2 - tier_rank(t),
        {
            if t.ensure_supported_by(caps).is_ok() {
                return t;
            }
            t = match t {
                RenderTier::Ultra => RenderTier::High,
                RenderTier::High => RenderTier::Web,
                RenderTier::Web => {
                    return RenderTier::Web;
                },
            };
        }
    }

    /// The anti-aliasing / upscaling this tier runs.
    pub fn anti_aliasing(self) -> (a: AntiAliasing)
        ensures
            a == match self {
                RenderTier::Ultra => AntiAliasing::Dlss,
                RenderTier::High => AntiAliasing::Taa,
                RenderTier::Web => AntiAliasing::Smaa,
            },
    {
        match self {
            RenderTier::Ultra => AntiAliasing::Dlss,
            RenderTier::High => AntiAliasing::Taa,
            RenderTier::Web => AntiAliasing::Smaa,
        }
    }

    /// How this tier resolves global illumination.
    pub fn global_illumination(self) -> (g: GlobalIllumination)
        ensures
            g == (if self == RenderTier::Ultra {
                GlobalIllumination::Realtime
            } else {
                GlobalIllumination::Baked
            }),
    {
        match self {
            RenderTier::Ultra => GlobalIllumination::Realtime,
            RenderTier::High | RenderTier::Web => GlobalIllumination::Baked,
        }
    }

    /// Whether meshlet virtual geometry runs: Ultra only.
    pub fn virtual_geometry(self) -> (b: bool)
        ensures
            b == (self == RenderTier::Ultra),
    {
        matches!(self, RenderTier::Ultra)
    }
}

} // verus!
