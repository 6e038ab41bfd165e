//! Hero-asset geometry paths: meshlet virtual geometry where both the tier
//! and the build allow it, the discrete-LOD baseline everywhere else.

use vstd::prelude::*;
use crate::render::tier::RenderTier;

verus! {

/// Marks an entity as a hero asset: high-priority geometry that takes the
/// richest path the device and build can offer.
#[derive(Debug, Default, Clone, Copy, PartialEq, Eq)]
pub struct HeroAsset;

/// The geometry representation resolved for a hero asset.
#[derive(Debug, Clone, Copy, PartialEq, Eq, Structural)]
pub enum HeroGeometry {
    /// Meshlet virtual geometry. Requires Ultra and a meshlet build.
    Meshlet,
    /// Discrete LOD chain + imposters — runs on every tier and build.
    DiscreteLod,
}

/// Whether this build compiled the meshlet virtual-geometry backend. This
/// library has no build feature that compiles it in, so it is always
/// `false` here; [`HeroGeometry::select`] takes the capability as an
/// argument for a build that has the backend.
pub open spec fn meshlet_built() -> bool {
    false
}

/// Whether this build compiled the meshlet virtual-geometry backend: never,
/// as this library has no feature that compiles it in.
pub fn meshlet_compiled() -> (b: bool)
    ensures
        b == meshlet_built(),
{
    false
}

impl HeroGeometry {
    /// Select the geometry path: meshlet needs both the Ultra tier and the
    /// compiled backend; anything less degrades to discrete LOD.
    pub fn select(tier: RenderTier, meshlet_available: bool) -> (g: Self)
        ensures
            g == (if meshlet_available && tier == RenderTier::Ultra {
                HeroGeometry::Meshlet
            } else {
                HeroGeometry::DiscreteLod
            }),
    {
        if meshlet_available && tier.virtual_geometry() {
            HeroGeometry::Meshlet
        } else {
            HeroGeometry::DiscreteLod
        }
    }

    /// [`select`](Self::select) using this build's meshlet capability.
    pub fn for_current_build(tier: RenderTier) -> (g: Self)
        ensures
            g == (if meshlet_built() && tier == RenderTier::Ultra {
                HeroGeometry::Meshlet
            } else {
                HeroGeometry::DiscreteLod
            }),
    {
        Self::select(tier, meshlet_compiled())
    }

    /// Whether this path is meshlet virtual geometry.
    pub fn is_meshlet(self) -> (b: bool)
        ensures
            b == (self == HeroGeometry::Meshlet),
    {
        matches!(self, HeroGeometry::Meshlet)
    }
}

} // verus!
