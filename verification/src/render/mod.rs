//! Render-tier selection, hero-asset geometry paths and render errors.

pub mod aaa;
pub mod error;
pub mod tier;

use vstd::prelude::*;

verus! {

/// The engine's render pipeline plugin. The library holds its identity; the
/// application wires it into the engine.
#[derive(Debug, Default, Clone, Copy)]
pub struct EngineRenderPlugin;

} // verus!
