//! User-interface support: locale formatting, catalog keys, i18n errors,
//! the reflection inspector's widget descriptors and UI markers.

pub mod catalog;
pub mod error;
pub mod format;
pub mod hud;
pub mod i18n;
pub mod inspector;

use vstd::prelude::*;

verus! {

/// The core UI plugin. The library holds its identity; the application wires
/// i18n and the rendering substrate into the engine.
#[derive(Debug, Default, Clone, Copy)]
pub struct UiPlugin;

/// Marker for UI elements.
#[derive(Debug, Default, Clone, Copy)]
pub struct UiElement;

/// Builder for UI layout and styling helpers.
#[derive(Debug, Default, Clone, Copy)]
pub struct UiBuilder;

impl UiBuilder {
    /// Construct a new UI builder.
    pub fn new() -> (b: Self)
        ensures
            b == UiBuilder,
    {
        Self
    }
}

} // verus!
