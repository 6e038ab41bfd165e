//! Module identity and the typed values hook contexts carry.

use vstd::prelude::*;

verus! {

/// The hook-API version this build exposes. Bumped on a breaking change to
/// any hook signature or context type.
pub const CORE_API_VERSION: u32 = 1;

/// A loaded module's identity, reported at runtime for logs and tooling.
#[derive(Debug, Clone, Copy, PartialEq, Eq)]
pub struct ModuleManifest {
    /// Stable module name, matching its `modules/<name>/` directory.
    pub name: &'static str,
    /// The module's own semver.
    pub version: &'static str,
    /// The [`CORE_API_VERSION`] the module was built against.
    pub core_api_version: u32,
}

/// Whether a manifest was built against the hook API of this core.
pub open spec fn compatible(m: ModuleManifest) -> bool {
    m.core_api_version == CORE_API_VERSION
}

impl ModuleManifest {
    /// A manifest for a module built against the current [`CORE_API_VERSION`].
    pub fn new(name: &'static str, version: &'static str) -> (m: Self)
        ensures
            m.name == name,
            m.version == version,
            m.core_api_version == CORE_API_VERSION,
            compatible(m),
    {
        Self { name, version, core_api_version: CORE_API_VERSION }
    }

    /// Whether the module's API version matches the core it is linked into.
    pub fn is_compatible(&self) -> (b: bool)
        ensures
            b == compatible(*self),
    {
        self.core_api_version == CORE_API_VERSION
    }
}

/// The channel a chat line was sent on.
#[derive(Debug, Clone, Copy, PartialEq, Eq, Structural)]
pub enum ChatChannel {
    /// Local, proximity-limited speech.
    Say,
    /// Local speech at a wider radius.
    Yell,
    /// Everyone in the speaker's current zone.
    Zone,
    /// The speaker's party.
    Party,
    /// The speaker's guild.
    Guild,
    /// A single named recipient.
    Whisper,
    /// The cross-world trade channel.
    Trade,
}

/// A character level.
#[derive(Debug, Clone, Copy, PartialEq, Eq, PartialOrd, Ord, Structural)]
pub struct Level(pub u16);

impl Level {
    /// Wrap a raw level value.
    pub fn new(raw: u16) -> (l: Self)
        ensures
            l.0 == raw,
    {
        Self(raw)
    }

    /// The underlying raw level.
    pub fn get(self) -> (r: u16)
        ensures
            r == self.0,
    {
        self.0
    }
}

} // verus!
