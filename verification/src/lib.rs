//! Open-MMORPG core libraries: netcode (sequence/ack math, frame encoding,
//! snapshots, deltas, area of interest, bandwidth budget), stable error
//! codes, render-tier selection, locale formatting, the i18n catalog, the
//! reflection inspector's widget descriptors, scene spawn decisions and
//! module identity — each with its behaviour stated as a contract.

pub mod errors;
pub mod modules;
pub mod netcode;
pub mod render;
pub mod scene;
pub mod text;
pub mod ui;

pub use errors::{ClientCode, CoreError};
pub use modules::{ChatChannel, Level, ModuleManifest, CORE_API_VERSION};
pub use netcode::aoi::filter_by_interest;
pub use netcode::delta::{apply_delta, diff, DeltaFrame};
pub use netcode::framing::{Frame, FramingError, HEADER_LEN, LEN_PREFIX, MAX_PAYLOAD, OVERHEAD};
pub use netcode::priority::{fill_budget, Candidate, Priority};
pub use netcode::reliability::{seq_greater_than, AckTracker};
pub use netcode::snapshot::{EntitySnapshot, SnapshotFrame, Tick, Vec3};
pub use netcode::transport::{check_datagram_len, ConnId, DropRule, LossModel, TransportError, MAX_DGRAM};
pub use render::aaa::{meshlet_compiled, HeroAsset, HeroGeometry};
pub use render::error::RenderError;
pub use render::tier::{AntiAliasing, GlobalIllumination, GpuCapabilities, RenderTier};
pub use render::EngineRenderPlugin;
pub use scene::{plan_spawn, ComponentCheck, EngineScenePlugin, SceneError};
pub use ui::catalog::{missing_marker, split_key, ArgValue, Catalog, TransArgs};
pub use ui::hud::Nameplate;
pub use ui::i18n::I18nBundle;
pub use ui::error::I18nError;
pub use ui::format::{Currency, LocaleFormatter};
pub use ui::inspector::{
    describe_by_path, describe_node, describe_registration, describe_type, inspect_components,
    leaf_kind, FieldInfo, Registration, TypeInfo, TypeShape, VariantInfo, WidgetDescriptor,
    WidgetKind, MAX_DEPTH,
};
pub use ui::{UiBuilder, UiElement, UiPlugin};
