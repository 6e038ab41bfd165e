# omm

Core libraries of an open MMORPG engine, with their behaviour stated as
contracts and proved with Verus.

- `src/` — the verified library:
  - `netcode/` — wrapping sequence numbers and the ack window, frame
    encoding and decoding, snapshots, deltas, area-of-interest filtering, the
    per-tick bandwidth budget, connection ids, transport errors and loss
    models;
  - `render/` — GPU capability tiers and their feature matrix, hero geometry
    selection, render errors;
  - `ui/` — locale formatting of integers, money, dates and rendered
    decimals; the Fluent catalog with its fallback chain and loud missing
    keys; the i18n state; nameplates; the reflection inspector's widget
    descriptors;
  - `scene.rs` — scene errors and the whole-or-nothing prefab spawn decision;
  - `modules.rs`, `errors.rs` — module identity and stable client error codes.
- `tests/` — tests of the library, run against the compiled crate.
- `app/` — the engine and server glue that Verus does not check: the module
  host and hook traits, the async loopback transport, the bevy plugins,
  prefab spawning and RON authoring, and the floating-point parts of
  rendering, quantization and formatting.
