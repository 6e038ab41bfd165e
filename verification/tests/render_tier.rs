use omm::{AntiAliasing, GlobalIllumination, GpuCapabilities, RenderError, RenderTier};

#[test]
fn default_capabilities_are_the_web_baseline() {
    assert_eq!(GpuCapabilities::default(), GpuCapabilities::web_baseline());
    assert_eq!(
        RenderTier::select(&GpuCapabilities::default()),
        RenderTier::Web
    );
}

#[test]
fn full_capability_set_selects_ultra() {
    assert_eq!(
        RenderTier::select(&GpuCapabilities::native_ultra()),
        RenderTier::Ultra
    );
}

#[test]
fn native_without_ray_tracing_selects_high() {
    assert_eq!(
        RenderTier::select(&GpuCapabilities::native_high()),
        RenderTier::High
    );
}

#[test]
fn ray_tracing_without_native_backend_stays_web() {
    let caps = GpuCapabilities {
        ray_tracing: true,
        compute: true,
        bindless: true,
        multi_draw_indirect: true,
        native_backend: false,
    };
    assert_eq!(RenderTier::select(&caps), RenderTier::Web);
}

#[test]
fn native_missing_one_ultra_prerequisite_falls_to_high() {
    let tweaks: [fn(&mut GpuCapabilities); 4] = [
        |c| c.compute = false,
        |c| c.bindless = false,
        |c| c.multi_draw_indirect = false,
        |c| c.ray_tracing = false,
    ];
    for tweak in tweaks {
        let mut caps = GpuCapabilities::native_ultra();
        tweak(&mut caps);
        assert_eq!(RenderTier::select(&caps), RenderTier::High);
    }
}

#[test]
fn web_tier_is_supported_by_every_device() {
    assert!(RenderTier::Web
        .ensure_supported_by(&GpuCapabilities::web_baseline())
        .is_ok());
}

#[test]
fn ensure_high_names_native_backend_gap() {
    let err = RenderTier::High
        .ensure_supported_by(&GpuCapabilities::web_baseline())
        .expect_err("web baseline cannot run the native High tier");
    assert_eq!(
        err,
        RenderError::MissingCapability {
            capability: "native_backend".to_owned()
        }
    );
}

#[test]
fn ensure_ultra_reports_first_missing_capability_in_order() {
    let err = RenderTier::Ultra
        .ensure_supported_by(&GpuCapabilities::web_baseline())
        .expect_err("web baseline cannot run Ultra");
    assert_eq!(
        err,
        RenderError::MissingCapability {
            capability: "native_backend".to_owned()
        }
    );
    let err = RenderTier::Ultra
        .ensure_supported_by(&GpuCapabilities::native_high())
        .expect_err("native High device cannot run Ultra");
    assert_eq!(
        err,
        RenderError::MissingCapability {
            capability: "ray_tracing".to_owned()
        }
    );
    assert!(RenderTier::Ultra
        .ensure_supported_by(&GpuCapabilities::native_ultra())
        .is_ok());
}

#[test]
fn tier_feature_matrix_matches_spec() {
    assert_eq!(RenderTier::Ultra.anti_aliasing(), AntiAliasing::Dlss);
    assert_eq!(RenderTier::High.anti_aliasing(), AntiAliasing::Taa);
    assert_eq!(RenderTier::Web.anti_aliasing(), AntiAliasing::Smaa);

    assert_eq!(
        RenderTier::Ultra.global_illumination(),
        GlobalIllumination::Realtime
    );
    assert_eq!(
        RenderTier::High.global_illumination(),
        GlobalIllumination::Baked
    );
    assert_eq!(
        RenderTier::Web.global_illumination(),
        GlobalIllumination::Baked
    );

    assert!(RenderTier::Ultra.virtual_geometry());
    assert!(!RenderTier::High.virtual_geometry());
    assert!(!RenderTier::Web.virtual_geometry());
}

#[test]
fn tiers_order_richest_to_leanest() {
    assert!(RenderTier::Ultra < RenderTier::High);
    assert!(RenderTier::High < RenderTier::Web);
}

#[test]
fn ensure_reports_each_ultra_gap_in_order() {
    let cases: [(fn(&mut GpuCapabilities), &str); 4] = [
        (|c| c.compute = false, "compute"),
        (|c| c.bindless = false, "bindless"),
        (|c| c.multi_draw_indirect = false, "multi_draw_indirect"),
        (|c| c.ray_tracing = false, "ray_tracing"),
    ];
    for (tweak, name) in cases {
        let mut caps = GpuCapabilities::native_ultra();
        tweak(&mut caps);
        assert_eq!(
            RenderTier::Ultra.ensure_supported_by(&caps),
            Err(RenderError::MissingCapability {
                capability: name.to_owned()
            })
        );
    }
}

#[test]
fn selected_tier_is_always_supported() {
    for bits in 0u8..32 {
        let caps = GpuCapabilities {
            native_backend: bits & 1 != 0,
            compute: bits & 2 != 0,
            bindless: bits & 4 != 0,
            multi_draw_indirect: bits & 8 != 0,
            ray_tracing: bits & 16 != 0,
        };
        assert!(RenderTier::select(&caps).ensure_supported_by(&caps).is_ok());
        assert_eq!(
            RenderTier::Ultra.degrade_to_supported(&caps),
            RenderTier::select(&caps)
        );
    }
}
