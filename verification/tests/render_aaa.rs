use omm::{meshlet_compiled, EngineRenderPlugin, HeroGeometry, RenderError, RenderTier};

#[test]
fn meshlet_only_on_ultra_with_a_meshlet_build() {
    assert_eq!(HeroGeometry::select(RenderTier::Ultra, true), HeroGeometry::Meshlet);
    assert_eq!(HeroGeometry::select(RenderTier::Ultra, false), HeroGeometry::DiscreteLod);
}

#[test]
fn non_ultra_tiers_never_use_meshlet() {
    for tier in [RenderTier::High, RenderTier::Web] {
        for available in [true, false] {
            assert_eq!(
                HeroGeometry::select(tier, available),
                HeroGeometry::DiscreteLod,
                "{tier:?} must degrade to discrete LOD (meshlet is Ultra-only)"
            );
        }
    }
}

#[test]
fn meshlet_requires_both_tier_and_build() {
    assert!(HeroGeometry::select(RenderTier::Ultra, true).is_meshlet());
    assert!(!HeroGeometry::select(RenderTier::Ultra, false).is_meshlet());
    assert!(!HeroGeometry::select(RenderTier::High, true).is_meshlet());
    assert!(!HeroGeometry::select(RenderTier::Web, true).is_meshlet());
}

#[test]
fn for_current_build_tracks_the_compiled_feature() {
    let expected = if meshlet_compiled() {
        HeroGeometry::Meshlet
    } else {
        HeroGeometry::DiscreteLod
    };
    assert_eq!(HeroGeometry::for_current_build(RenderTier::Ultra), expected);
    assert_eq!(
        HeroGeometry::for_current_build(RenderTier::Web),
        HeroGeometry::DiscreteLod
    );
}

#[test]
fn meshlet_compiled_matches_cfg() {
    // Built without the meshlet backend.
    assert_eq!(meshlet_compiled(), false);
}

#[test]
fn aaa_meshlet_only_on_ultra_with_a_meshlet_build() {
    assert_eq!(HeroGeometry::select(RenderTier::Ultra, true), HeroGeometry::Meshlet);
    assert_eq!(HeroGeometry::select(RenderTier::Ultra, false), HeroGeometry::DiscreteLod);
}

#[test]
fn non_ultra_tiers_always_degrade_to_discrete_lod() {
    for tier in [RenderTier::High, RenderTier::Web] {
        for available in [true, false] {
            assert_eq!(
                HeroGeometry::select(tier, available),
                HeroGeometry::DiscreteLod,
                "{tier:?} must degrade to discrete LOD (meshlet is Ultra-only)"
            );
        }
    }
}

#[test]
fn aaa_meshlet_requires_both_tier_and_build() {
    assert!(HeroGeometry::select(RenderTier::Ultra, true).is_meshlet());
    assert!(!HeroGeometry::select(RenderTier::Ultra, false).is_meshlet());
    assert!(!HeroGeometry::select(RenderTier::High, true).is_meshlet());
    assert!(!HeroGeometry::select(RenderTier::Web, true).is_meshlet());
}

#[test]
fn aaa_for_current_build_tracks_the_compiled_feature() {
    let expected = if meshlet_compiled() {
        HeroGeometry::Meshlet
    } else {
        HeroGeometry::DiscreteLod
    };
    assert_eq!(HeroGeometry::for_current_build(RenderTier::Ultra), expected);
    assert_eq!(
        HeroGeometry::for_current_build(RenderTier::Web),
        HeroGeometry::DiscreteLod
    );
}

#[test]
fn missing_capability_error_names_feature() {
    let err = RenderError::MissingCapability {
        capability: "compute_shader".to_owned(),
    };
    assert!(err.to_string().contains("compute_shader"), "got: {:?}", err);
}

#[test]
fn unsupported_material_format_reports_extension() {
    let err = RenderError::UnsupportedMaterialFormat {
        format: "KHR_transmission".to_owned(),
    };
    assert!(err.to_string().contains("KHR_transmission"));
}

#[test]
fn invalid_csm_config_describes_parameter() {
    let err = RenderError::InvalidCsmConfig {
        detail: "cascade_count out of bounds (0..=4)".to_owned(),
    };
    assert!(err.to_string().contains("cascade_count"));
}

#[test]
fn errors_are_comparable() {
    assert_eq!(
        RenderError::MissingCapability {
            capability: "feature".to_owned()
        },
        RenderError::MissingCapability {
            capability: "feature".to_owned()
        }
    );
}

#[test]
fn render_error_texts_are_exact() {
    assert_eq!(
        RenderError::MissingCapability { capability: "bindless".to_owned() }.to_string(),
        "missing GPU capability: bindless"
    );
    assert_eq!(
        RenderError::InstrumentationAnomaly { detail: "draw_calls".to_owned() }.to_string(),
        "frame instrumentation anomaly: draw_calls"
    );
    assert_eq!(
        RenderError::InvalidMaterialParameter {
            parameter: "base_color_factor[1]".to_owned(),
            detail: "expected a finite number, got inf".to_owned(),
        }
        .to_string(),
        "invalid material parameter `base_color_factor[1]`: expected a finite number, got inf"
    );
}

#[test]
fn plugin_constructs() {
    let _plugin = EngineRenderPlugin;
}
