use omm::{I18nBundle, Nameplate};

fn en_bundle() -> I18nBundle {
    I18nBundle::from_sources("en", &[("en", "rank-knight = Knight")]).expect("valid ftl")
}

#[test]
fn nameplate_resolve_shows_name_and_translated_subtitle() {
    let i18n = en_bundle();
    assert_eq!(Nameplate::new("Ada").resolve(&i18n), "Ada");
    assert_eq!(
        Nameplate::new("Ada")
            .with_subtitle("rank-knight")
            .resolve(&i18n),
        "Ada\nKnight"
    );
    // Missing key renders loud, never blank.
    assert_eq!(
        Nameplate::new("Ada").with_subtitle("nope").resolve(&i18n),
        "Ada\n⟦nope⟧"
    );
}

#[test]
fn nameplate_keeps_the_name_verbatim() {
    let i18n = en_bundle();
    // A name that happens to be a catalog key is still shown as written.
    let plate = Nameplate::new("rank-knight");
    assert_eq!(plate.resolve(&i18n), "rank-knight");
    assert_eq!(plate.subtitle_key, None);
    let with = plate.clone().with_subtitle("rank-knight");
    assert_eq!(with.name, "rank-knight");
    assert_eq!(with.subtitle_key.as_deref(), Some("rank-knight"));
    assert_eq!(Nameplate::default().resolve(&i18n), "");
}
