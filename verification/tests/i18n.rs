use omm::{I18nBundle, TransArgs};

const EN: &str = "hello = Hello!\ngreet = Hi, { $name }!";
const FR: &str = "hello = Bonjour !";

fn bundle() -> I18nBundle {
    I18nBundle::from_sources("en", &[("en", EN), ("fr", FR)]).expect("valid ftl")
}

#[test]
fn defaults_to_en_empty_catalog() {
    let b = I18nBundle::default();
    assert_eq!(b.current_locale(), "en");
    assert_eq!(b.formatter().locale(), "en");
    // Empty catalog → every key is loud-missing, never blank.
    assert_eq!(b.t("hello", &TransArgs::new()), "⟦hello⟧");
}

#[test]
fn translates_in_current_locale() {
    let b = bundle();
    assert_eq!(b.t("hello", &TransArgs::new()), "Hello!");
    assert_eq!(
        b.t("greet", &TransArgs::new().set("name", "Ada")),
        "Hi, Ada!"
    );
}

#[test]
fn set_locale_switches_catalog_and_formatter() {
    let mut b = bundle();
    b.set_locale("fr");
    assert_eq!(b.current_locale(), "fr");
    assert_eq!(b.formatter().locale(), "fr");
    assert_eq!(b.t("hello", &TransArgs::new()), "Bonjour !");
}

#[test]
fn set_locale_unsupported_is_noop_and_warns() {
    let mut b = bundle();
    b.set_locale("de");
    // Unsupported → stays on en; still resolves en strings.
    assert_eq!(b.current_locale(), "en");
    assert_eq!(b.t("hello", &TransArgs::new()), "Hello!");
}

#[test]
fn set_locale_accepts_region_via_prefix() {
    let mut b = bundle();
    b.set_locale("fr-CA");
    assert_eq!(b.current_locale(), "fr-CA");
    // fr-CA has no bundle but falls back to fr.
    assert_eq!(b.t("hello", &TransArgs::new()), "Bonjour !");
}

const HUD_EN: &str = r#"
hud-gold = Gold
quest-progress = { $done } of { $total } complete
enemies-left = { $n ->
    [one] { $n } enemy remaining
   *[other] { $n } enemies remaining
}
"#;

const HUD_DE: &str = r#"
hud-gold = Gold
enemies-left = { $n ->
    [one] Noch { $n } Gegner
   *[other] Noch { $n } Gegner
}
"#;

#[test]
fn hud_strings_resolve_with_plurals_and_fallback() {
    let mut ui =
        I18nBundle::from_sources("en", &[("en", HUD_EN), ("de", HUD_DE)]).expect("valid ftl");

    assert_eq!(ui.t("hud-gold", &TransArgs::new()), "Gold");
    assert_eq!(
        ui.t("enemies-left", &TransArgs::new().set("n", 1_i64)),
        "1 enemy remaining"
    );
    assert_eq!(
        ui.t("enemies-left", &TransArgs::new().set("n", 7_i64)),
        "7 enemies remaining"
    );

    // Switch locale: de resolves its own strings, falls back to en for missing.
    ui.set_locale("de");
    assert_eq!(ui.t("hud-gold", &TransArgs::new()), "Gold");
    assert_eq!(
        ui.t("enemies-left", &TransArgs::new().set("n", 3_i64)),
        "Noch 3 Gegner"
    );
    // `quest-progress` only exists in en → falls back, never blank.
    let progress = ui.t(
        "quest-progress",
        &TransArgs::new().set("done", 2_i64).set("total", 5_i64),
    );
    assert_eq!(progress, "2 of 5 complete");
}

#[test]
fn missing_keys_render_loudly() {
    let ui = I18nBundle::from_sources("en", &[("en", HUD_EN)]).expect("valid ftl");
    assert_eq!(
        ui.t("does-not-exist", &TransArgs::new()),
        "⟦does-not-exist⟧"
    );
}

#[test]
fn catalog_mut_hot_reload_keeps_the_locale() {
    let mut b = bundle();
    b.set_locale("fr");
    b.catalog_mut().add("fr", "hello = Salut !").expect("valid ftl");
    assert_eq!(b.current_locale(), "fr");
    assert_eq!(b.formatter().locale(), "fr");
    assert_eq!(b.t("hello", &TransArgs::new()), "Salut !");
    assert!(b.catalog().has_locale("fr"));
}

#[test]
fn from_sources_reports_a_broken_source() {
    assert!(I18nBundle::from_sources("en", &[("en", "x = {")]).is_err());
}
