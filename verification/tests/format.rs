use omm::{Currency, LocaleFormatter};

#[test]
fn integer_grouping_per_locale() {
    let en = LocaleFormatter::new("en");
    let de = LocaleFormatter::new("de");
    let fr = LocaleFormatter::new("fr");
    assert_eq!(en.format_integer(1_234_567), "1,234,567");
    assert_eq!(de.format_integer(1_234_567), "1.234.567");
    assert_eq!(fr.format_integer(1_234_567), "1 234 567");
    assert_eq!(en.format_integer(-42), "-42");
    assert_eq!(en.format_integer(0), "0");
    assert_eq!(en.format_integer(999), "999");
    assert_eq!(en.format_integer(1_000), "1,000");
}

#[test]
fn grouping_only_inserts_separators() {
    let en = LocaleFormatter::new("en");
    for v in [7_i64, 12, 345, 6_789, 98_765, 1_234_567_890, i64::MAX] {
        assert_eq!(en.format_integer(v).replace(',', ""), v.to_string());
    }
    assert!(!en.format_integer(123).contains(','));
}

#[test]
fn integer_handles_i64_min_without_overflow() {
    let en = LocaleFormatter::new("en");
    assert_eq!(en.format_integer(i64::MIN), "-9,223,372,036,854,775,808");
}

#[test]
fn currency_placement_and_minor_units() {
    let en = LocaleFormatter::new("en");
    let de = LocaleFormatter::new("de");
    let ja = LocaleFormatter::new("ja");
    assert_eq!(en.format_currency(1_234_567, Currency::usd()), "$12,345.67");
    assert_eq!(de.format_currency(1_234_567, Currency::eur()), "12.345,67 €");
    // JPY has zero minor digits — no decimal part.
    assert_eq!(ja.format_currency(1_234_567, Currency::jpy()), "¥1,234,567");
    assert_eq!(en.format_currency(-500, Currency::usd()), "-$5.00");
    assert_eq!(en.format_currency(5, Currency::usd()), "$0.05");
}

#[test]
fn date_order_and_separator_per_locale() {
    let us = LocaleFormatter::new("en-US");
    let gb = LocaleFormatter::new("en-GB");
    let de = LocaleFormatter::new("de");
    let ja = LocaleFormatter::new("ja");
    assert_eq!(us.format_date(2026, 7, 6), "07/06/2026");
    assert_eq!(gb.format_date(2026, 7, 6), "06/07/2026");
    assert_eq!(de.format_date(2026, 7, 6), "06.07.2026");
    assert_eq!(ja.format_date(2026, 7, 6), "2026/07/06");
}

#[test]
fn unknown_locale_falls_back_to_en_rules() {
    let xx = LocaleFormatter::new("xx-YY");
    assert_eq!(xx.locale(), "xx-YY");
    assert_eq!(xx.format_integer(1_000), "1,000");
    assert_eq!(xx.format_date(2026, 7, 6), "07/06/2026");
}

#[test]
fn underscore_locale_separator_is_accepted() {
    let de = LocaleFormatter::new("de_DE");
    assert_eq!(de.format_integer(1_000), "1.000");
}

#[test]
fn integers_money_and_dates_follow_locale_rules() {
    let en = LocaleFormatter::new("en-US");
    let de = LocaleFormatter::new("de");
    assert_eq!(en.format_integer(2_500_000), "2,500,000");
    assert_eq!(de.format_integer(2_500_000), "2.500.000");
    assert_eq!(en.format_currency(1_999, Currency::usd()), "$19.99");
    assert_eq!(de.format_currency(1_999, Currency::eur()), "19,99 €");
    assert_eq!(en.format_date(2026, 7, 6), "07/06/2026");
    assert_eq!(de.format_date(2026, 7, 6), "06.07.2026");
}

#[test]
fn pound_uses_prefix_symbol_in_gb() {
    let gb = LocaleFormatter::new("en-GB");
    assert_eq!(gb.format_currency(123_456, Currency::gbp()), "£1,234.56");
    assert_eq!(gb.format_integer(i64::MAX), "9,223,372,036,854,775,807");
}

#[test]
fn small_and_negative_years_are_padded_to_four_places() {
    let us = LocaleFormatter::new("en-US");
    assert_eq!(us.format_date(7, 1, 2), "01/02/0007");
    assert_eq!(us.format_date(-5, 1, 2), "01/02/-005");
}

#[test]
fn default_formatter_is_english() {
    let f = LocaleFormatter::default();
    assert_eq!(f.locale(), "en");
    assert_eq!(f.format_integer(12_345), "12,345");
    let g = f.clone();
    assert_eq!(g.locale(), "en");
}

#[test]
fn rendered_decimals_use_locale_separators() {
    let en = LocaleFormatter::new("en");
    let de = LocaleFormatter::new("de");
    // What `{:.2}` renders for 1234.5.
    assert_eq!(en.format_decimal_text("1234.50", false), "1,234.50");
    assert_eq!(de.format_decimal_text("1234.50", false), "1.234,50");
    assert_eq!(en.format_decimal_text("0.667", false), "0.667");
    // No spurious negative zero.
    assert_eq!(en.format_decimal_text("0.00", true), "0.00");
    assert_eq!(en.format_decimal_text("1.5", true), "-1.5");
    // No fraction digits, no separator.
    assert_eq!(en.format_decimal_text("1234567", true), "-1,234,567");
}

#[test]
fn rendered_percent_spacing_per_locale() {
    let en = LocaleFormatter::new("en");
    let fr = LocaleFormatter::new("fr");
    assert_eq!(en.format_percent_text("50", false), "50%");
    assert_eq!(en.format_percent_text("12.3", false), "12.3%");
    assert_eq!(fr.format_percent_text("50", false), "50 %");
    assert_eq!(fr.format_percent_text("1234.5", true), "-1 234,5 %");
}
