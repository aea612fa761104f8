use rssstv::i18n::Locale;
use rssstv::text::{
    eq_ignore_ascii_case, format_decimal, format_zero_padded, has_lowercase, parse_u32, same_text,
    starts_with_text, to_ascii_uppercase, trim,
};

#[test]
fn trimming_follows_unicode_white_space() {
    assert_eq!(trim("  a b \t\n"), "a b");
    assert_eq!(trim("\u{3000}x\u{3000}"), "x");
    assert_eq!(trim(""), "");
    assert_eq!(trim(trim(" x ").as_str()), "x");
}

#[test]
fn numbers_parse_as_rust_parses_them() {
    assert_eq!(parse_u32("42"), Some(42));
    assert_eq!(parse_u32("+7"), Some(7));
    assert_eq!(parse_u32("007"), Some(7));
    assert_eq!(parse_u32("4294967295"), Some(u32::MAX));
    assert_eq!(parse_u32("4294967296"), None);
    assert_eq!(parse_u32(""), None);
    assert_eq!(parse_u32("+"), None);
    assert_eq!(parse_u32("-1"), None);
    assert_eq!(parse_u32("13H"), None);
}

#[test]
fn numbers_are_written_with_padding() {
    assert_eq!(format_decimal(0), "0");
    assert_eq!(format_decimal(1234), "1234");
    assert_eq!(format_zero_padded(7, 3), "007");
    assert_eq!(format_zero_padded(1000, 3), "1000");
}

#[test]
fn case_rules_are_the_ascii_ones() {
    assert_eq!(to_ascii_uppercase("ja1abc é"), "JA1ABC é");
    assert!(eq_ignore_ascii_case("PnG", "png"));
    assert!(!eq_ignore_ascii_case("png", "pngs"));
    assert!(has_lowercase("JA1aBC"));
    assert!(!has_lowercase("JA1ABC"));
    assert!(same_text("abc", "abc"));
    assert!(!same_text("abc", "abd"));
    assert!(starts_with_text("assets/x", "assets/"));
    assert!(!starts_with_text("asset", "assets/"));
}

#[test]
fn locales_are_named_by_their_tags() {
    assert_eq!(Locale::all(), [Locale::En, Locale::Ja]);
    assert_eq!(Locale::default_locale(), Locale::En);
    assert_eq!(Locale::En.tag(), "en");
    assert_eq!(Locale::Ja.tag(), "ja");
    assert_eq!(Locale::from_tag("ja"), Some(Locale::Ja));
    assert_eq!(Locale::from_tag("fr"), None);
    for locale in Locale::all() {
        assert_eq!(Locale::from_tag(locale.tag()), Some(locale));
    }
    assert_eq!(Locale::Ja.name(), "日本語");
    assert_eq!(Locale::En.name(), "English");
}
