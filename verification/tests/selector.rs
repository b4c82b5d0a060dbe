use match_pdf::selector::{parse_page_number, selector_applies};

#[test]
fn parses_plain_numbers() {
    assert_eq!(parse_page_number("0"), Some(0));
    assert_eq!(parse_page_number("7"), Some(7));
    assert_eq!(parse_page_number("12"), Some(12));
    assert_eq!(parse_page_number("007"), Some(7));
    assert_eq!(parse_page_number("65535"), Some(65535));
}

#[test]
fn parses_signs() {
    assert_eq!(parse_page_number("+7"), Some(7));
    assert_eq!(parse_page_number("-3"), Some(-3));
    assert_eq!(parse_page_number("-0"), Some(0));
}

#[test]
fn rejects_what_is_no_number() {
    assert_eq!(parse_page_number(""), None);
    assert_eq!(parse_page_number("+"), None);
    assert_eq!(parse_page_number("-"), None);
    assert_eq!(parse_page_number("1a"), None);
    assert_eq!(parse_page_number("a1"), None);
    assert_eq!(parse_page_number(" 3"), None);
    assert_eq!(parse_page_number("3 "), None);
    assert_eq!(parse_page_number("--3"), None);
    assert_eq!(parse_page_number("1.5"), None);
    assert_eq!(parse_page_number("\u{ff13}"), None);
}

#[test]
fn keeps_to_the_i32_range() {
    assert_eq!(parse_page_number("2147483647"), Some(i32::MAX));
    assert_eq!(parse_page_number("2147483648"), None);
    assert_eq!(parse_page_number("-2147483648"), Some(i32::MIN));
    assert_eq!(parse_page_number("-2147483649"), None);
    assert_eq!(parse_page_number("99999999999999999999999999"), None);
    assert_eq!(parse_page_number("-99999999999999999999999999"), None);
}

#[test]
fn parsing_agrees_with_the_standard_library() {
    let samples = [
        "", "0", "1", "9", "10", "42", "+42", "-42", "0042", "4 2", "x", "+-1", "2147483647",
        "2147483648", "-2147483648", "-2147483649", "12345678901", "1e3", "\u{0663}",
    ];
    for s in samples {
        assert_eq!(parse_page_number(s), s.parse::<i32>().ok(), "{:?}", s);
    }
}

fn applies(selector: &str, page: &str) -> bool {
    selector_applies(selector, page)
}

#[test]
fn all_applies_to_every_page() {
    assert!(applies("all", "1"));
    assert!(applies("all", "2"));
    assert!(applies("all", "cover"));
    assert!(applies("all", ""));
}

#[test]
fn even_and_odd_go_by_parity() {
    assert!(applies("even", "2"));
    assert!(!applies("even", "3"));
    assert!(applies("odd", "3"));
    assert!(!applies("odd", "2"));
    assert!(applies("odd", "1"));
    assert!(applies("even", "100"));
    assert!(applies("even", "0"));
}

#[test]
fn even_and_odd_need_a_number() {
    assert!(!applies("even", "cover"));
    assert!(!applies("odd", "cover"));
    assert!(!applies("even", ""));
    assert!(!applies("odd", "even"));
    assert!(!applies("even", "even"));
}

#[test]
fn negative_pages_are_never_odd() {
    assert!(!applies("odd", "-3"));
    assert!(applies("even", "-2"));
    assert!(!applies("even", "-3"));
}

#[test]
fn other_selectors_compare_letter_for_letter() {
    assert!(applies("3", "3"));
    assert!(!applies("3", "4"));
    assert!(!applies("03", "3"));
    assert!(!applies("3", "03"));
    assert!(applies("cover", "cover"));
    assert!(!applies("Even", "2"));
    assert!(!applies("ALL", "1"));
    assert!(!applies("", "1"));
    assert!(applies("", ""));
}
