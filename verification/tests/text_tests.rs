use http_management::text::{decimal_string, hex_string, is_whitespace, string_of, trim_chars};
use http_management::url::{decode_path_element, parse_usize_text, UrlParams};

#[test]
fn formats_numbers() {
    assert_eq!(decimal_string(0), "0");
    assert_eq!(decimal_string(1234567890), "1234567890");
    assert_eq!(decimal_string(u64::MAX), u64::MAX.to_string());
    assert_eq!(hex_string(0), "0");
    assert_eq!(hex_string(0xdeadbeef), "deadbeef");
    assert_eq!(hex_string(u64::MAX), "ffffffffffffffff");
}

#[test]
fn trims_unicode_whitespace() {
    let v: Vec<char> = "\u{3000}\t a b \u{a0}\n".chars().collect();
    assert_eq!(string_of(&trim_chars(&v)), "a b");
    assert!(is_whitespace('\u{2028}'));
    assert!(!is_whitespace('x'));
}

#[test]
fn parses_numbers_like_std() {
    for s in ["0", "+12", "007", "18446744073709551615", "18446744073709551616", "-1", "+", "", " 1", "1a"] {
        assert_eq!(parse_usize_text(s), s.parse::<usize>().ok(), "{s:?}");
    }
}

#[test]
fn decodes_path_elements() {
    assert_eq!(decode_path_element("a%20b"), "a b");
    assert_eq!(decode_path_element("a+b"), "a b");
    assert_eq!(decode_path_element("plain"), "plain");
    assert_eq!(decode_path_element(""), "");
}

#[test]
fn url_params_keep_last_non_empty_value() {
    let p = UrlParams::new(Some("a=1&b=&a=2&c=%41"));
    assert_eq!(p.get("a").as_deref(), Some("2"));
    assert_eq!(p.get("b"), None);
    assert_eq!(p.get("c").as_deref(), Some("A"));
    assert_eq!(p.parse_usize("a"), Some(2));
    assert_eq!(p.parse_usize("zz"), None);
}

#[test]
fn url_params_from_decoded_pairs() {
    let pairs = vec![
        ("k".to_string(), "".to_string()),
        ("k".to_string(), "v".to_string()),
        ("x".to_string(), "y".to_string()),
    ];
    let p = UrlParams::from_pairs(&pairs);
    assert_eq!(p.get("k").as_deref(), Some("v"));
    assert_eq!(p.get("x").as_deref(), Some("y"));
}
