use f_boom::text::{append_decimal, contains_text, parse_u16, split_once, starts_with};

#[test]
fn parse_u16_like_std() {
    for s in ["0", "80", "+80", "0080", "65535", "65536", "", "+", "-1", "1a", " 1", "99999999999", "+-1"] {
        assert_eq!(parse_u16(s), s.parse::<u16>().ok(), "text = {s:?}");
    }
}

#[test]
fn decimal_text_reads_back() {
    for n in [0u16, 7, 10, 80, 443, 8080, 65535] {
        let mut out = String::new();
        append_decimal(&mut out, n as u64);
        assert_eq!(out, n.to_string());
        assert_eq!(parse_u16(&out), Some(n));
    }
    let mut out = "port ".to_string();
    append_decimal(&mut out, u64::MAX);
    assert_eq!(out, format!("port {}", u64::MAX));
}

#[test]
fn prefixes_and_splits() {
    assert!(starts_with("http://x", "http://"));
    assert!(!starts_with("http:/", "http://"));
    assert!(starts_with("abc", ""));
    assert_eq!(split_once("a/b/c", '/'), ("a", Some("b/c")));
    assert_eq!(split_once("abc", '/'), ("abc", None));
    assert_eq!(split_once("/x", '/'), ("", Some("x")));
    assert!(contains_text(&vec!["a".to_string(), "http2".to_string()], "http2"));
    assert!(!contains_text(&vec![], "http2"));
}
