use smart_brain::text::{
    chars_of, decimal_string, is_whitespace, owned, parse_u32, same_text, split, string_of,
    trim, trim_end,
};

fn chars(s: &str) -> Vec<char> {
    s.chars().collect()
}

#[test]
fn trimming_matches_str_trim() {
    for s in ["  !AIVDM,1 \t\n", "", "   ", "x", "\u{3000}a b\u{2028}"] {
        assert_eq!(string_of(&trim(&chars(s))), s.trim());
        assert_eq!(string_of(&trim_end(&chars(s))), s.trim_end());
    }
    assert!(is_whitespace('\u{85}'));
    assert!(!is_whitespace('a'));
}

#[test]
fn split_keeps_empty_fields() {
    let f: Vec<String> = split(&chars("a,,b,"), ',').iter().map(|v| string_of(v)).collect();
    assert_eq!(f, vec!["a", "", "b", ""]);
    assert_eq!(split(&chars(""), ',').len(), 1);
}

#[test]
fn parse_u32_matches_from_str() {
    for s in ["0", "1", "+7", "4294967295", "4294967296", "", "+", "-1", "1a", "007"] {
        assert_eq!(parse_u32(&chars(s)), s.parse::<u32>().ok(), "input {s:?}");
    }
}

#[test]
fn string_helpers() {
    assert_eq!(decimal_string(0), "0");
    assert_eq!(decimal_string(12034), "12034");
    assert_eq!(smart_brain::text::concat(owned("ab"), "cd"), "abcd");
    assert!(same_text("mock", "mock"));
    assert!(!same_text("mock", "mocks"));
    assert_eq!(chars_of("héllo"), chars("héllo"));
}
