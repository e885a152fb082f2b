use claude_tools::text::{parse_u32, replace_dashes, str_contains, str_eq};

#[test]
fn parse_u32_follows_str_parse() {
    for s in ["0", "7", "+7", "007", "4294967295", "4294967296", "", "+", "-1", "1a", " 1", "٣"] {
        assert_eq!(parse_u32(s), s.parse::<u32>().ok(), "{s:?}");
    }
}

#[test]
fn replace_dashes_like_str_replace() {
    assert_eq!(replace_dashes("serde-json"), "serde_json");
    assert_eq!(replace_dashes("a--b-"), "a__b_");
    assert_eq!(replace_dashes("plain"), "plain");
}

#[test]
fn contains_and_eq() {
    assert!(str_contains("abc", ""));
    assert!(str_contains("a—b", "—b"));
    assert!(!str_contains("ab", "abc"));
    assert!(str_eq("x", "x"));
    assert!(!str_eq("x", "y"));
}
