use jira_mcp_server::text::{
    comma_list, comma_split_trimmed, fmt_i64, fmt_u64, join, parse_i64, replace_first, split,
    str_contains, trim,
};

#[test]
fn decimal_round_trip_for_extremes() {
    for n in [0i64, 7, -7, 10, 1234567890, i64::MAX, i64::MIN] {
        assert_eq!(fmt_i64(n), n.to_string());
        assert_eq!(parse_i64(&fmt_i64(n)), Some(n));
    }
}

#[test]
fn trim_removes_unicode_white_space() {
    assert_eq!(trim("\u{3000} a b \n\t"), "a b");
}

#[test]
fn parse_i64_edge_cases() {
    assert_eq!(parse_i64("+5"), Some(5));
    assert_eq!(parse_i64("-0"), Some(0));
    assert_eq!(parse_i64(""), None);
    assert_eq!(parse_i64("-"), None);
    assert_eq!(parse_i64("1 2"), None);
    assert_eq!(parse_i64("9223372036854775807"), Some(i64::MAX));
    assert_eq!(parse_i64("9223372036854775808"), None);
    assert_eq!(parse_i64("-9223372036854775808"), Some(i64::MIN));
    assert_eq!(parse_i64("-9223372036854775809"), None);
    assert_eq!(parse_i64("00042"), Some(42));
}

#[test]
fn split_join_and_lists() {
    assert_eq!(split("a,,b", ','), vec!["a".to_string(), String::new(), "b".to_string()]);
    assert_eq!(split("", ','), vec![String::new()]);
    assert_eq!(join(&vec!["x".to_string(), "y".to_string()], ", "), "x, y");
    assert_eq!(join(&vec![], ", "), "");
    assert_eq!(comma_list(" a, ,b "), vec!["a".to_string(), "b".to_string()]);
    assert_eq!(comma_split_trimmed(" a,,b "), vec!["a".to_string(), String::new(), "b".to_string()]);
}

#[test]
fn search_and_replace() {
    assert!(str_contains("Story Points", "y P"));
    assert!(str_contains("abc", ""));
    assert!(!str_contains("ab", "abc"));
    assert_eq!(replace_first("a +b +c", " +", "+"), "a+b +c");
    assert_eq!(replace_first("abc", "x", "y"), "abc");
    assert_eq!(fmt_u64(u64::MAX), "18446744073709551615");
}
