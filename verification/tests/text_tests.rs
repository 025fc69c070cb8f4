use vibe_kanban::order::{stable_named_order, stable_order};
use vibe_kanban::text::{
    contains_str, find_str, first_word_str, i64_to_decimal, is_blank, join_strings, lower_str,
    parse_i64, parse_u64, parse_usize, rfind_str, rsplit_once_str, split_lines, split_once_str,
    split_slash_segments, str_lt, trim_start_matches_char, trim_str, u64_to_decimal,
    usize_to_decimal,
};

#[test]
fn trimming_and_case() {
    assert_eq!(trim_str("\t a b \n"), "a b");
    assert!(is_blank(" \r\n"));
    assert!(!is_blank(" x "));
    assert_eq!(lower_str("MiXeD-1"), "mixed-1");
    assert_eq!(trim_start_matches_char("//a/", '/'), "a/");
}

#[test]
fn searching() {
    assert_eq!(find_str("a::b::c", "::"), Some(1));
    assert_eq!(rfind_str("a::b::c", "::"), Some(4));
    assert_eq!(find_str("abc", "x"), None);
    assert_eq!(split_once_str("a::b::c", "::"), Some(("a", "b::c")));
    assert_eq!(rsplit_once_str("a::b::c", "::"), Some(("a::b", "c")));
    assert!(contains_str("hello", "ell"));
    assert_eq!(first_word_str("  one two"), Some(("one", " two")));
    assert_eq!(first_word_str("   "), None);
}

#[test]
fn lines_and_segments() {
    assert_eq!(split_lines("a\r\nb\n\nc\n"), vec!["a", "b", "", "c"]);
    assert!(split_lines("").is_empty());
    assert_eq!(split_slash_segments("/a//b/"), vec!["a", "b"]);
    assert_eq!(
        join_strings(&vec!["x".to_string(), "y".to_string()], ", "),
        "x, y"
    );
}

#[test]
fn numbers() {
    assert_eq!(parse_i64("-42"), Some(-42));
    assert_eq!(parse_i64("+7"), Some(7));
    assert_eq!(parse_i64("9223372036854775808"), None);
    assert_eq!(parse_i64("-9223372036854775808"), Some(i64::MIN));
    assert_eq!(parse_u64("18446744073709551615"), Some(u64::MAX));
    assert_eq!(parse_u64("18446744073709551616"), None);
    assert_eq!(parse_u64(""), None);
    assert_eq!(parse_usize("12a"), None);
    assert_eq!(usize_to_decimal(0), "0");
    assert_eq!(u64_to_decimal(1234), "1234");
    assert_eq!(i64_to_decimal(i64::MIN), "-9223372036854775808");
}

#[test]
fn ordering_helpers() {
    assert!(str_lt("abc", "abd"));
    assert!(str_lt("ab", "abc"));
    assert!(!str_lt("b", "a"));
    assert_eq!(stable_order(&vec![(3, 1), (1, 2), (3, 0), (1, 2)]), vec![1, 3, 2, 0]);
    assert_eq!(
        stable_named_order(&vec![(1, "b".into(), 1), (1, "a".into(), 2), (0, "z".into(), 3)]),
        vec![2, 1, 0]
    );
}
