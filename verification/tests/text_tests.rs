use scoreboard::text::{join_two, take_chars, text_lt, trim_and_limit, trimmed_non_empty};

#[test]
fn prefixes_count_characters_not_bytes() {
    assert_eq!(take_chars("héllo wörld", 4), "héll");
    assert_eq!(take_chars("abc", 3), "abc");
    assert_eq!(take_chars("abc", 10), "abc");
    assert_eq!(take_chars("abc", 0), "");
    assert_eq!(take_chars("", 5), "");
}

#[test]
fn trimming_comes_before_cutting() {
    assert_eq!(trim_and_limit("   abcdef   ", 3), "abc");
    assert_eq!(trim_and_limit("\t ab \n", 20), "ab");
    assert_eq!(trim_and_limit(" \u{a0}\u{3000} ", 20), "");
    assert_eq!(trim_and_limit("a b", 20), "a b");
}

#[test]
fn blank_text_has_nothing_left() {
    assert_eq!(trimmed_non_empty("   "), None);
    assert_eq!(trimmed_non_empty(""), None);
    assert_eq!(trimmed_non_empty(" x "), Some("x".to_string()));
}

#[test]
fn texts_are_joined() {
    assert_eq!(join_two("ab", "cd"), "abcd");
    assert_eq!(join_two("", "cd"), "cd");
    assert_eq!(join_two("ab", ""), "ab");
}

#[test]
fn byte_order_of_texts() {
    assert!(text_lt("a", "b"));
    assert!(!text_lt("b", "a"));
    assert!(!text_lt("a", "a"));
    assert!(text_lt("", "a"));
    assert!(!text_lt("a", ""));
    assert!(!text_lt("", ""));
    assert!(text_lt("ab", "abc"));
    assert!(text_lt("2024-01-09", "2024-01-10"));
    assert!(text_lt("Z", "a"));
    assert!(text_lt("z", "é"));
    for (a, b) in [("x", "y"), ("abc", "abd"), ("", "q"), ("é", "ê"), ("10", "9")] {
        assert_eq!(text_lt(a, b), a < b);
        assert_eq!(text_lt(b, a), b < a);
    }
}
