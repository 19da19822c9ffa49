use forja_core::text::{
    decimal_string, is_text_less, lines_of, nonblank_lines, signed_decimal_string, text_contains,
    trimmed, without_prefix,
};
use forja_core::CommandRequest;

#[test]
fn trimming_follows_unicode_white_space() {
    assert_eq!(trimmed("  a b \t\n"), "a b");
    assert_eq!(trimmed("\u{3000}x\u{a0}\u{2028}"), "x");
    assert_eq!(trimmed("\u{200b}x"), "\u{200b}x");
    assert_eq!(trimmed(""), "");
    assert_eq!(trimmed(" \r\n "), "");
}

#[test]
fn lines_split_like_str_lines() {
    for text in ["", "a", "a\n", "a\nb", "a\r\nb\r\n", "a\n\nb\n\n", "a\rb\n", "\n", "x\r"] {
        let expected: Vec<String> = text.lines().map(|l| l.to_string()).collect();
        assert_eq!(lines_of(text), expected, "{text:?}");
    }
    assert_eq!(nonblank_lines(" M a\n\n  \n?? b\r\n"), vec!["M a".to_string(), "?? b".to_string()]);
}

#[test]
fn substring_search_and_prefix() {
    assert!(text_contains("x CONFLICT y", "CONFLICT"));
    assert!(!text_contains("conflict", "CONFLICT"));
    assert!(text_contains("abc", ""));
    assert!(!text_contains("ab", "abc"));
    assert_eq!(without_prefix("origin/main", "origin/"), "main");
    assert_eq!(without_prefix("upstream/main", "origin/"), "upstream/main");
    assert_eq!(without_prefix("origin/", "origin/"), "");
}

#[test]
fn numbers_print_in_decimal() {
    assert_eq!(decimal_string(0), "0");
    assert_eq!(decimal_string(1234567890), "1234567890");
    assert_eq!(decimal_string(u64::MAX), u64::MAX.to_string());
    assert_eq!(signed_decimal_string(-42), "-42");
    assert_eq!(signed_decimal_string(7), "7");
}

#[test]
fn text_order_is_the_string_order() {
    let words = ["", "a", "B", "ab", "é", "Z-9_", "co", "st", "s"];
    for a in words {
        for b in words {
            assert_eq!(is_text_less(a, b), a < b, "{a:?} < {b:?}");
        }
    }
}

#[test]
fn requests_hold_program_and_arguments() {
    let r = CommandRequest::new("git", &["branch", "-d", "x"]);
    assert_eq!(r.program, "git");
    assert_eq!(r.args, vec!["branch".to_string(), "-d".to_string(), "x".to_string()]);
}

#[test]
fn outcome_success_means_exit_zero() {
    let mut o = forja_core::CommandOutcome { status_code: Some(0), stdout: String::new(), stderr: String::new() };
    assert!(o.success());
    o.status_code = Some(1);
    assert!(!o.success());
    o.status_code = None;
    assert!(!o.success());
}

