use netlabs::shell::{is_exit, is_white_space, split, str_eq};

#[test]
fn split_on_white_space() {
    assert_eq!(split("ls  -la\t/tmp\n"), vec!["ls", "-la", "/tmp"]);
    assert_eq!(split("  echo hi "), vec!["echo", "hi"]);
    assert!(split("   \r\n").is_empty());
    assert!(split("").is_empty());
    assert_eq!(split("a\u{3000}b"), vec!["a", "b"]);
}

#[test]
fn white_space_matches_std() {
    for c in ['\t', '\n', ' ', '\u{85}', '\u{a0}', '\u{2003}', '\u{3000}', 'a', '-', '\u{200b}'] {
        assert_eq!(is_white_space(c), c.is_whitespace(), "{c:?}");
    }
}

#[test]
fn exit_line() {
    assert!(is_exit("exit"));
    assert!(is_exit("  exit \r\n"));
    assert!(!is_exit("exit now"));
    assert!(!is_exit("ex it"));
    assert!(!is_exit(""));
}

#[test]
fn text_equality() {
    assert!(str_eq("GET", "GET"));
    assert!(!str_eq("GET", "GE"));
    assert!(!str_eq("GET", "PUT"));
}
