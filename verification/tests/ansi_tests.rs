use forge_display::ansi::parse_sgr_segments;
use forge_display::ansi::rtrim_visible_preserve_sgr;
use forge_display::ansi::wrap_ansi_simple;
use forge_display::ansi::wrap_code_simple;

#[test]
fn test_wrap_code_long_line() {
    let fixture = "a".repeat(100);
    let actual = wrap_code_simple(&fixture, 50);
    let expected = "a".repeat(50) + "\n" + &"a".repeat(50) + "\n";
    assert_eq!(actual, expected);
}

#[test]
fn test_wrap_code_unicode_no_wrap() {
    // four characters but five bytes: wrapping counts characters, so the
    // multi-byte character is never split
    let fixture = "caf\u{e9}";
    let actual = wrap_code_simple(fixture, 4);
    let expected = "caf\u{e9}\n";
    assert_eq!(actual, expected);
}

#[test]
fn test_wrap_code_multibyte_split_point() {
    // seven characters wrapped at four: the cut falls between characters
    let fixture = "caf\u{e9}caf\u{e9}";
    let actual = wrap_code_simple(fixture, 4);
    assert_eq!(actual, "caf\u{e9}\ncaf\u{e9}\n");
}

#[test]
fn test_wrap_code_zero_width_unchanged() {
    assert_eq!(wrap_code_simple("abc", 0), "abc");
}

#[test]
fn test_wrap_ansi_counts_only_visible_columns() {
    let actual = wrap_ansi_simple("\x1b[31mabcd", 3);
    assert_eq!(actual, "\x1b[31mabc\nd");
}

#[test]
fn test_wrap_ansi_lines_within_width() {
    let wrapped = wrap_ansi_simple("abcdefgh", 3);
    assert_eq!(wrapped, "abc\ndef\ngh");
    for line in wrapped.lines() {
        assert!(line.chars().count() <= 3);
    }
}

#[test]
fn test_wrap_ansi_inserts_only_newlines() {
    let input = "one two three four five six seven";
    let wrapped = wrap_ansi_simple(input, 5);
    let without_newlines: String = wrapped.chars().filter(|c| *c != '\n').collect();
    let original: String = input.chars().filter(|c| *c != '\n').collect();
    assert_eq!(without_newlines, original);
}

#[test]
fn test_wrap_ansi_explicit_newline_resets() {
    assert_eq!(wrap_ansi_simple("ab\ncd", 10), "ab\ncd");
}

#[test]
fn test_rtrim_strips_trailing_whitespace_keeps_sgr() {
    let actual = rtrim_visible_preserve_sgr("ab  \x1b[0m  ");
    assert_eq!(actual, "ab\x1b[0m");
}

#[test]
fn test_rtrim_plain_text() {
    assert_eq!(rtrim_visible_preserve_sgr("hello   "), "hello");
    assert_eq!(rtrim_visible_preserve_sgr("hello\t \t"), "hello");
    assert_eq!(rtrim_visible_preserve_sgr("hello"), "hello");
}

#[test]
fn test_rtrim_all_whitespace_clears_line() {
    assert_eq!(rtrim_visible_preserve_sgr("   \t "), "");
}

#[test]
fn test_rtrim_keeps_lone_sgr_run() {
    // a line holding only an escape sequence and whitespace keeps the escape
    assert_eq!(rtrim_visible_preserve_sgr("\x1b[0m  "), "\x1b[0m");
    assert_eq!(rtrim_visible_preserve_sgr("  \x1b[1m"), "\x1b[1m");
}

#[test]
fn test_rtrim_keeps_sgr_order() {
    let input = "\x1b[1mbold\x1b[0m  ";
    let actual = rtrim_visible_preserve_sgr(input);
    assert_eq!(actual, "\x1b[1mbold\x1b[0m");
}

#[test]
fn test_parse_sgr_segments_shape() {
    let segs = parse_sgr_segments("a\x1b[1mb");
    assert_eq!(segs.len(), 3);
    assert!(!segs[0].is_sgr);
    assert_eq!((segs[0].start, segs[0].end), (0, 1));
    assert!(segs[1].is_sgr);
    assert_eq!((segs[1].start, segs[1].end), (1, 5));
    assert!(!segs[2].is_sgr);
    assert_eq!((segs[2].start, segs[2].end), (5, 6));
}

#[test]
fn test_parse_sgr_segments_unterminated_escape_is_text() {
    let segs = parse_sgr_segments("a\x1b[12");
    assert_eq!(segs.len(), 1);
    assert!(!segs[0].is_sgr);
}

#[test]
fn test_parse_sgr_segments_empty() {
    let segs = parse_sgr_segments("");
    assert_eq!(segs.len(), 0);
}
