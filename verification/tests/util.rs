use config_loader::util::is_newline;
use config_loader::util::strip_line_end;

#[test]
fn line_feed_and_carriage_return_are_newlines() {
    assert!(is_newline('\n'));
    assert!(is_newline('\r'));
}

#[test]
fn other_characters_are_no_newlines() {
    assert!(!is_newline(' '));
    assert!(!is_newline('\t'));
    assert!(!is_newline('n'));
    assert!(!is_newline('\u{2028}'));
    assert!(!is_newline('\u{0085}'));
    assert!(!is_newline('\0'));
}

#[test]
fn line_end_is_taken_off() {
    assert_eq!(strip_line_end("abc\n"), "abc");
    assert_eq!(strip_line_end("abc\r\n"), "abc");
    assert_eq!(strip_line_end("abc\n\r\n\r"), "abc");
    assert_eq!(strip_line_end("\n"), "");
    assert_eq!(strip_line_end(""), "");
}

#[test]
fn only_the_end_of_the_line_is_touched() {
    assert_eq!(strip_line_end("a\nb\n"), "a\nb");
    assert_eq!(strip_line_end("\nabc"), "\nabc");
    assert_eq!(strip_line_end("abc \n"), "abc ");
    assert_eq!(strip_line_end("abc\n "), "abc\n ");
    assert_eq!(strip_line_end("äöü€\r\n"), "äöü€");
}
