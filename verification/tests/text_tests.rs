use fingered::text::{chars_of, fix_str_crlf, fix_string_crlf};

fn fixed(text: &str) -> String {
    let mut text = String::from(text);
    fix_string_crlf(&mut text);
    text
}

#[test]
fn characters_in_order() {
    assert_eq!(chars_of("a\u{e4}b"), vec!['a', '\u{e4}', 'b']);
    assert_eq!(chars_of(""), Vec::<char>::new());
}

#[test]
fn text_without_line_break_gets_crlf() {
    assert_eq!(fixed("Hello"), "Hello\r\n");
    assert_eq!(fixed(""), "\r\n");
}

#[test]
fn final_line_feed_becomes_crlf() {
    assert_eq!(fixed("Hello\n"), "Hello\r\n");
}

#[test]
fn every_line_feed_becomes_crlf() {
    assert_eq!(fixed("a\nb"), "a\r\nb\r\n");
    assert_eq!(fixed("a\nb\n"), "a\r\nb\r\n");
    assert_eq!(fixed("a\n\nb"), "a\r\n\r\nb\r\n");
    assert_eq!(fixed("\n"), "\r\n");
    assert_eq!(fixed("\n\n"), "\r\n\r\n");
}

#[test]
fn crlf_stays() {
    assert_eq!(fixed("a\r\n"), "a\r\n");
    assert_eq!(fixed("a\r\nb\r\n"), "a\r\nb\r\n");
    assert_eq!(fixed("a\r\nb"), "a\r\nb\r\n");
    assert_eq!(fixed("a\r\nb\nc"), "a\r\nb\r\nc\r\n");
}

#[test]
fn lone_carriage_return_is_kept() {
    assert_eq!(fixed("a\r"), "a\r\r\n");
    assert_eq!(fixed("a\rb\n"), "a\rb\r\n");
    assert_eq!(fixed("a\nb\r"), "a\r\nb\r\r\n");
}

#[test]
fn fixing_twice_changes_nothing_more() {
    for text in ["", "a", "a\n", "a\r\nb", "a\n\n", "\u{e4}\n\u{f6}"] {
        let once = fixed(text);
        assert_eq!(fixed(&once), once);
        assert!(once.ends_with("\r\n"));
        assert_eq!(once.matches('\n').count(), once.matches("\r\n").count());
    }
}

#[test]
fn lines_of_a_text() {
    assert_eq!(fix_str_crlf(""), "");
    assert_eq!(fix_str_crlf("a"), "a\r\n");
    assert_eq!(fix_str_crlf("a\nb"), "a\r\nb\r\n");
    assert_eq!(fix_str_crlf("a\r\nb\n"), "a\r\nb\r\n");
}
