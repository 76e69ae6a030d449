use rlox::printer::indent_string;

#[test]
fn indents_every_line() {
    assert_eq!(indent_string("a\nb", 2), "  a\n  b");
}

#[test]
fn trailing_newline_adds_no_line() {
    assert_eq!(indent_string("a\nb\n", 3), "   a\n   b");
}

#[test]
fn empty_lines_are_indented_too() {
    assert_eq!(indent_string("a\n\nb", 1), " a\n \n b");
}

#[test]
fn carriage_return_before_newline_is_dropped() {
    assert_eq!(indent_string("a\r\nb", 2), "  a\n  b");
}

#[test]
fn empty_text_stays_empty() {
    assert_eq!(indent_string("", 4), "");
}
