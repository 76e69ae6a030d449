use rlox::report::{error_report_text, RuntimeError};
use rlox::span::{Location, Span};

#[test]
fn one_line_error_is_underlined() {
    let e = RuntimeError {
        message: "Runtime error: division by zero".to_string(),
        span: Span::new(Location::new(2, 9), Location::new(2, 10)),
    };
    let src = "var a = 1;\nprint a / 0;\n";
    assert_eq!(
        error_report_text(&e, src),
        "[line 2]: print a / 0;\n                  ^\n\nRuntime error: division by zero\n"
    );
}

#[test]
fn several_lines_are_numbered() {
    let e = RuntimeError {
        message: "Runtime error: boom".to_string(),
        span: Span::new(Location::new(9, 1), Location::new(10, 3)),
    };
    let mut src = String::new();
    for i in 1..=10 {
        src.push_str(&format!("line{}\n", i));
    }
    assert_eq!(error_report_text(&e, &src), "[lines 9-10]:\n 9 | line9\n10 | line10\n\nRuntime error: boom\n");
}

#[test]
fn missing_line_shows_empty_text() {
    let e = RuntimeError { message: "m".to_string(), span: Span::new(Location::new(5, 1), Location::new(5, 1)) };
    assert_eq!(error_report_text(&e, "x"), "[line 5]: \n          \n\nm\n");
}
