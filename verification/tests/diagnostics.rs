use jlox::errors::{error, report};
use jlox::scanner::Scanner;

#[test]
fn error_formats_line_and_message() {
    assert_eq!(error(12, "boom"), "[line 12] Error: boom");
    assert_eq!(error(1, ""), "[line 1] Error: ");
    assert_eq!(error(0, "zero"), "[line 0] Error: zero");
    assert_eq!(error(907, "big"), "[line 907] Error: big");
}

#[test]
fn report_includes_the_contextual_location() {
    assert_eq!(report(3, " at ')'", "msg"), "[line 3] Error at ')': msg");
    assert_eq!(report(3, "", "msg"), "[line 3] Error: msg");
}

#[test]
fn lex_error_message_names_the_character() {
    let (_, err) = Scanner::new("#".to_string()).scan_tokens();
    let e = err.expect("'#' is unrecognized");
    assert_eq!(e.message(), "Unexpected character: #");
    assert_eq!(error(e.line, &e.message()), "[line 1] Error: Unexpected character: #");
}
