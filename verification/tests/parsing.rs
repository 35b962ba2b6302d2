use jlox::ast_printer::AstPrinter;
use jlox::expression::Expr;
use jlox::parser::{ParseError, Parser};
use jlox::scanner::Scanner;
use jlox::token::{Token, TokenType};

fn parse_source(source: &str) -> (Option<Expr>, Option<ParseError>) {
    let scanner = Scanner::new(source.to_string());
    let (tokens, err) = scanner.scan_tokens();
    assert!(err.is_none(), "source should scan cleanly");
    let mut parser = Parser::new(tokens);
    let expr = parser.parse();
    (expr, parser.last_error())
}

fn parse_and_print(source: &str) -> String {
    let (expr, _) = parse_source(source);
    let expr = expr.expect("source should parse");
    let mut printer = AstPrinter::new();
    printer.print(&expr)
}

#[test]
fn star_binds_tighter_than_plus() {
    assert_eq!(parse_and_print("1 + 2 * 3"), "(+ 1 (* 2 3))");
}

#[test]
fn parentheses_override_precedence() {
    assert_eq!(parse_and_print("(1 + 2) * 3"), "(* (+ 1 2) 3)");
}

#[test]
fn same_precedence_folds_left_associatively() {
    assert_eq!(parse_and_print("8 - 4 - 2"), "(- (- 8 4) 2)");
    assert_ne!(parse_and_print("8 - 4 - 2"), "(- 8 (- 4 2))");
    assert_eq!(parse_and_print("8 / 4 / 2"), "(/ (/ 8 4) 2)");
}

#[test]
fn a_lone_number_parses_to_its_literal() {
    assert_eq!(parse_and_print("42"), "42");
}

#[test]
fn nested_parentheses_parse() {
    assert_eq!(parse_and_print("((7))"), "7");
    assert_eq!(parse_and_print("(1 * (2 + 3))"), "(* 1 (+ 2 3))");
}

#[test]
fn unbalanced_parenthesis_fails_and_reports_the_missing_token() {
    let (expr, err) = parse_source("(1 + 2");
    assert!(expr.is_none());
    let e = err.expect("expected a recorded parse failure");
    assert_eq!(e, ParseError::ExpectedRightParen);
    assert!(e.message().contains("')'"));
    assert_eq!(e.message(), "Expect ')' after expression.");
}

#[test]
fn empty_source_parses_to_no_expression() {
    let (expr, err) = parse_source("");
    assert!(expr.is_none());
    assert!(err.is_none());
}

#[test]
fn an_operator_without_a_right_operand_fails() {
    let (expr, err) = parse_source("1 +");
    assert!(expr.is_none());
    assert!(err.is_none());
}

#[test]
fn a_non_number_primary_fails_cleanly() {
    let (expr, err) = parse_source("+ 1");
    assert!(expr.is_none());
    assert!(err.is_none());
}

#[test]
fn parsing_stops_after_the_first_expression() {
    assert_eq!(parse_and_print("1 2"), "1");
}

#[test]
fn printer_prefers_the_decoded_literal_value() {
    let with_literal = Token::new(
        TokenType::Number,
        "1".to_string(),
        Some("one".to_string()),
        1,
    );
    let expr = Expr::Literal {
        value: with_literal,
    };
    let mut printer = AstPrinter::new();
    assert_eq!(printer.print(&expr), "one");
}

#[test]
fn binary_constructor_builds_the_printed_shape() {
    let one = Token::new(TokenType::Number, "1".to_string(), None, 1);
    let two = Token::new(TokenType::Number, "2".to_string(), None, 1);
    let plus = Token::new(TokenType::Plus, "+".to_string(), None, 1);
    let expr = Expr::binary(
        Expr::Literal { value: one },
        plus,
        Expr::Literal { value: two },
    );
    let mut printer = AstPrinter::new();
    assert_eq!(printer.print(&expr), "(+ 1 2)");
}

#[test]
fn parser_over_a_bare_end_marker_finds_nothing() {
    let tokens = vec![Token::new(TokenType::Eof, String::new(), None, 1)];
    let mut parser = Parser::new(tokens);
    assert!(parser.parse().is_none());
    assert!(parser.last_error().is_none());
}
