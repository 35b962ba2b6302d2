use jlox::scanner::{LexError, Scanned, Scanner};
use jlox::token::{Token, TokenType};

fn scan(source: &str) -> (Vec<Token>, Option<LexError>) {
    Scanner::new(source.to_string()).scan_tokens()
}

fn kinds(tokens: &[Token]) -> Vec<TokenType> {
    tokens.iter().map(|t| t.token_type).collect()
}

#[test]
fn punctuation_scans_one_token_per_character() {
    let (tokens, err) = scan("(){},.-+;*");
    assert!(err.is_none());
    assert_eq!(
        kinds(&tokens),
        vec![
            TokenType::LeftParen,
            TokenType::RightParen,
            TokenType::LeftBrace,
            TokenType::RightBrace,
            TokenType::Comma,
            TokenType::Dot,
            TokenType::Minus,
            TokenType::Plus,
            TokenType::Semicolon,
            TokenType::Star,
            TokenType::Eof,
        ]
    );
    for (t, c) in tokens[..tokens.len() - 1].iter().zip("(){},.-+;*".chars()) {
        assert_eq!(t.lexeme, c.to_string());
        assert_eq!(t.line, 1);
    }
}

#[test]
fn paired_operators_scan_as_one_token() {
    for (src, kind) in [
        ("!=", TokenType::BangEqual),
        ("==", TokenType::EqualEqual),
        ("<=", TokenType::LessEqual),
        (">=", TokenType::GreaterEqual),
    ] {
        let (tokens, err) = scan(src);
        assert!(err.is_none());
        assert_eq!(kinds(&tokens), vec![kind, TokenType::Eof]);
        assert_eq!(tokens[0].lexeme, src);
    }
}

#[test]
fn lone_operators_scan_as_one_character_kinds() {
    for (src, kind) in [
        ("!", TokenType::Bang),
        ("=", TokenType::Equal),
        ("<", TokenType::Less),
        (">", TokenType::Greater),
    ] {
        let (tokens, err) = scan(src);
        assert!(err.is_none());
        assert_eq!(kinds(&tokens), vec![kind, TokenType::Eof]);
        assert_eq!(tokens[0].lexeme, src);
    }
}

#[test]
fn line_comment_contributes_no_tokens_but_counts_its_newline() {
    let (tokens, err) = scan("// anything\n1");
    assert!(err.is_none());
    assert_eq!(kinds(&tokens), vec![TokenType::Number, TokenType::Eof]);
    assert_eq!(tokens[0].lexeme, "1");
    assert_eq!(tokens[0].line, 2);
}

#[test]
fn trailing_comment_without_newline_ends_cleanly() {
    let (tokens, err) = scan("1 //");
    assert!(err.is_none());
    assert_eq!(kinds(&tokens), vec![TokenType::Number, TokenType::Eof]);
}

#[test]
fn slash_alone_is_the_division_operator() {
    let (tokens, err) = scan("1/2");
    assert!(err.is_none());
    assert_eq!(
        kinds(&tokens),
        vec![TokenType::Number, TokenType::Slash, TokenType::Number, TokenType::Eof]
    );
    assert_eq!(tokens[1].lexeme, "/");
}

#[test]
fn reserved_words_scan_to_their_dedicated_kinds() {
    for (word, kind) in [
        ("and", TokenType::And),
        ("class", TokenType::Class),
        ("else", TokenType::Else),
        ("false", TokenType::False),
        ("fun", TokenType::Fun),
        ("for", TokenType::For),
        ("if", TokenType::If),
        ("nil", TokenType::Nil),
        ("or", TokenType::Or),
        ("print", TokenType::Print),
        ("return", TokenType::Return),
        ("super", TokenType::Super),
        ("this", TokenType::This),
        ("true", TokenType::True),
        ("var", TokenType::Var),
        ("while", TokenType::While),
    ] {
        let (tokens, err) = scan(word);
        assert!(err.is_none());
        assert_eq!(kinds(&tokens), vec![kind, TokenType::Eof]);
        assert_eq!(tokens[0].lexeme, word);
    }
}

#[test]
fn other_alphabetic_lexemes_scan_to_identifier() {
    for word in ["foobar", "orchid", "classy", "x1", "Print"] {
        let (tokens, err) = scan(word);
        assert!(err.is_none());
        assert_eq!(kinds(&tokens), vec![TokenType::Identifier, TokenType::Eof]);
        assert_eq!(tokens[0].lexeme, word);
    }
}

#[test]
fn unicode_letters_start_identifiers() {
    let (tokens, err) = scan("héllo");
    assert!(err.is_none());
    assert_eq!(kinds(&tokens), vec![TokenType::Identifier, TokenType::Eof]);
    assert_eq!(tokens[0].lexeme, "héllo");
}

#[test]
fn underscore_is_not_alphabetic_and_halts_the_scan() {
    let (tokens, err) = scan("_x");
    assert_eq!(kinds(&tokens), vec![TokenType::Eof]);
    let e = err.expect("expected a lexical fault at the underscore");
    assert_eq!(e.ch, '_');
    assert_eq!(e.line, 1);
}

#[test]
fn unrecognized_character_halts_scanning_with_tokens_before_the_fault() {
    let (tokens, err) = scan("1 @ 2");
    assert_eq!(kinds(&tokens), vec![TokenType::Number, TokenType::Eof]);
    assert_eq!(tokens[0].lexeme, "1");
    let e = err.expect("expected a lexical fault at '@'");
    assert_eq!(e.ch, '@');
    assert_eq!(e.line, 1);
    assert_eq!(e.message(), "Unexpected character: @");
}

#[test]
fn fault_line_is_the_line_of_the_bad_character() {
    let (tokens, err) = scan("1\n2\n@");
    assert_eq!(kinds(&tokens), vec![TokenType::Number, TokenType::Number, TokenType::Eof]);
    let e = err.expect("expected a lexical fault at '@'");
    assert_eq!(e.line, 3);
}

#[test]
fn empty_source_scans_to_exactly_eof() {
    let (tokens, err) = scan("");
    assert!(err.is_none());
    assert_eq!(tokens.len(), 1);
    assert_eq!(tokens[0].token_type, TokenType::Eof);
    assert_eq!(tokens[0].lexeme, "");
    assert_eq!(tokens[0].line, 1);
}

#[test]
fn whitespace_only_source_scans_to_exactly_eof() {
    let (tokens, err) = scan(" \r\t \n\n ");
    assert!(err.is_none());
    assert_eq!(kinds(&tokens), vec![TokenType::Eof]);
    assert_eq!(tokens[0].line, 3);
}

#[test]
fn string_literal_lexeme_excludes_the_quotes() {
    let (tokens, err) = scan("\"hi there\"");
    assert!(err.is_none());
    assert_eq!(kinds(&tokens), vec![TokenType::String, TokenType::Eof]);
    assert_eq!(tokens[0].lexeme, "hi there");
    assert_eq!(tokens[0].literal, None);
}

#[test]
fn string_literal_counts_embedded_newlines() {
    let (tokens, err) = scan("\"a\nb\" 1");
    assert!(err.is_none());
    assert_eq!(kinds(&tokens), vec![TokenType::String, TokenType::Number, TokenType::Eof]);
    assert_eq!(tokens[0].lexeme, "a\nb");
    assert_eq!(tokens[0].line, 2);
    assert_eq!(tokens[1].line, 2);
}

#[test]
fn unterminated_string_closes_on_end_of_input() {
    let (tokens, err) = scan("\"abc");
    assert!(err.is_none());
    assert_eq!(kinds(&tokens), vec![TokenType::String, TokenType::Eof]);
    assert_eq!(tokens[0].lexeme, "abc");
}

#[test]
fn number_is_a_maximal_digit_run() {
    let (tokens, err) = scan("123 45");
    assert!(err.is_none());
    assert_eq!(kinds(&tokens), vec![TokenType::Number, TokenType::Number, TokenType::Eof]);
    assert_eq!(tokens[0].lexeme, "123");
    assert_eq!(tokens[1].lexeme, "45");
}

#[test]
fn every_scan_ends_with_exactly_one_eof() {
    for src in ["", "1 + 2", "@", "\"s\"", "// c", "a b c"] {
        let (tokens, _) = scan(src);
        let eofs = tokens
            .iter()
            .filter(|t| t.token_type == TokenType::Eof)
            .count();
        assert_eq!(eofs, 1);
        assert_eq!(tokens.last().unwrap().token_type, TokenType::Eof);
        assert_eq!(tokens.last().unwrap().lexeme, "");
    }
}

#[test]
fn scan_token_skips_blanks_and_reports_where_scanning_resumes() {
    let s = Scanner::new("  +\n1".to_string());
    match s.scan_token(0, 1) {
        Scanned::Token { token, next, line } => {
            assert_eq!(token.token_type, TokenType::Plus);
            assert_eq!(token.lexeme, "+");
            assert_eq!(next, 3);
            assert_eq!(line, 1);
        }
        _ => panic!("expected a token"),
    }
    match s.scan_token(3, 1) {
        Scanned::Token { token, next, line } => {
            assert_eq!(token.token_type, TokenType::Number);
            assert_eq!(token.line, 2);
            assert_eq!(next, 5);
            assert_eq!(line, 2);
        }
        _ => panic!("expected a token"),
    }
    match s.scan_token(5, 2) {
        Scanned::End { line } => assert_eq!(line, 2),
        _ => panic!("expected the end of the input"),
    }
}
