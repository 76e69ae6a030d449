use rlox::token::TokenType;
use rlox::tokenizer::{tokenize, tokenize_with_errors, LexErrorKind};

#[test]
fn tokenizes_a_variable_declaration() {
    let (tokens, has_error) = tokenize("var x = 12.5;");
    assert!(!has_error);
    let kinds: Vec<&str> = tokens.iter().map(|t| t.token_type.name()).collect();
    assert_eq!(kinds, vec!["VAR", "IDENTIFIER", "EQUAL", "NUMBER", "SEMICOLON", "EOF"]);
    assert_eq!(tokens[1].lexeme, "x");
    assert_eq!(tokens[3].lexeme, "12.5");
    assert_eq!(tokens[3].literal, "12.5");
    assert_eq!(tokens[0].literal, "null");
    assert_eq!(tokens[5].lexeme, "");
}

#[test]
fn tokenizes_two_character_operators() {
    let (tokens, has_error) = tokenize("!= == <= >= ! = < >");
    assert!(!has_error);
    let kinds: Vec<TokenType> = tokens.iter().map(|t| t.token_type).collect();
    assert_eq!(
        kinds,
        vec![
            TokenType::BangEqual,
            TokenType::EqualEqual,
            TokenType::LessEqual,
            TokenType::GreaterEqual,
            TokenType::Bang,
            TokenType::Equal,
            TokenType::Less,
            TokenType::Greater,
            TokenType::Eof,
        ]
    );
}

#[test]
fn string_literal_drops_quotes() {
    let (tokens, has_error) = tokenize("\"hello world\"");
    assert!(!has_error);
    assert_eq!(tokens[0].token_type, TokenType::String);
    assert_eq!(tokens[0].lexeme, "\"hello world\"");
    assert_eq!(tokens[0].literal, "hello world");
}

#[test]
fn comments_are_skipped_and_lines_counted() {
    let (tokens, has_error) = tokenize("// a comment\nprint 1;\n");
    assert!(!has_error);
    assert_eq!(tokens[0].token_type, TokenType::Print);
    assert_eq!(tokens[0].line, 2);
    assert_eq!(tokens.last().unwrap().token_type, TokenType::Eof);
}

#[test]
fn keywords_and_identifiers() {
    let (tokens, _) = tokenize("and class else false for fun if nil or print return super this true var while orchid");
    let kinds: Vec<&str> = tokens.iter().map(|t| t.token_type.name()).collect();
    assert_eq!(
        kinds,
        vec![
            "AND", "CLASS", "ELSE", "FALSE", "FOR", "FUN", "IF", "NIL", "OR", "PRINT", "RETURN", "SUPER", "THIS",
            "TRUE", "VAR", "WHILE", "IDENTIFIER", "EOF"
        ]
    );
}

#[test]
fn unexpected_character_is_reported_and_skipped() {
    let (tokens, errors) = tokenize_with_errors("1 @ 2");
    assert_eq!(errors.len(), 1);
    assert_eq!(errors[0].kind, LexErrorKind::UnexpectedCharacter('@'));
    assert_eq!(errors[0].message(), "[line 1] Error: Unexpected character: @");
    let kinds: Vec<&str> = tokens.iter().map(|t| t.token_type.name()).collect();
    assert_eq!(kinds, vec!["NUMBER", "NUMBER", "EOF"]);
    let (_, has_error) = tokenize("1 @ 2");
    assert!(has_error);
}

#[test]
fn unterminated_string_is_reported() {
    let (_, errors) = tokenize_with_errors("print \"abc\n");
    assert_eq!(errors.len(), 1);
    assert_eq!(errors[0].kind, LexErrorKind::UnterminatedString);
    assert_eq!(errors[0].message(), "[line 2] Error: Unterminated string.");
}

#[test]
fn empty_input_gives_only_eof() {
    let (tokens, has_error) = tokenize("");
    assert!(!has_error);
    assert_eq!(tokens.len(), 1);
    assert_eq!(tokens[0].token_type, TokenType::Eof);
}

#[test]
fn token_debug_text() {
    let (tokens, _) = tokenize("\n  foo");
    assert_eq!(tokens[0].debug_text(), "(IDENTIFIER, foo, null, line 2, pos 3)");
}

#[test]
fn only_the_last_token_is_eof_and_lines_never_decrease() {
    let (tokens, _) = tokenize("var a;\n\n// note\nprint a;\n\"x\ny\" 1");
    assert_eq!(tokens.last().unwrap().token_type, TokenType::Eof);
    assert!(tokens[..tokens.len() - 1].iter().all(|t| t.token_type != TokenType::Eof));
    assert!(tokens.windows(2).all(|w| w[0].line <= w[1].line));
    assert!(tokens.iter().all(|t| t.line >= 1));
}

#[test]
fn column_restarts_after_a_comment() {
    let (tokens, _) = tokenize("// c\nx");
    assert_eq!(tokens[0].lexeme, "x");
    assert_eq!(tokens[0].line, 2);
    assert_eq!(tokens[0].col, 1);
}

#[test]
fn number_literal_is_the_displayed_value() {
    let (tokens, _) = tokenize("12 3.50");
    assert_eq!(tokens[0].literal, "12.0");
    assert_eq!(tokens[1].literal, "3.5");
    assert_eq!(tokens[0].lexeme, "12");
    assert_eq!(tokens[1].lexeme, "3.50");
    let eof = tokens.last().unwrap();
    assert_eq!((eof.lexeme.as_str(), eof.literal.as_str()), ("", "null"));
}

#[test]
fn whole_number_in_a_declaration_gets_one_decimal() {
    let (tokens, has_error) = tokenize("var x = 12;");
    assert!(!has_error);
    assert_eq!(tokens.len(), 6);
    let seen: Vec<(&str, &str, &str, usize, usize)> = tokens[..5]
        .iter()
        .map(|t| (t.token_type.name(), t.lexeme.as_str(), t.literal.as_str(), t.line, t.col))
        .collect();
    assert_eq!(
        seen,
        vec![
            ("VAR", "var", "null", 1, 1),
            ("IDENTIFIER", "x", "null", 1, 5),
            ("EQUAL", "=", "null", 1, 7),
            ("NUMBER", "12", "12.0", 1, 9),
            ("SEMICOLON", ";", "null", 1, 11),
        ]
    );
    assert_eq!(tokens[5].token_type, TokenType::Eof);
}

#[test]
fn string_then_number_with_trailing_zero() {
    let (tokens, has_error) = tokenize("\"hi\" 3.50");
    assert!(!has_error);
    assert_eq!(tokens.len(), 3);
    assert_eq!((tokens[0].lexeme.as_str(), tokens[0].literal.as_str(), tokens[0].col), ("\"hi\"", "hi", 1));
    assert_eq!((tokens[1].lexeme.as_str(), tokens[1].literal.as_str(), tokens[1].col), ("3.50", "3.5", 6));
    assert_eq!(tokens[2].token_type, TokenType::Eof);
}

#[test]
fn number_literal_forms() {
    let literals = |src: &str| -> Vec<String> { tokenize(src).0.iter().filter(|t| t.token_type == TokenType::Number).map(|t| t.literal.clone()).collect() };
    assert_eq!(literals("007. 0.50 100 0 0.0 10.01"), vec!["7.0", "0.5", "100.0", "0.0", "0.0", "10.01"]);
}

#[test]
fn errors_come_exactly_from_stray_characters_or_an_open_string() {
    assert!(tokenize("a @ b").1);
    assert!(!tokenize("\"@#\" // @#$\nx").1);
    assert!(tokenize("/@").1);
    assert!(tokenize("\"abc").1);
    assert!(!tokenize("x = (1 + 2.5) * 3; // done").1);
}
