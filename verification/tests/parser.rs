use rlox::ast::ASTree;
use rlox::grammar::ParseErrorKind;
use rlox::parser::parse;
use rlox::token::{Token, TokenType};
use rlox::tokenizer::tokenize;

fn tokens_of(src: &str) -> Vec<Token> {
    let (tokens, has_error) = tokenize(src);
    assert!(!has_error);
    tokens
}

/// A one-token expression, a number with the given literal, followed by `EOF`.
fn number_tokens(literal: &str) -> Vec<Token> {
    vec![
        Token { token_type: TokenType::Number, lexeme: literal.to_string(), literal: literal.to_string(), line: 1, col: 1 },
        Token { token_type: TokenType::Eof, lexeme: String::new(), literal: "null".to_string(), line: 1, col: 1 + literal.len() },
    ]
}

fn printed(src: &str) -> String {
    parse(&tokens_of(src)).unwrap().debug_text()
}

fn error_of(src: &str) -> String {
    match parse(&tokens_of(src)) {
        Ok(_) => panic!("expected a syntax error"),
        Err(e) => e.message(),
    }
}

#[test]
fn bare_expression_parses_as_expression() {
    let ast = parse(&tokens_of("1 + 2 * 3")).unwrap();
    assert!(matches!(ast, ASTree::Expr(_)));
    assert_eq!(ast.debug_text(), "(+ 1.0 (* 2.0 3.0))");
}

#[test]
fn precedence_and_grouping() {
    assert_eq!(printed("(1 + 2) * -3"), "(* (group (+ 1.0 2.0)) (- 3.0))");
    assert_eq!(printed("1 < 2 == !false"), "(== (< 1.0 2.0) (! false))");
    assert_eq!(printed("a or b and c"), "(or a (and b c))");
    assert_eq!(printed("10 - 4 - 3"), "(- (- 10.0 4.0) 3.0)");
}

#[test]
fn literals_print_as_written() {
    assert_eq!(printed("\"hi\""), "hi");
    assert_eq!(printed("nil"), "nil");
    assert_eq!(printed("2.5"), "2.5");
}

#[test]
fn calls_and_assignment() {
    assert_eq!(printed("f(1, g(2))"), "(f 1.0 (g 2.0))");
    assert_eq!(printed("f()()"), "((f))");
    assert_eq!(printed("a = b = 3"), "(assign! a (assign! b 3.0))");
}

#[test]
fn program_with_declarations() {
    assert_eq!(printed("var a = 1;\nprint a;"), "(prog\n  (dassign! a 1.0)\n  (print a)\n)\n");
    assert_eq!(printed("var b;"), "(prog\n  (decl! b)\n)\n");
}

#[test]
fn blocks_and_if_statements_are_indented() {
    assert_eq!(
        printed("if (x) { print 1; } else print 2;"),
        "(prog\n  (if x\n    (block\n      (print 1.0)\n    )\n    (print 2.0)\n  )\n)\n"
    );
    assert_eq!(printed("{}"), "(prog\n  (block)\n)\n");
}

#[test]
fn function_declaration() {
    assert_eq!(
        printed("fun add(a, b) { return a + b; }"),
        "(prog\n  (fn! add (a b)\n    (block\n      (return (+ a b))\n    )\n  )\n)\n"
    );
}

#[test]
fn while_body_is_printed_on_its_own_indented_line() {
    assert_eq!(printed("while (x) x = x - 1;"), "(prog\n  (while x\n    (assign! x (- x 1.0))\n  )\n)\n");
    let ast = parse(&tokens_of("while (true) print 1;")).unwrap();
    assert_eq!(ast.debug_text(), "(prog\n  (while true\n    (print 1.0)\n  )\n)\n");
}

#[test]
fn for_loop_is_desugared_into_while() {
    let text = printed("for (var i = 0; i < 2; i = i + 1) print i;");
    assert!(text.starts_with("(prog\n  (block\n    (dassign! i 0.0)\n    (while (< i 2.0)\n"));
}

#[test]
fn missing_closing_paren() {
    assert_eq!(error_of("(1 + 2;"), "[line 1:7] Syntax error: expected ')' after expression.");
}

#[test]
fn unexpected_token_in_expression() {
    assert_eq!(error_of("1 +"), "[line 1:3] Syntax error: unexpected token ''.");
}

#[test]
fn invalid_assignment_target() {
    let tokens = tokens_of("1 = 2;");
    let e = match parse(&tokens) {
        Ok(_) => panic!("expected a syntax error"),
        Err(e) => e,
    };
    assert_eq!(e.kind, ParseErrorKind::InvalidAssignmentTarget);
    assert_eq!(e.message(), "[line 1:3] Invalid assignment target.");
}

#[test]
fn unmatched_brace() {
    assert_eq!(error_of("{ print 1;"), "[line 1:1] Syntax error: unmatched '{'.");
}

#[test]
fn var_declaration_needs_a_name() {
    assert_eq!(error_of("var 1;"), "[line 1:5] Syntax error: expected variable name after 'var', but found '1'.");
}

#[test]
fn declaration_as_if_body_is_not_a_statement() {
    assert_eq!(error_of("if (x) var y = 1;"), "[line 1:8] Syntax error: unexpected token 'var'.");
}

#[test]
fn expression_without_semicolon_in_block() {
    assert_eq!(error_of("{ 1 }"), "[line 1:5] Syntax error: expected ';' after expression, but found '}'.");
}

#[test]
fn print_needs_a_semicolon() {
    assert_eq!(
        error_of("print 1"),
        "[line 1:1] Syntax error: expected expression statement after 'print'. Missing semicolon?"
    );
}

#[test]
fn return_needs_a_semicolon() {
    assert_eq!(error_of("fun f() { return 1 }"), "[line 1:20] Syntax error: expected ';' after return value.");
}

#[test]
fn if_needs_a_parenthesis() {
    assert_eq!(error_of("if x"), "[line 1:4] Syntax error: expected '(' after 'if', but found 'x'.");
}

#[test]
fn while_condition_needs_closing_parenthesis() {
    assert_eq!(
        error_of("while (x print 1;"),
        "[line 1:10] Syntax error: expected ')' after while condition, but found 'print'."
    );
}

#[test]
fn for_initializer_must_be_a_statement() {
    assert_eq!(
        error_of("for (a b; ;) x;"),
        "[line 1:6] Syntax error: expected variable declaration or expression statement in for loop initializer."
    );
}

#[test]
fn for_condition_needs_semicolon() {
    assert_eq!(
        error_of("for (;x) y;"),
        "[line 1:8] Syntax error: expected ';' after for loop condition, but found ')'."
    );
}

#[test]
fn for_increment_needs_parenthesis() {
    assert_eq!(
        error_of("for (;;x y;"),
        "[line 1:10] Syntax error: expected ')' after for loop increment, but found 'y'."
    );
}

#[test]
fn for_body_must_be_a_statement() {
    assert_eq!(error_of("for (;;) x"), "[line 1:10] Syntax error: expected statement as body of 'for' loop.");
}

#[test]
fn var_declaration_needs_semicolon() {
    assert_eq!(
        error_of("var a = 1"),
        "[line 1:9] Syntax error: expected ';' after variable declaration, but found ''."
    );
}

#[test]
fn function_needs_a_name() {
    assert_eq!(error_of("fun (a) {}"), "[line 1:5] Syntax error: expected function name after 'fun', but found '('.");
}

#[test]
fn function_name_needs_parenthesis() {
    assert_eq!(error_of("fun f a {}"), "[line 1:7] Syntax error: expected '(' after function name, but found 'a'.");
}

#[test]
fn parameters_are_separated_by_commas() {
    assert_eq!(
        error_of("fun f(a b) {}"),
        "[line 1:9] Syntax error: expected ',' or ')' after parameter in function declaration, but found 'b'."
    );
}

#[test]
fn parameters_are_identifiers() {
    assert_eq!(
        error_of("fun f(1) {}"),
        "[line 1:7] Syntax error: expected parameter name or ')' in function declaration, but found '1'."
    );
}

#[test]
fn function_body_token_is_taken_as_its_opening_brace() {
    assert_eq!(error_of("fun f() print 1;"), "[line 1:9] Syntax error: unmatched '{'.");
}

#[test]
fn bare_expression_after_declarations() {
    assert_eq!(error_of("var a; a"), "[line 1:8] Syntax error: expected declaration at top level.");
}

#[test]
fn leftover_tokens_after_expression() {
    assert_eq!(error_of("1 2"), "[line 1:3] Syntax error: unexpected token '2'.");
}

#[test]
fn call_needs_closing_parenthesis() {
    assert_eq!(error_of("f(1;"), "[line 1:4] Syntax error: expected ')' after function call arguments.");
}

#[test]
fn unexpected_lexeme_in_block() {
    assert_eq!(error_of("{ 1 2 }"), "[line 1:5] Syntax error: unexpected '2'.");
}

#[test]
fn expression_without_semicolon_before_eof_in_block() {
    assert_eq!(error_of("{ 1"), "[line 1:3] Syntax error: expected ';' after expression, but found EOF.");
}

#[test]
fn invalid_number_literal() {
    let mut tokens = tokens_of("1");
    tokens[0].literal = "1.2.3".to_string();
    let e = match parse(&tokens) {
        Ok(_) => panic!("expected a syntax error"),
        Err(e) => e,
    };
    assert_eq!(e.message(), "[line 1:1] Syntax error: invalid number literal '1.2.3'.");
}

#[test]
fn empty_program_parses() {
    assert_eq!(printed(""), "(prog\n)\n");
}

#[test]
fn unexpected_end_of_input_message() {
    let e = rlox::grammar::ParseError {
        kind: ParseErrorKind::UnexpectedEnd,
        line: 0,
        col: 0,
        text: String::new(),
    };
    assert_eq!(e.message(), "Unexpected end of input.");
}

#[test]
fn tokenizer_output_is_ready_for_parsing() {
    let (tokens, _) = tokenize("var s = \"multi\nline\"; fun f(a, b) { return a + b; }\nprint f(1, 2);");
    assert!(rlox::parser::parse_ready(&tokens));
    let mut no_eof = tokens.clone();
    no_eof.pop();
    assert!(rlox::parser::parse_ready(&no_eof));
}

#[test]
fn tokens_without_eof_are_parsed_or_reported() {
    let mut expr = tokens_of("1 + 2");
    expr.pop();
    assert_eq!(parse(&expr).unwrap().debug_text(), "(+ 1.0 2.0)");
    let mut decl = tokens_of("var a = 1;");
    decl.pop();
    match parse(&decl) {
        Ok(_) => panic!("expected a syntax error"),
        Err(e) => assert_eq!(e.message(), "Unexpected end of input."),
    }
}

#[test]
fn parsed_numbers_are_kept_in_their_printed_form() {
    let shown = |lit: &str| parse(&number_tokens(lit)).unwrap().debug_text();
    assert_eq!(shown("3.50"), "3.5");
    assert_eq!(shown("12"), "12.0");
    assert_eq!(shown("007.250"), "7.25");
    assert_eq!(shown(".5"), "0.5");
    assert_eq!(shown("+7"), "7.0");
    assert_eq!(shown("-0"), "-0.0");
    assert_eq!(shown("1e5"), "1e5");
}

#[test]
fn invalid_number_literal_is_reported() {
    match parse(&number_tokens("1.2.3")) {
        Ok(_) => panic!("expected a syntax error"),
        Err(e) => assert_eq!(e.message(), "[line 1:1] Syntax error: invalid number literal '1.2.3'."),
    }
}

#[test]
fn for_body_gets_a_block_of_its_own() {
    assert_eq!(
        printed("for (var i = 0; i < 3; i = i + 1) print i;"),
        "(prog\n  (block\n    (dassign! i 0.0)\n    (while (< i 3.0)\n      (block\n        (block\n          (print i)\n        )\n        (assign! i (+ i 1.0))\n      )\n    )\n  )\n)\n"
    );
    assert_eq!(
        printed("for (;;) print 1;"),
        "(prog\n  (block\n    (while true\n      (block\n        (block\n          (print 1.0)\n        )\n      )\n    )\n  )\n)\n"
    );
}

#[test]
fn trailing_comma_in_parameters_is_rejected() {
    assert_eq!(
        error_of("fun f(a,) {}"),
        "[line 1:9] Syntax error: expected parameter name after ',' in function declaration, but found ')'."
    );
    assert!(parse(&tokens_of("fun f(a, b) {}")).is_ok());
}

#[test]
fn call_tree_with_formatted_numbers() {
    assert_eq!(printed("f(1, 2)(3)"), "((f 1.0 2.0) 3.0)");
}

#[test]
fn a_number_shows_the_same_after_tokenizing_and_parsing() {
    for src in ["12", "3.50", "007.250", "0.0", "10.01"] {
        let tokens = tokens_of(src);
        let literal = tokens[0].literal.clone();
        assert_eq!(parse(&tokens).unwrap().debug_text(), literal);
    }
}
