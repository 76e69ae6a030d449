use rlox::ast::ASTree;
use rlox::parser::parse;
use rlox::resolver::{resolve, FunctionType, ResolveError, Resolver};
use std::collections::HashMap;
use rlox::span::Location;
use rlox::token::{Token, TokenType};
use rlox::tokenizer::tokenize;

fn tokens_of(src: &str) -> Vec<Token> {
    let (mut tokens, has_error) = tokenize(src);
    assert!(!has_error);
    for t in tokens.iter_mut() {
        if t.token_type == TokenType::Number {
            t.literal = format!("{}.0", t.lexeme);
        }
    }
    tokens
}

/// Resolves a program; the depths are listed by identifier ID (token index).
fn resolved(src: &str) -> Result<Vec<(usize, usize)>, ResolveError> {
    let tokens = tokens_of(src);
    let program = match parse(&tokens).unwrap() {
        ASTree::Program(p) => p,
        _ => panic!("expected a program"),
    };
    resolve(&program).map(|m| {
        let mut v: Vec<(usize, usize)> = m.into_iter().collect();
        v.sort();
        v
    })
}

#[test]
fn globals_get_the_number_of_open_scopes() {
    // tokens: var(0) a(1) =(2) 1(3) ;(4) print(5) a(6) ;(7)
    assert_eq!(resolved("var a = 1; print a;").unwrap(), vec![(6, 0)]);
    // tokens: {(0) print(1) a(2) ;(3) }(4)
    assert_eq!(resolved("{ print a; }").unwrap(), vec![(2, 1)]);
}

#[test]
fn locals_get_their_lexical_depth() {
    // { var a = 1; { print a; } }
    // {(0) var(1) a(2) =(3) 1(4) ;(5) {(6) print(7) a(8) ;(9) }(10) }(11)
    assert_eq!(resolved("{ var a = 1; { print a; } }").unwrap(), vec![(8, 1)]);
}

#[test]
fn parameters_are_in_the_function_scope() {
    // fun f(x) { return x; }
    // fun(0) f(1) ((2) x(3) )(4) {(5) return(6) x(7) ;(8) }(9)
    assert_eq!(resolved("fun f(x) { return x; }").unwrap(), vec![(7, 0)]);
}

#[test]
fn redeclaring_a_local_is_an_error() {
    let e = resolved("{ var a = 1; var a = 2; }").unwrap_err();
    assert_eq!(
        e,
        ResolveError::AlreadyDeclared { name: "a".to_string(), loc: Some(Location { line: 1, col: 18 }) }
    );
    assert_eq!(e.message(), "[line 1:18] Syntax error: variable 'a' already declared in this scope.");
}

#[test]
fn redeclaring_a_global_is_allowed() {
    assert!(resolved("var a = 1; var a = 2;").is_ok());
}

#[test]
fn redeclaring_a_parameter_in_the_body_is_an_error() {
    let e = resolved("fun f(a) { var a = 1; }").unwrap_err();
    assert_eq!(e.message(), "[line 1:16] Syntax error: variable 'a' already declared in this scope.");
}

#[test]
fn reading_a_local_in_its_own_initializer_is_an_error() {
    let e = resolved("{ var a = a; }").unwrap_err();
    assert_eq!(e.message(), "[line 1:11] Syntax error: can't read local variable 'a' in its own initializer.");
}

#[test]
fn return_at_top_level_is_an_error() {
    let e = resolved("return 1;").unwrap_err();
    assert_eq!(e, ResolveError::TopLevelReturn { line: 1 });
    assert_eq!(e.message(), "[line 1] Error at 'return': Can't return from top-level code.");
}

#[test]
fn duplicate_function_name_in_block_reports_without_location() {
    let e = resolved("{ fun f() {} fun f() {} }").unwrap_err();
    assert_eq!(e.message(), "Syntax error: variable 'f' already declared in this scope.");
}

#[test]
fn not_declared_message() {
    let e = ResolveError::NotDeclared { name: "q".to_string() };
    assert_eq!(e.message(), "Syntax error: variable 'q' not declared in this scope.");
}

fn declarations_of(src: &str) -> Vec<rlox::ast::Declaration> {
    let tokens = tokens_of(src);
    match parse(&tokens).unwrap() {
        ASTree::Program(p) => p.declarations,
        _ => panic!("expected a program"),
    }
}

#[test]
fn resolving_a_block_closes_its_scope() {
    let decls = declarations_of("{ var a = 1; }");
    let mut r = Resolver::new(vec![Vec::new()], HashMap::new(), FunctionType::NoFunction);
    assert!(r.resolve_declaration(&decls[0]).is_ok());
    // `a` was declared in the block's scope only, so the outer scope can declare it.
    assert!(r.declare("a", None).is_ok());
}

#[test]
fn resolving_a_function_restores_the_function_context() {
    let decls = declarations_of("fun f() { return 1; } return 2;");
    let mut r = Resolver::new(Vec::new(), HashMap::new(), FunctionType::NoFunction);
    assert!(r.resolve_declaration(&decls[0]).is_ok());
    assert_eq!(r.resolve_declaration(&decls[1]), Err(ResolveError::TopLevelReturn { line: 1 }));
}
