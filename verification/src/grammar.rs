//! The pieces shared by the rules of the Lox grammar: syntax errors and their
//! messages, positions and spans of tokens, and the trees that rules build
//! from their parts. The rules themselves, as spec functions over token
//! sequences with the recursive-descent functions proved to compute them, are
//! in `expr_parser` (expressions) and `parser` (statements and programs):
//!
//! ```text
//! program     → declaration* EOF ;
//! declaration → funDecl | varDecl | statement ;
//! statement   → exprStmt | forStmt | ifStmt | printStmt | returnStmt | whileStmt | block ;
//! expression  → assignment ;
//! assignment  → IDENTIFIER "=" assignment | logic_or ;
//! logic_or    → logic_and ( "or" logic_and )* ;
//! logic_and   → equality ( "and" equality )* ;
//! equality    → comparison ( ( "!=" | "==" ) comparison )* ;
//! comparison  → term ( ( ">" | ">=" | "<" | "<=" ) term )* ;
//! term        → factor ( ( "-" | "+" ) factor )* ;
//! factor      → unary ( ( "/" | "*" ) unary )* ;
//! unary       → ( "!" | "-" ) unary | call ;
//! call        → primary ( "(" arguments? ")" )* ;
//! primary     → NUMBER | STRING | "true" | "false" | "nil" | "(" expression ")" | IDENTIFIER ;
//! ```

use vstd::prelude::*;
use crate::span::{Location, Span};
use crate::token::{TokenType, SpecToken};
use crate::text::{decimal, push_str_chars, push_decimal, chars_to_string};
use crate::ast::{
    SLiteral, SOperator, SPrimaryEnum, SPrimary, SExpressionEnum, SExpression, SStatement, SDeclaration,
};

verus! {

/// The construct whose body held something other than a statement.
#[derive(Clone, Copy, PartialEq, Eq, Debug, Structural)]
pub enum Construct {
    If,
    Else,
    While,
    For,
}

/// The kinds of syntax errors the parser reports.
#[derive(Clone, Copy, PartialEq, Eq, Debug, Structural)]
pub enum ParseErrorKind {
    UnexpectedEnd,
    InvalidNumber,
    ExpectedRParenAtEof,
    ExpectedRParen,
    UnexpectedToken,
    ExpectedRParenAfterArguments,
    InvalidAssignmentTarget,
    ExpectedExprStmtAfterPrint,
    ExpectedSemicolonAfterReturn,
    UnmatchedBrace,
    ExpectedSemicolonFoundBrace,
    ExpectedSemicolonFoundEof,
    UnexpectedLexeme,
    ExpectedLParenAfter(Construct),
    ExpectedRParenAfterCondition(Construct),
    VarDeclInBody(Construct),
    FunDeclInBody(Construct),
    ExpectedStatementInBody(Construct),
    BadForInitializer,
    ExpectedSemicolonAfterForCondition,
    ExpectedRParenAfterForIncrement,
    ExpectedVariableNameAtEof,
    ExpectedVariableName,
    ExpectedSemicolonAfterVarAtEof,
    ExpectedSemicolonAfterVar,
    ExpectedFunctionNameAtEof,
    ExpectedFunctionName,
    ExpectedLParenAfterFunctionName,
    ExpectedCommaOrRParenAfterParameter,
    UnexpectedEofInParameters,
    ExpectedParameterName,
    ExpectedParameterAfterComma,
    NonBlockFunctionBody,
    FunctionBodyIsVarDecl,
    FunctionBodyIsFunDecl,
    FunctionBodyIsExpression,
    ExpectedDeclarationAtTopLevel,
    /// Not a program: the input is to be read as a bare expression instead.
    NotAProgram,
}

/// A syntax error: its kind, the line and column it refers to, and the token text it quotes.
#[derive(Clone, Debug)]
pub struct ParseError {
    pub kind: ParseErrorKind,
    pub line: usize,
    pub col: usize,
    pub text: String,
}

pub struct SParseError {
    pub kind: ParseErrorKind,
    pub line: usize,
    pub col: usize,
    pub text: Seq<char>,
}

impl View for ParseError {
    type V = SParseError;

    open spec fn view(&self) -> SParseError {
        SParseError { kind: self.kind, line: self.line, col: self.col, text: self.text@ }
    }
}

// ---------------------------------------------------------------------------
// Helpers
// ---------------------------------------------------------------------------

/// The number of bytes of `s` in UTF-8 (what `str::len` returns).
pub open spec fn width(s: Seq<char>) -> usize {
    vstd::utf8::encode_utf8(s).len() as usize
}

/// Every token's end column fits in a machine word.
pub open spec fn tokens_fit(toks: Seq<SpecToken>) -> bool {
    forall|i: int| 0 <= i < toks.len() ==> (#[trigger] toks[i]).col + width(toks[i].lexeme) <= usize::MAX
}

/// The token list ends with an `EOF` token, as the tokenizer's output does.
pub open spec fn ends_with_eof(toks: Seq<SpecToken>) -> bool {
    toks.len() > 0 && toks.last().token_type == TokenType::Eof
}

pub open spec fn loc(line: usize, col: usize) -> Location {
    Location { line, col }
}

pub open spec fn tok_start(t: SpecToken) -> Location {
    loc(t.line, t.col)
}

pub open spec fn tok_end(t: SpecToken) -> Location {
    loc(t.line, (t.col + width(t.lexeme)) as usize)
}

pub open spec fn tok_span(t: SpecToken) -> Span {
    Span { start: tok_start(t), end: tok_end(t) }
}

pub open spec fn is_at(toks: Seq<SpecToken>, pos: int, t: TokenType) -> bool {
    0 <= pos < toks.len() && toks[pos].token_type == t
}

pub open spec fn end_err() -> SParseError {
    SParseError { kind: ParseErrorKind::UnexpectedEnd, line: 0, col: 0, text: seq![] }
}

pub open spec fn err_at(kind: ParseErrorKind, line: usize, col: usize) -> SParseError {
    SParseError { kind, line, col, text: seq![] }
}

pub open spec fn err_tok(kind: ParseErrorKind, t: SpecToken) -> SParseError {
    err_at(kind, t.line, t.col)
}

pub open spec fn err_lexeme(kind: ParseErrorKind, t: SpecToken) -> SParseError {
    SParseError { kind, line: t.line, col: t.col, text: t.lexeme }
}

/// The token before `pos` (the last one consumed).
pub open spec fn prev_tok(toks: Seq<SpecToken>, pos: int) -> SpecToken {
    toks[if pos >= 1 { pos - 1 } else { 0 }]
}

/// An expression made of a primary expression.
pub open spec fn prim_expr(p: SPrimary) -> SExpression {
    SExpression { expr: SExpressionEnum::Primary(p), span: p.span }
}

/// What a statement-level rule yields: a declaration, or a bare expression
/// (an expression not followed by `;`).
pub enum SParsed {
    Decl(SDeclaration),
    Expr(SExpression),
}

/// Binary precedence levels: 1 factor, 2 term, 3 comparison, 4 equality, 5 logic_and, 6 logic_or.
pub open spec fn binary_op_matches(level: int, t: TokenType) -> bool {
    if level == 1 {
        t == TokenType::Star || t == TokenType::Slash
    } else if level == 2 {
        t == TokenType::Plus || t == TokenType::Minus
    } else if level == 3 {
        t == TokenType::Greater || t == TokenType::GreaterEqual || t == TokenType::Less || t == TokenType::LessEqual
    } else if level == 4 {
        t == TokenType::EqualEqual || t == TokenType::BangEqual
    } else if level == 5 {
        t == TokenType::And
    } else {
        t == TokenType::Or
    }
}

/// The expression node built at a binary precedence level.
pub open spec fn binary_node(level: int, op: SOperator, l: SExpression, r: SExpression) -> SExpressionEnum {
    if level == 1 {
        SExpressionEnum::Factor(op, Box::new(l), Box::new(r))
    } else if level == 2 {
        SExpressionEnum::Term(op, Box::new(l), Box::new(r))
    } else if level == 3 {
        SExpressionEnum::Comparison(op, Box::new(l), Box::new(r))
    } else if level == 4 {
        SExpressionEnum::Equality(op, Box::new(l), Box::new(r))
    } else {
        SExpressionEnum::Logical(op, Box::new(l), Box::new(r))
    }
}

/// The statement that forms the body of an `if`, `else`, `while` or `for`.
pub open spec fn body_statement(toks: Seq<SpecToken>, r: SParsed, p: int, c: Construct) -> Result<SStatement, SParseError> {
    match r {
        SParsed::Decl(SDeclaration::Statement(s, _)) => Ok(s),
        SParsed::Decl(SDeclaration::VarDecl(_, _)) => Err(err_tok(ParseErrorKind::VarDeclInBody(c), prev_tok(toks, p))),
        SParsed::Decl(SDeclaration::FunDecl(_, _)) => Err(err_tok(ParseErrorKind::FunDeclInBody(c), prev_tok(toks, p))),
        SParsed::Expr(_) => Err(err_tok(ParseErrorKind::ExpectedStatementInBody(c), prev_tok(toks, p))),
    }
}

/// The span from the first token of a statement to the last token consumed (start of both).
pub open spec fn stmt_span(toks: Seq<SpecToken>, first: int, p: int) -> Span {
    Span { start: tok_start(toks[first]), end: tok_start(prev_tok(toks, p)) }
}

/// The `while` loop a `for` loop stands for, wrapped in a block with the initializer:
///
/// ```text
/// (block <initializer>? (while <condition or true> (block (block <body>) <increment>?)))
/// ```
/// The body keeps a scope of its own, nested in the loop body's block, which
/// also holds the increment when there is one.
pub open spec fn desugar_for(
    init: Option<SDeclaration>,
    cond: Option<SExpression>,
    inc: Option<SExpression>,
    body: SStatement,
    span: Span,
    depth: usize,
) -> SStatement {
    let inner = (depth + 1) as usize;
    let body_block = SStatement::Block(seq![SDeclaration::Statement(body, (depth + 2) as usize)]);
    let loop_body = match inc {
        Some(ie) => SStatement::Block(seq![
            SDeclaration::Statement(body_block, inner),
            SDeclaration::Statement(SStatement::ExprStmt(ie, ie.span), inner),
        ]),
        None => SStatement::Block(seq![SDeclaration::Statement(body_block, inner)]),
    };
    let c = match cond {
        Some(c) => c,
        None => SExpression {
            expr: SExpressionEnum::Primary(SPrimary { p: SPrimaryEnum::Literal(SLiteral::True), span }),
            span,
        },
    };
    let w = SStatement::WhileStmt(c, Box::new(loop_body), span, inner);
    match init {
        Some(d) => SStatement::Block(seq![d, SDeclaration::Statement(w, inner)]),
        None => SStatement::Block(seq![SDeclaration::Statement(w, inner)]),
    }
}

/// The tokens without a final `EOF` token.
pub open spec fn without_eof(toks: Seq<SpecToken>) -> Seq<SpecToken> {
    if toks.len() > 0 && toks.last().token_type == TokenType::Eof { toks.drop_last() } else { toks }
}

// ---------------------------------------------------------------------------
// Error messages
// ---------------------------------------------------------------------------

/// The text after the `[line L:C] ` prefix of a syntax error message; `text`
/// is the token text the error quotes.
pub open spec fn error_body(kind: ParseErrorKind, text: Seq<char>) -> Seq<char> {
    match kind {
        ParseErrorKind::InvalidNumber => "Syntax error: invalid number literal '"@ + text + "'."@,
        ParseErrorKind::ExpectedRParenAtEof => "Syntax error: expected ')' after expression, but found EOF."@,
        ParseErrorKind::ExpectedRParen => "Syntax error: expected ')' after expression."@,
        ParseErrorKind::UnexpectedToken => "Syntax error: unexpected token '"@ + text + "'."@,
        ParseErrorKind::ExpectedRParenAfterArguments => "Syntax error: expected ')' after function call arguments."@,
        ParseErrorKind::InvalidAssignmentTarget => "Invalid assignment target."@,
        ParseErrorKind::ExpectedExprStmtAfterPrint => "Syntax error: expected expression statement after 'print'. Missing semicolon?"@,
        ParseErrorKind::ExpectedSemicolonAfterReturn => "Syntax error: expected ';' after return value."@,
        ParseErrorKind::UnmatchedBrace => "Syntax error: unmatched '{'."@,
        ParseErrorKind::ExpectedSemicolonFoundBrace => "Syntax error: expected ';' after expression, but found '}'."@,
        ParseErrorKind::ExpectedSemicolonFoundEof => "Syntax error: expected ';' after expression, but found EOF."@,
        ParseErrorKind::UnexpectedLexeme => "Syntax error: unexpected '"@ + text + "'."@,
        ParseErrorKind::ExpectedLParenAfter(Construct::If) => "Syntax error: expected '(' after 'if', but found '"@ + text + "'."@,
        ParseErrorKind::ExpectedLParenAfter(Construct::Else) => "Syntax error: expected '(' after 'else', but found '"@ + text + "'."@,
        ParseErrorKind::ExpectedLParenAfter(Construct::While) => "Syntax error: expected '(' after 'while', but found '"@ + text + "'."@,
        ParseErrorKind::ExpectedLParenAfter(Construct::For) => "Syntax error: expected '(' after 'for', but found '"@ + text + "'."@,
        ParseErrorKind::ExpectedRParenAfterCondition(Construct::If) => "Syntax error: expected ')' after if condition, but found '"@ + text + "'."@,
        ParseErrorKind::ExpectedRParenAfterCondition(Construct::Else) => "Syntax error: expected ')' after else condition, but found '"@ + text + "'."@,
        ParseErrorKind::ExpectedRParenAfterCondition(Construct::While) => "Syntax error: expected ')' after while condition, but found '"@ + text + "'."@,
        ParseErrorKind::ExpectedRParenAfterCondition(Construct::For) => "Syntax error: expected ')' after for condition, but found '"@ + text + "'."@,
        ParseErrorKind::VarDeclInBody(Construct::If) => "Syntax error: variable declaration not allowed directly inside 'if' statement. Use a block to create an inner scope."@,
        ParseErrorKind::VarDeclInBody(Construct::Else) => "Syntax error: variable declaration not allowed directly inside 'else' statement. Use a block to create an inner scope."@,
        ParseErrorKind::VarDeclInBody(Construct::While) => "Syntax error: variable declaration not allowed directly inside 'while' statement. Use a block to create an inner scope."@,
        ParseErrorKind::VarDeclInBody(Construct::For) => "Syntax error: variable declaration not allowed directly inside 'for' statement body. Use a block to create an inner scope."@,
        ParseErrorKind::FunDeclInBody(Construct::If) => "Syntax error: function declaration not allowed directly inside 'if' statement. Use a block to create an inner scope."@,
        ParseErrorKind::FunDeclInBody(Construct::Else) => "Syntax error: function declaration not allowed directly inside 'else' statement. Use a block to create an inner scope."@,
        ParseErrorKind::FunDeclInBody(Construct::While) => "Syntax error: function declaration not allowed directly inside 'while' statement. Use a block to create an inner scope."@,
        ParseErrorKind::FunDeclInBody(Construct::For) => "Syntax error: function declaration not allowed directly inside 'for' statement body. Use a block to create an inner scope."@,
        ParseErrorKind::ExpectedStatementInBody(Construct::If) => "Syntax error: expected statement after if condition."@,
        ParseErrorKind::ExpectedStatementInBody(Construct::Else) => "Syntax error: expected statement after 'else'."@,
        ParseErrorKind::ExpectedStatementInBody(Construct::While) => "Syntax error: expected statement after while condition."@,
        ParseErrorKind::ExpectedStatementInBody(Construct::For) => "Syntax error: expected statement as body of 'for' loop."@,
        ParseErrorKind::BadForInitializer => "Syntax error: expected variable declaration or expression statement in for loop initializer."@,
        ParseErrorKind::ExpectedSemicolonAfterForCondition => "Syntax error: expected ';' after for loop condition, but found '"@ + text + "'."@,
        ParseErrorKind::ExpectedRParenAfterForIncrement => "Syntax error: expected ')' after for loop increment, but found '"@ + text + "'."@,
        ParseErrorKind::ExpectedVariableNameAtEof => "Syntax error: expected variable name after 'var'."@,
        ParseErrorKind::ExpectedVariableName => "Syntax error: expected variable name after 'var', but found '"@ + text + "'."@,
        ParseErrorKind::ExpectedSemicolonAfterVarAtEof => "Syntax error: expected ';' after variable declaration, but found EOF."@,
        ParseErrorKind::ExpectedSemicolonAfterVar => "Syntax error: expected ';' after variable declaration, but found '"@ + text + "'."@,
        ParseErrorKind::ExpectedFunctionNameAtEof => "Syntax error: expected function name after 'fun'."@,
        ParseErrorKind::ExpectedFunctionName => "Syntax error: expected function name after 'fun', but found '"@ + text + "'."@,
        ParseErrorKind::ExpectedLParenAfterFunctionName => "Syntax error: expected '(' after function name, but found '"@ + text + "'."@,
        ParseErrorKind::ExpectedCommaOrRParenAfterParameter => "Syntax error: expected ',' or ')' after parameter in function declaration, but found '"@ + text + "'."@,
        ParseErrorKind::UnexpectedEofInParameters => "Syntax error: unexpected EOF in function parameter list."@,
        ParseErrorKind::ExpectedParameterName => "Syntax error: expected parameter name or ')' in function declaration, but found '"@ + text + "'."@,
        ParseErrorKind::ExpectedParameterAfterComma => "Syntax error: expected parameter name after ',' in function declaration, but found '"@ + text + "'."@,
        ParseErrorKind::NonBlockFunctionBody => "Syntax error: found non-block statement as function body."@,
        ParseErrorKind::FunctionBodyIsVarDecl => "Syntax error: expected block statement as function body, but found variable declaration."@,
        ParseErrorKind::FunctionBodyIsFunDecl => "Syntax error: expected block statement as function body, but found function declaration."@,
        ParseErrorKind::FunctionBodyIsExpression => "Syntax error: expected block statement as function body, but found expression."@,
        ParseErrorKind::ExpectedDeclarationAtTopLevel => "Syntax error: expected declaration at top level."@,
        ParseErrorKind::NotAProgram => "__NOT_A_PROGRAM__"@,
        ParseErrorKind::UnexpectedEnd => "Unexpected end of input."@,
    }
}

/// The message reported for a syntax error: `Unexpected end of input.` when
/// the tokens ran out, else the location and what was expected or found.
pub open spec fn parse_error_message(e: SParseError) -> Seq<char> {
    if e.kind == ParseErrorKind::UnexpectedEnd {
        "Unexpected end of input."@
    } else if e.kind == ParseErrorKind::NotAProgram {
        "__NOT_A_PROGRAM__"@
    } else {
        "[line "@ + decimal(e.line as nat) + ":"@ + decimal(e.col as nat) + "] "@ + error_body(e.kind, e.text)
    }
}

fn push_error_body(out: &mut Vec<char>, kind: ParseErrorKind, text: &str)
    ensures
        final(out)@ == old(out)@ + error_body(kind, text@),
{
    match kind {
        ParseErrorKind::InvalidNumber => {
            push_str_chars(out, "Syntax error: invalid number literal '");
            push_str_chars(out, text);
            push_str_chars(out, "'.");
        },
        ParseErrorKind::ExpectedRParenAtEof => push_str_chars(out, "Syntax error: expected ')' after expression, but found EOF."),
        ParseErrorKind::ExpectedRParen => push_str_chars(out, "Syntax error: expected ')' after expression."),
        ParseErrorKind::UnexpectedToken => {
            push_str_chars(out, "Syntax error: unexpected token '");
            push_str_chars(out, text);
            push_str_chars(out, "'.");
        },
        ParseErrorKind::ExpectedRParenAfterArguments => push_str_chars(out, "Syntax error: expected ')' after function call arguments."),
        ParseErrorKind::InvalidAssignmentTarget => push_str_chars(out, "Invalid assignment target."),
        ParseErrorKind::ExpectedExprStmtAfterPrint => push_str_chars(out, "Syntax error: expected expression statement after 'print'. Missing semicolon?"),
        ParseErrorKind::ExpectedSemicolonAfterReturn => push_str_chars(out, "Syntax error: expected ';' after return value."),
        ParseErrorKind::UnmatchedBrace => push_str_chars(out, "Syntax error: unmatched '{'."),
        ParseErrorKind::ExpectedSemicolonFoundBrace => push_str_chars(out, "Syntax error: expected ';' after expression, but found '}'."),
        ParseErrorKind::ExpectedSemicolonFoundEof => push_str_chars(out, "Syntax error: expected ';' after expression, but found EOF."),
        ParseErrorKind::UnexpectedLexeme => {
            push_str_chars(out, "Syntax error: unexpected '");
            push_str_chars(out, text);
            push_str_chars(out, "'.");
        },
        ParseErrorKind::ExpectedLParenAfter(Construct::If) => {
            push_str_chars(out, "Syntax error: expected '(' after 'if', but found '");
            push_str_chars(out, text);
            push_str_chars(out, "'.");
        },
        ParseErrorKind::ExpectedLParenAfter(Construct::Else) => {
            push_str_chars(out, "Syntax error: expected '(' after 'else', but found '");
            push_str_chars(out, text);
            push_str_chars(out, "'.");
        },
        ParseErrorKind::ExpectedLParenAfter(Construct::While) => {
            push_str_chars(out, "Syntax error: expected '(' after 'while', but found '");
            push_str_chars(out, text);
            push_str_chars(out, "'.");
        },
        ParseErrorKind::ExpectedLParenAfter(Construct::For) => {
            push_str_chars(out, "Syntax error: expected '(' after 'for', but found '");
            push_str_chars(out, text);
            push_str_chars(out, "'.");
        },
        ParseErrorKind::ExpectedRParenAfterCondition(Construct::If) => {
            push_str_chars(out, "Syntax error: expected ')' after if condition, but found '");
            push_str_chars(out, text);
            push_str_chars(out, "'.");
        },
        ParseErrorKind::ExpectedRParenAfterCondition(Construct::Else) => {
            push_str_chars(out, "Syntax error: expected ')' after else condition, but found '");
            push_str_chars(out, text);
            push_str_chars(out, "'.");
        },
        ParseErrorKind::ExpectedRParenAfterCondition(Construct::While) => {
            push_str_chars(out, "Syntax error: expected ')' after while condition, but found '");
            push_str_chars(out, text);
            push_str_chars(out, "'.");
        },
        ParseErrorKind::ExpectedRParenAfterCondition(Construct::For) => {
            push_str_chars(out, "Syntax error: expected ')' after for condition, but found '");
            push_str_chars(out, text);
            push_str_chars(out, "'.");
        },
        ParseErrorKind::VarDeclInBody(Construct::If) => push_str_chars(out, "Syntax error: variable declaration not allowed directly inside 'if' statement. Use a block to create an inner scope."),
        ParseErrorKind::VarDeclInBody(Construct::Else) => push_str_chars(out, "Syntax error: variable declaration not allowed directly inside 'else' statement. Use a block to create an inner scope."),
        ParseErrorKind::VarDeclInBody(Construct::While) => push_str_chars(out, "Syntax error: variable declaration not allowed directly inside 'while' statement. Use a block to create an inner scope."),
        ParseErrorKind::VarDeclInBody(Construct::For) => push_str_chars(out, "Syntax error: variable declaration not allowed directly inside 'for' statement body. Use a block to create an inner scope."),
        ParseErrorKind::FunDeclInBody(Construct::If) => push_str_chars(out, "Syntax error: function declaration not allowed directly inside 'if' statement. Use a block to create an inner scope."),
        ParseErrorKind::FunDeclInBody(Construct::Else) => push_str_chars(out, "Syntax error: function declaration not allowed directly inside 'else' statement. Use a block to create an inner scope."),
        ParseErrorKind::FunDeclInBody(Construct::While) => push_str_chars(out, "Syntax error: function declaration not allowed directly inside 'while' statement. Use a block to create an inner scope."),
        ParseErrorKind::FunDeclInBody(Construct::For) => push_str_chars(out, "Syntax error: function declaration not allowed directly inside 'for' statement body. Use a block to create an inner scope."),
        ParseErrorKind::ExpectedStatementInBody(Construct::If) => push_str_chars(out, "Syntax error: expected statement after if condition."),
        ParseErrorKind::ExpectedStatementInBody(Construct::Else) => push_str_chars(out, "Syntax error: expected statement after 'else'."),
        ParseErrorKind::ExpectedStatementInBody(Construct::While) => push_str_chars(out, "Syntax error: expected statement after while condition."),
        ParseErrorKind::ExpectedStatementInBody(Construct::For) => push_str_chars(out, "Syntax error: expected statement as body of 'for' loop."),
        ParseErrorKind::BadForInitializer => push_str_chars(out, "Syntax error: expected variable declaration or expression statement in for loop initializer."),
        ParseErrorKind::ExpectedSemicolonAfterForCondition => {
            push_str_chars(out, "Syntax error: expected ';' after for loop condition, but found '");
            push_str_chars(out, text);
            push_str_chars(out, "'.");
        },
        ParseErrorKind::ExpectedRParenAfterForIncrement => {
            push_str_chars(out, "Syntax error: expected ')' after for loop increment, but found '");
            push_str_chars(out, text);
            push_str_chars(out, "'.");
        },
        ParseErrorKind::ExpectedVariableNameAtEof => push_str_chars(out, "Syntax error: expected variable name after 'var'."),
        ParseErrorKind::ExpectedVariableName => {
            push_str_chars(out, "Syntax error: expected variable name after 'var', but found '");
            push_str_chars(out, text);
            push_str_chars(out, "'.");
        },
        ParseErrorKind::ExpectedSemicolonAfterVarAtEof => push_str_chars(out, "Syntax error: expected ';' after variable declaration, but found EOF."),
        ParseErrorKind::ExpectedSemicolonAfterVar => {
            push_str_chars(out, "Syntax error: expected ';' after variable declaration, but found '");
            push_str_chars(out, text);
            push_str_chars(out, "'.");
        },
        ParseErrorKind::ExpectedFunctionNameAtEof => push_str_chars(out, "Syntax error: expected function name after 'fun'."),
        ParseErrorKind::ExpectedFunctionName => {
            push_str_chars(out, "Syntax error: expected function name after 'fun', but found '");
            push_str_chars(out, text);
            push_str_chars(out, "'.");
        },
        ParseErrorKind::ExpectedLParenAfterFunctionName => {
            push_str_chars(out, "Syntax error: expected '(' after function name, but found '");
            push_str_chars(out, text);
            push_str_chars(out, "'.");
        },
        ParseErrorKind::ExpectedCommaOrRParenAfterParameter => {
            push_str_chars(out, "Syntax error: expected ',' or ')' after parameter in function declaration, but found '");
            push_str_chars(out, text);
            push_str_chars(out, "'.");
        },
        ParseErrorKind::UnexpectedEofInParameters => push_str_chars(out, "Syntax error: unexpected EOF in function parameter list."),
        ParseErrorKind::ExpectedParameterName => {
            push_str_chars(out, "Syntax error: expected parameter name or ')' in function declaration, but found '");
            push_str_chars(out, text);
            push_str_chars(out, "'.");
        },
        ParseErrorKind::ExpectedParameterAfterComma => {
            push_str_chars(out, "Syntax error: expected parameter name after ',' in function declaration, but found '");
            push_str_chars(out, text);
            push_str_chars(out, "'.");
        },
        ParseErrorKind::NonBlockFunctionBody => push_str_chars(out, "Syntax error: found non-block statement as function body."),
        ParseErrorKind::FunctionBodyIsVarDecl => push_str_chars(out, "Syntax error: expected block statement as function body, but found variable declaration."),
        ParseErrorKind::FunctionBodyIsFunDecl => push_str_chars(out, "Syntax error: expected block statement as function body, but found function declaration."),
        ParseErrorKind::FunctionBodyIsExpression => push_str_chars(out, "Syntax error: expected block statement as function body, but found expression."),
        ParseErrorKind::ExpectedDeclarationAtTopLevel => push_str_chars(out, "Syntax error: expected declaration at top level."),
        ParseErrorKind::NotAProgram => push_str_chars(out, "__NOT_A_PROGRAM__"),
        ParseErrorKind::UnexpectedEnd => push_str_chars(out, "Unexpected end of input."),
    }
}

impl ParseError {
    /// The message reported for this error.
    pub fn message(&self) -> (s: String)
        ensures
            s@ == parse_error_message(self@),
    {
        let mut out: Vec<char> = Vec::new();
        if self.kind == ParseErrorKind::UnexpectedEnd {
            push_str_chars(&mut out, "Unexpected end of input.");
        } else if self.kind == ParseErrorKind::NotAProgram {
            push_str_chars(&mut out, "__NOT_A_PROGRAM__");
        } else {
            push_str_chars(&mut out, "[line ");
            push_decimal(&mut out, self.line);
            push_str_chars(&mut out, ":");
            push_decimal(&mut out, self.col);
            push_str_chars(&mut out, "] ");
            push_error_body(&mut out, self.kind, self.text.as_str());
        }
        chars_to_string(&out)
    }
}

} // verus!
