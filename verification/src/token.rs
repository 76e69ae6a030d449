//! Token types and tokens produced by the tokenizer.

use vstd::prelude::*;
use crate::text::{decimal, push_str_chars, push_decimal, chars_to_string};

verus! {

/// The kind of a token, named after the Lox grammar's terminals.
#[derive(Clone, Copy, PartialEq, Eq, Debug, Structural)]
pub enum TokenType {
    LeftParen,
    RightParen,
    LeftBrace,
    RightBrace,
    Comma,
    Dot,
    Minus,
    Plus,
    Semicolon,
    Star,
    Slash,
    Equal,
    EqualEqual,
    Bang,
    BangEqual,
    Less,
    LessEqual,
    Greater,
    GreaterEqual,
    String,
    Number,
    Identifier,
    And,
    Class,
    Else,
    False,
    For,
    Fun,
    If,
    Nil,
    Or,
    Print,
    Return,
    Super,
    This,
    True,
    Var,
    While,
    Eof,
}

/// The printed name of each token type (the upper-case name used in tokenizer output).
pub open spec fn token_type_name(t: TokenType) -> Seq<char> {
    match t {
        TokenType::LeftParen => "LEFT_PAREN"@,
        TokenType::RightParen => "RIGHT_PAREN"@,
        TokenType::LeftBrace => "LEFT_BRACE"@,
        TokenType::RightBrace => "RIGHT_BRACE"@,
        TokenType::Comma => "COMMA"@,
        TokenType::Dot => "DOT"@,
        TokenType::Minus => "MINUS"@,
        TokenType::Plus => "PLUS"@,
        TokenType::Semicolon => "SEMICOLON"@,
        TokenType::Star => "STAR"@,
        TokenType::Slash => "SLASH"@,
        TokenType::Equal => "EQUAL"@,
        TokenType::EqualEqual => "EQUAL_EQUAL"@,
        TokenType::Bang => "BANG"@,
        TokenType::BangEqual => "BANG_EQUAL"@,
        TokenType::Less => "LESS"@,
        TokenType::LessEqual => "LESS_EQUAL"@,
        TokenType::Greater => "GREATER"@,
        TokenType::GreaterEqual => "GREATER_EQUAL"@,
        TokenType::String => "STRING"@,
        TokenType::Number => "NUMBER"@,
        TokenType::Identifier => "IDENTIFIER"@,
        TokenType::And => "AND"@,
        TokenType::Class => "CLASS"@,
        TokenType::Else => "ELSE"@,
        TokenType::False => "FALSE"@,
        TokenType::For => "FOR"@,
        TokenType::Fun => "FUN"@,
        TokenType::If => "IF"@,
        TokenType::Nil => "NIL"@,
        TokenType::Or => "OR"@,
        TokenType::Print => "PRINT"@,
        TokenType::Return => "RETURN"@,
        TokenType::Super => "SUPER"@,
        TokenType::This => "THIS"@,
        TokenType::True => "TRUE"@,
        TokenType::Var => "VAR"@,
        TokenType::While => "WHILE"@,
        TokenType::Eof => "EOF"@,
    }
}

impl TokenType {
    /// The printed name of the token type, e.g. `LEFT_PAREN` or `EQUAL_EQUAL`.
    pub fn name(&self) -> (r: &'static str)
        ensures
            r@ == token_type_name(*self),
    {
        match self {
            TokenType::LeftParen => "LEFT_PAREN",
            TokenType::RightParen => "RIGHT_PAREN",
            TokenType::LeftBrace => "LEFT_BRACE",
            TokenType::RightBrace => "RIGHT_BRACE",
            TokenType::Comma => "COMMA",
            TokenType::Dot => "DOT",
            TokenType::Minus => "MINUS",
            TokenType::Plus => "PLUS",
            TokenType::Semicolon => "SEMICOLON",
            TokenType::Star => "STAR",
            TokenType::Slash => "SLASH",
            TokenType::Equal => "EQUAL",
            TokenType::EqualEqual => "EQUAL_EQUAL",
            TokenType::Bang => "BANG",
            TokenType::BangEqual => "BANG_EQUAL",
            TokenType::Less => "LESS",
            TokenType::LessEqual => "LESS_EQUAL",
            TokenType::Greater => "GREATER",
            TokenType::GreaterEqual => "GREATER_EQUAL",
            TokenType::String => "STRING",
            TokenType::Number => "NUMBER",
            TokenType::Identifier => "IDENTIFIER",
            TokenType::And => "AND",
            TokenType::Class => "CLASS",
            TokenType::Else => "ELSE",
            TokenType::False => "FALSE",
            TokenType::For => "FOR",
            TokenType::Fun => "FUN",
            TokenType::If => "IF",
            TokenType::Nil => "NIL",
            TokenType::Or => "OR",
            TokenType::Print => "PRINT",
            TokenType::Return => "RETURN",
            TokenType::Super => "SUPER",
            TokenType::This => "THIS",
            TokenType::True => "TRUE",
            TokenType::Var => "VAR",
            TokenType::While => "WHILE",
            TokenType::Eof => "EOF",
        }
    }
}

/// A token with a type, lexeme, literal value, and line/column of its first character.
/// The literal value is:
///  - the unquoted text for string literals
///  - the displayed form of the number for number literals (`12` gives
///    `12.0`, `3.50` gives `3.5`; see `number_literal`)
///  - "null" for all other tokens (including keywords and identifiers)
#[derive(Clone, Debug)]
pub struct Token {
    pub token_type: TokenType,
    pub lexeme: String,
    pub literal: String,
    pub line: usize,
    pub col: usize,
}

/// The mathematical content of a token.
pub struct SpecToken {
    pub token_type: TokenType,
    pub lexeme: Seq<char>,
    pub literal: Seq<char>,
    pub line: usize,
    pub col: usize,
}

impl View for Token {
    type V = SpecToken;

    open spec fn view(&self) -> SpecToken {
        SpecToken {
            token_type: self.token_type,
            lexeme: self.lexeme@,
            literal: self.literal@,
            line: self.line,
            col: self.col,
        }
    }
}

/// The text of a token as its `Debug` form shows it:
/// `(TYPE, lexeme, literal, line L, pos C)`.
pub open spec fn token_text(t: SpecToken) -> Seq<char> {
    "("@ + token_type_name(t.token_type) + ", "@ + t.lexeme + ", "@ + t.literal + ", line "@ + decimal(t.line as nat)
        + ", pos "@ + decimal(t.col as nat) + ")"@
}

impl Token {
    /// The token as `(TYPE, lexeme, literal, line L, pos C)`.
    pub fn debug_text(&self) -> (s: String)
        ensures
            s@ == token_text(self@),
    {
        let mut out: Vec<char> = Vec::new();
        push_str_chars(&mut out, "(");
        push_str_chars(&mut out, self.token_type.name());
        push_str_chars(&mut out, ", ");
        push_str_chars(&mut out, self.lexeme.as_str());
        push_str_chars(&mut out, ", ");
        push_str_chars(&mut out, self.literal.as_str());
        push_str_chars(&mut out, ", line ");
        push_decimal(&mut out, self.line);
        push_str_chars(&mut out, ", pos ");
        push_decimal(&mut out, self.col);
        push_str_chars(&mut out, ")");
        assert(out@ =~= token_text(self@));
        chars_to_string(&out)
    }

    pub fn new(token_type: TokenType, lexeme: String, literal: String, line_no: usize, position: usize) -> (r: Self)
        ensures
            r.token_type == token_type,
            r.lexeme == lexeme,
            r.literal == literal,
            r.line == line_no,
            r.col == position,
    {
        Token { token_type, lexeme, literal, line: line_no, col: position }
    }
}

} // verus!
