//! Tokenizing input text into a list of tokens according to the Lox grammar.
//!
//! The tokenizer is a finite-state machine that reads one character at a time.
//! `step` and `finish` below are its mathematical model; the executable
//! `Tokenizer` is proved to follow them character by character.

use vstd::prelude::*;
use crate::token::{Token, TokenType, SpecToken};
use crate::grammar::{width, tokens_fit, ends_with_eof};
use crate::number::{number_literal, canonical_number};
use crate::text::{decimal, push_str_chars, push_decimal, chars_to_string, push_all};

verus! {

/// What went wrong while tokenizing.
#[derive(Clone, Copy, PartialEq, Eq, Debug, Structural)]
pub enum LexErrorKind {
    UnexpectedCharacter(char),
    UnterminatedString,
}

/// A tokenizer error with the line on which it was found.
#[derive(Clone, Copy, PartialEq, Eq, Debug, Structural)]
pub struct LexError {
    pub line: usize,
    pub kind: LexErrorKind,
}

/// The text of a tokenizer error message.
pub open spec fn lex_error_message(e: LexError) -> Seq<char> {
    match e.kind {
        LexErrorKind::UnexpectedCharacter(c) =>
            "[line "@ + decimal(e.line as nat) + "] Error: Unexpected character: "@ + seq![c],
        LexErrorKind::UnterminatedString =>
            "[line "@ + decimal(e.line as nat) + "] Error: Unterminated string."@,
    }
}

impl LexError {
    /// The error message, e.g. `[line 3] Error: Unexpected character: $`.
    pub fn message(&self) -> (r: String)
        ensures
            r@ == lex_error_message(*self),
    {
        let mut out: Vec<char> = Vec::new();
        push_str_chars(&mut out, "[line ");
        push_decimal(&mut out, self.line);
        match self.kind {
            LexErrorKind::UnexpectedCharacter(c) => {
                push_str_chars(&mut out, "] Error: Unexpected character: ");
                out.push(c);
            },
            LexErrorKind::UnterminatedString => {
                push_str_chars(&mut out, "] Error: Unterminated string.");
            },
        }
        chars_to_string(&out)
    }
}

// ---------------------------------------------------------------------------
// Character classes and keyword table
// ---------------------------------------------------------------------------

pub open spec fn is_digit(c: char) -> bool {
    '0' <= c <= '9'
}

pub open spec fn is_alpha(c: char) -> bool {
    c == '_' || ('a' <= c <= 'z') || ('A' <= c <= 'Z')
}

pub open spec fn is_alnum(c: char) -> bool {
    is_alpha(c) || is_digit(c)
}

/// Characters that form a token on their own.
pub open spec fn single_char_type(c: char) -> Option<TokenType> {
    if c == ',' { Some(TokenType::Comma) }
    else if c == '.' { Some(TokenType::Dot) }
    else if c == '-' { Some(TokenType::Minus) }
    else if c == '+' { Some(TokenType::Plus) }
    else if c == ';' { Some(TokenType::Semicolon) }
    else if c == '*' { Some(TokenType::Star) }
    else if c == '(' { Some(TokenType::LeftParen) }
    else if c == ')' { Some(TokenType::RightParen) }
    else if c == '{' { Some(TokenType::LeftBrace) }
    else if c == '}' { Some(TokenType::RightBrace) }
    else { None }
}

/// Characters that may be followed by `=` to form a two-character operator.
pub open spec fn equals_prefix_type(c: char) -> Option<TokenType> {
    if c == '=' { Some(TokenType::Equal) }
    else if c == '!' { Some(TokenType::Bang) }
    else if c == '<' { Some(TokenType::Less) }
    else if c == '>' { Some(TokenType::Greater) }
    else { None }
}

/// The character of a one-character operator that may be followed by `=`.
pub open spec fn operator_char(t: TokenType) -> char {
    match t {
        TokenType::Equal => '=',
        TokenType::Bang => '!',
        TokenType::Less => '<',
        _ => '>',
    }
}

/// The two-character operator formed by following `t` with `=`.
pub open spec fn with_equals(t: TokenType) -> TokenType {
    match t {
        TokenType::Equal => TokenType::EqualEqual,
        TokenType::Bang => TokenType::BangEqual,
        TokenType::Less => TokenType::LessEqual,
        _ => TokenType::GreaterEqual,
    }
}

/// The token type of a reserved keyword, or `None` for any other word.
pub open spec fn keyword_type(s: Seq<char>) -> Option<TokenType> {
    if s == seq!['a', 'n', 'd'] { Some(TokenType::And) }
    else if s == seq!['c', 'l', 'a', 's', 's'] { Some(TokenType::Class) }
    else if s == seq!['e', 'l', 's', 'e'] { Some(TokenType::Else) }
    else if s == seq!['f', 'a', 'l', 's', 'e'] { Some(TokenType::False) }
    else if s == seq!['f', 'o', 'r'] { Some(TokenType::For) }
    else if s == seq!['f', 'u', 'n'] { Some(TokenType::Fun) }
    else if s == seq!['i', 'f'] { Some(TokenType::If) }
    else if s == seq!['n', 'i', 'l'] { Some(TokenType::Nil) }
    else if s == seq!['o', 'r'] { Some(TokenType::Or) }
    else if s == seq!['p', 'r', 'i', 'n', 't'] { Some(TokenType::Print) }
    else if s == seq!['r', 'e', 't', 'u', 'r', 'n'] { Some(TokenType::Return) }
    else if s == seq!['s', 'u', 'p', 'e', 'r'] { Some(TokenType::Super) }
    else if s == seq!['t', 'h', 'i', 's'] { Some(TokenType::This) }
    else if s == seq!['t', 'r', 'u', 'e'] { Some(TokenType::True) }
    else if s == seq!['v', 'a', 'r'] { Some(TokenType::Var) }
    else if s == seq!['w', 'h', 'i', 'l', 'e'] { Some(TokenType::While) }
    else { None }
}

/// The token type of a word: its keyword type, or `Identifier`.
pub open spec fn word_type(s: Seq<char>) -> TokenType {
    match keyword_type(s) {
        Some(t) => t,
        None => TokenType::Identifier,
    }
}

/// The literal text of tokens that carry no literal value.
pub open spec fn null_text() -> Seq<char> {
    seq!['n', 'u', 'l', 'l']
}

// ---------------------------------------------------------------------------
// The model of the state machine
// ---------------------------------------------------------------------------

/// States of the tokenizer's finite-state machine.
pub enum LexState {
    Default,
    /// `=`, `!`, `<` or `>` seen; it may be followed by `=`.
    WaitingEquals(TokenType),
    /// `/` seen; it may start a comment.
    WaitingSlash,
    Comment,
    /// Digits of a number without a dot so far.
    Number(Seq<char>),
    /// Digits of a number with a dot.
    NumberDot(Seq<char>),
    /// Inside a string literal (text so far, without the opening quote).
    Str(Seq<char>),
    Identifier(Seq<char>),
    Finished,
}

/// The whole state of the tokenizer: machine state, output so far, and position.
pub struct Lexer {
    pub state: LexState,
    pub errors: Seq<LexError>,
    pub tokens: Seq<SpecToken>,
    pub line: int,
    pub pos: int,
    /// Column at which the current token started.
    pub start: int,
}

pub open spec fn initial_lexer() -> Lexer {
    Lexer { state: LexState::Default, errors: seq![], tokens: seq![], line: 1, pos: 1, start: 1 }
}

/// Emits a token that started at the current token start.
pub open spec fn emit(m: Lexer, t: TokenType, lexeme: Seq<char>, literal: Seq<char>) -> Lexer {
    Lexer {
        tokens: m.tokens.push(SpecToken { token_type: t, lexeme, literal, line: m.line as usize, col: m.start as usize }),
        ..m
    }
}

/// Moves to the next column.
pub open spec fn advance(m: Lexer) -> Lexer {
    Lexer { pos: m.pos + 1, ..m }
}

/// Handles a character in the default state.
pub open spec fn step_default(m0: Lexer, c: char) -> Lexer {
    let m = Lexer { state: LexState::Default, start: m0.pos, ..m0 };
    advance(
        if equals_prefix_type(c) is Some {
            Lexer { state: LexState::WaitingEquals(equals_prefix_type(c)->0), ..m }
        } else if c == '/' {
            Lexer { state: LexState::WaitingSlash, ..m }
        } else if single_char_type(c) is Some {
            emit(m, single_char_type(c)->0, seq![c], null_text())
        } else if c == '"' {
            Lexer { state: LexState::Str(seq![]), ..m }
        } else if is_digit(c) {
            Lexer { state: LexState::Number(seq![c]), ..m }
        } else if is_alpha(c) {
            Lexer { state: LexState::Identifier(seq![c]), ..m }
        } else if c == ' ' || c == '\r' || c == '\t' {
            m
        } else if c == '\n' {
            Lexer { line: m.line + 1, pos: 0, ..m }
        } else {
            Lexer {
                errors: m.errors.push(LexError { line: m.line as usize, kind: LexErrorKind::UnexpectedCharacter(c) }),
                ..m
            }
        },
    )
}

/// The state machine in the default state, used after emitting a deferred token.
pub open spec fn to_default(m: Lexer) -> Lexer {
    Lexer { state: LexState::Default, ..m }
}

/// Handles one character of input.
pub open spec fn step(m: Lexer, c: char) -> Lexer {
    match m.state {
        LexState::Finished => m,
        LexState::Default => step_default(m, c),
        LexState::WaitingEquals(t) => {
            if c == '=' {
                advance(emit(to_default(m), with_equals(t), seq![operator_char(t), '='], null_text()))
            } else {
                step_default(emit(to_default(m), t, seq![operator_char(t)], null_text()), c)
            }
        },
        LexState::WaitingSlash => {
            if c == '/' {
                advance(Lexer { state: LexState::Comment, ..m })
            } else {
                step_default(emit(to_default(m), TokenType::Slash, seq!['/'], null_text()), c)
            }
        },
        LexState::Comment => {
            if c == '\n' {
                advance(Lexer { state: LexState::Default, line: m.line + 1, pos: 0, ..m })
            } else {
                advance(m)
            }
        },
        LexState::Number(s) => {
            if is_digit(c) {
                advance(Lexer { state: LexState::Number(s.push(c)), ..m })
            } else if c == '.' {
                advance(Lexer { state: LexState::NumberDot(s.push(c)), ..m })
            } else {
                step_default(emit(to_default(m), TokenType::Number, s, number_literal(s)), c)
            }
        },
        LexState::NumberDot(s) => {
            if is_digit(c) {
                advance(Lexer { state: LexState::NumberDot(s.push(c)), ..m })
            } else {
                step_default(emit(to_default(m), TokenType::Number, s, number_literal(s)), c)
            }
        },
        LexState::Identifier(s) => {
            if is_alnum(c) {
                advance(Lexer { state: LexState::Identifier(s.push(c)), ..m })
            } else {
                step_default(emit(to_default(m), word_type(s), s, null_text()), c)
            }
        },
        LexState::Str(s) => {
            if c == '"' {
                advance(emit(to_default(m), TokenType::String, seq!['"'] + s + seq!['"'], s))
            } else if c == '\n' {
                advance(Lexer { state: LexState::Str(s.push(c)), line: m.line + 1, pos: 0, ..m })
            } else {
                advance(Lexer { state: LexState::Str(s.push(c)), ..m })
            }
        },
    }
}

/// Handles the end of input: flushes a pending token or reports an unterminated string.
pub open spec fn finish(m: Lexer) -> Lexer {
    let m2 = match m.state {
        LexState::WaitingEquals(t) => emit(m, t, seq![operator_char(t)], null_text()),
        LexState::WaitingSlash => emit(m, TokenType::Slash, seq!['/'], null_text()),
        LexState::Number(s) => emit(m, TokenType::Number, s, number_literal(s)),
        LexState::NumberDot(s) => emit(m, TokenType::Number, s, number_literal(s)),
        LexState::Identifier(s) => emit(m, word_type(s), s, null_text()),
        LexState::Str(_) => Lexer {
            errors: m.errors.push(LexError { line: m.line as usize, kind: LexErrorKind::UnterminatedString }),
            ..m
        },
        _ => m,
    };
    Lexer { state: LexState::Finished, ..m2 }
}

/// The tokenizer after reading all of `cs`.
pub open spec fn lex_prefix(cs: Seq<char>) -> Lexer
    decreases cs.len(),
{
    if cs.len() == 0 {
        initial_lexer()
    } else {
        step(lex_prefix(cs.drop_last()), cs.last())
    }
}

/// The tokenizer after reading all of `input` and handling the end of input.
pub open spec fn lex_final(input: Seq<char>) -> Lexer {
    finish(lex_prefix(input))
}

/// The tokens of `input`, ending with an `EOF` token. A `NUMBER` token's
/// literal is the displayed form of its text (`number_literal`).
pub open spec fn spec_tokens(input: Seq<char>) -> Seq<SpecToken> {
    let m = lex_final(input);
    m.tokens.push(SpecToken { token_type: TokenType::Eof, lexeme: seq![], literal: null_text(), line: m.line as usize, col: m.start as usize })
}

/// The errors found while tokenizing `input`, in order.
pub open spec fn spec_lex_errors(input: Seq<char>) -> Seq<LexError> {
    lex_final(input).errors
}

// ---------------------------------------------------------------------------
// When the tokenizer reports errors
// ---------------------------------------------------------------------------

/// Where the next character of the input is read: in code, just after a `/`
/// in code, inside a `//` comment, or inside a string literal.
pub enum Region {
    Code,
    AfterSlash,
    Comment,
    Str,
}

pub open spec fn next_region(r: Region, c: char) -> Region {
    match r {
        Region::Code => if c == '"' { Region::Str } else if c == '/' { Region::AfterSlash } else { Region::Code },
        Region::AfterSlash => if c == '/' { Region::Comment } else if c == '"' { Region::Str } else { Region::Code },
        Region::Comment => if c == '\n' { Region::Code } else { Region::Comment },
        Region::Str => if c == '"' { Region::Code } else { Region::Str },
    }
}

/// The region after reading `cs`.
pub open spec fn region_after(cs: Seq<char>) -> Region
    decreases cs.len(),
{
    if cs.len() == 0 {
        Region::Code
    } else {
        next_region(region_after(cs.drop_last()), cs.last())
    }
}

/// The characters that may stand in code: letters, digits and `_`, the
/// operators and punctuation of Lox, `"`, and white space.
pub open spec fn accepted_in_code(c: char) -> bool {
    ||| is_alnum(c)
    ||| c == '"' || c == '/'
    ||| equals_prefix_type(c) is Some
    ||| single_char_type(c) is Some
    ||| c == ' ' || c == '\t' || c == '\r' || c == '\n'
}

/// Whether the character at `i` is read in code and may not stand there.
pub open spec fn stray_at(cs: Seq<char>, i: int) -> bool {
    &&& 0 <= i < cs.len()
    &&& (region_after(cs.take(i)) is Code || region_after(cs.take(i)) is AfterSlash)
    &&& !accepted_in_code(cs[i])
}

/// A character read in the default state adds an error exactly when it may
/// not stand in code.
proof fn lemma_step_default_region(m0: Lexer, c: char)
    ensures
        step_default(m0, c).errors.len() == m0.errors.len() + (if accepted_in_code(c) { 0int } else { 1int }),
        step_default(m0, c).errors.len() > 0 ==> m0.errors.len() > 0 || !accepted_in_code(c),
        c == '"' ==> step_default(m0, c).state is Str,
        c == '/' ==> step_default(m0, c).state is WaitingSlash,
        c != '"' && c != '/' ==> !(step_default(m0, c).state is Str || step_default(m0, c).state is WaitingSlash),
        !(step_default(m0, c).state is Finished || step_default(m0, c).state is Comment),
{
}

/// One step of the tokenizer in code adds an error exactly for a character
/// that may not stand there, and leaves the machine where `next_region` says.
proof fn lemma_step_region(m: Lexer, c: char)
    requires
        !(m.state is Finished),
    ensures
        !(step(m, c).state is Finished),
        (m.state is Str || m.state is Comment) ==> step(m, c).errors.len() == m.errors.len(),
        !(m.state is Str || m.state is Comment) ==> step(m, c).errors.len() == m.errors.len() + (if accepted_in_code(
            c,
        ) { 0int } else { 1int }),
{
    match m.state {
        LexState::WaitingEquals(t) => {
            if c != '=' {
                lemma_step_default_region(emit(to_default(m), t, seq![operator_char(t)], null_text()), c);
            }
        },
        LexState::WaitingSlash => {
            if c != '/' {
                lemma_step_default_region(emit(to_default(m), TokenType::Slash, seq!['/'], null_text()), c);
            }
        },
        LexState::Number(s) => {
            if !is_digit(c) && c != '.' {
                lemma_step_default_region(emit(to_default(m), TokenType::Number, s, number_literal(s)), c);
            }
        },
        LexState::NumberDot(s) => {
            if !is_digit(c) {
                lemma_step_default_region(emit(to_default(m), TokenType::Number, s, number_literal(s)), c);
            }
        },
        LexState::Identifier(s) => {
            if !is_alnum(c) {
                lemma_step_default_region(emit(to_default(m), word_type(s), s, null_text()), c);
            }
        },
        LexState::Default => {
            lemma_step_default_region(m, c);
        },
        _ => {},
    }
}

/// The region after a prefix matches the state of the tokenizer, and the
/// tokenizer has reported an error exactly when a stray character was read.
proof fn lemma_prefix_regions(cs: Seq<char>)
    ensures
        !(lex_prefix(cs).state is Finished),
        region_after(cs) is Str <==> lex_prefix(cs).state is Str,
        region_after(cs) is Comment <==> lex_prefix(cs).state is Comment,
        region_after(cs) is AfterSlash <==> lex_prefix(cs).state is WaitingSlash,
        lex_prefix(cs).errors.len() > 0 <==> exists|i: int| stray_at(cs, i),
    decreases cs.len(),
{
    if cs.len() > 0 {
        let p = cs.drop_last();
        let c = cs.last();
        lemma_prefix_regions(p);
        lemma_step_region(lex_prefix(p), c);
        assert forall|i: int| 0 <= i < p.len() implies stray_at(cs, i) == stray_at(p, i) by {
            assert(cs.take(i) =~= p.take(i));
        }
        assert(cs.take(p.len() as int) =~= p);
        assert(lex_prefix(cs) == step(lex_prefix(p), c));
        assert(cs[p.len() as int] == c);
        assert(stray_at(cs, p.len() as int) == (!(lex_prefix(p).state is Str || lex_prefix(p).state is Comment)
            && !accepted_in_code(c)));
        if exists|i: int| stray_at(p, i) {
            let i = choose|i: int| stray_at(p, i);
            assert(stray_at(cs, i));
        }
        if exists|i: int| stray_at(cs, i) {
            let i = choose|i: int| stray_at(cs, i);
            if i < p.len() {
                assert(stray_at(p, i));
            } else {
                assert(i == p.len());
            }
        }
    }
}

/// The tokenizer reports an error exactly when a character read outside
/// string literals and comments may not stand in code, or the input ends
/// inside a string literal.
pub proof fn lemma_errors_iff_stray_or_open_string(input: Seq<char>)
    ensures
        spec_lex_errors(input).len() > 0 <==> (exists|i: int| stray_at(input, i)) || region_after(input) is Str,
{
    lemma_prefix_regions(input);
}

/// The views of a sequence of tokens.
pub open spec fn token_views(ts: Seq<Token>) -> Seq<SpecToken> {
    ts.map_values(|t: Token| t@)
}

} // verus!

verus! {

// ---------------------------------------------------------------------------
// The executable tokenizer
// ---------------------------------------------------------------------------

/// Executable states of the tokenizer, with accumulated text held as characters.
enum TokenizerState {
    Default,
    WaitingEquals(TokenType),
    WaitingSlash,
    Comment,
    Number(Vec<char>),
    NumberDot(Vec<char>),
    Str(Vec<char>),
    Identifier(Vec<char>),
    Finished,
}

impl View for TokenizerState {
    type V = LexState;

    closed spec fn view(&self) -> LexState {
        match self {
            TokenizerState::Default => LexState::Default,
            TokenizerState::WaitingEquals(t) => LexState::WaitingEquals(*t),
            TokenizerState::WaitingSlash => LexState::WaitingSlash,
            TokenizerState::Comment => LexState::Comment,
            TokenizerState::Number(s) => LexState::Number(s@),
            TokenizerState::NumberDot(s) => LexState::NumberDot(s@),
            TokenizerState::Str(s) => LexState::Str(s@),
            TokenizerState::Identifier(s) => LexState::Identifier(s@),
            TokenizerState::Finished => LexState::Finished,
        }
    }
}

/// Finite-state machine for tokenizing the input string.
struct Tokenizer {
    state: TokenizerState,
    errors: Vec<LexError>,
    tokens: Vec<Token>,
    curr_line: usize,
    curr_pos: usize,
    /// The column at which the current (multi-char/deferred) token started.
    curr_token_start: usize,
}

impl View for Tokenizer {
    type V = Lexer;

    closed spec fn view(&self) -> Lexer {
        Lexer {
            state: self.state@,
            errors: self.errors@,
            tokens: token_views(self.tokens@),
            line: self.curr_line as int,
            pos: self.curr_pos as int,
            start: self.curr_token_start as int,
        }
    }
}

fn null_string() -> (r: String)
    ensures
        r@ == null_text(),
{
    let v: Vec<char> = vec!['n', 'u', 'l', 'l'];
    chars_to_string(&v)
}

fn single_char_vec(c: char) -> (r: Vec<char>)
    ensures
        r@ == seq![c],
{
    let mut v: Vec<char> = Vec::new();
    v.push(c);
    v
}

/// Whether the characters of `s` are exactly those of `w`.
fn chars_are(s: &Vec<char>, w: &[char]) -> (r: bool)
    ensures
        r == (s@ == w@),
{
    if s.len() != w.len() {
        return false;
    }
    let mut i: usize = 0;
    while i < s.len()
        invariant
            s@.len() == w@.len(),
            0 <= i <= s@.len(),
            forall|j: int| 0 <= j < i ==> s@[j] == w@[j],
        decreases s@.len() - i,
    {
        if s[i] != w[i] {
            return false;
        }
        i = i + 1;
    }
    assert(s@ =~= w@);
    true
}

/// Looks up a word in the table of reserved keywords.
fn keyword_type_of(s: &Vec<char>) -> (r: Option<TokenType>)
    ensures
        r == keyword_type(s@),
{
    let w_and = ['a', 'n', 'd'];
    let w_class = ['c', 'l', 'a', 's', 's'];
    let w_else = ['e', 'l', 's', 'e'];
    let w_false = ['f', 'a', 'l', 's', 'e'];
    let w_for = ['f', 'o', 'r'];
    let w_fun = ['f', 'u', 'n'];
    let w_if = ['i', 'f'];
    let w_nil = ['n', 'i', 'l'];
    let w_or = ['o', 'r'];
    let w_print = ['p', 'r', 'i', 'n', 't'];
    let w_return = ['r', 'e', 't', 'u', 'r', 'n'];
    let w_super = ['s', 'u', 'p', 'e', 'r'];
    let w_this = ['t', 'h', 'i', 's'];
    let w_true = ['t', 'r', 'u', 'e'];
    let w_var = ['v', 'a', 'r'];
    let w_while = ['w', 'h', 'i', 'l', 'e'];
    assert(w_and@ == seq!['a', 'n', 'd']);
    assert(w_class@ == seq!['c', 'l', 'a', 's', 's']);
    assert(w_else@ == seq!['e', 'l', 's', 'e']);
    assert(w_false@ == seq!['f', 'a', 'l', 's', 'e']);
    assert(w_for@ == seq!['f', 'o', 'r']);
    assert(w_fun@ == seq!['f', 'u', 'n']);
    assert(w_if@ == seq!['i', 'f']);
    assert(w_nil@ == seq!['n', 'i', 'l']);
    assert(w_or@ == seq!['o', 'r']);
    assert(w_print@ == seq!['p', 'r', 'i', 'n', 't']);
    assert(w_return@ == seq!['r', 'e', 't', 'u', 'r', 'n']);
    assert(w_super@ == seq!['s', 'u', 'p', 'e', 'r']);
    assert(w_this@ == seq!['t', 'h', 'i', 's']);
    assert(w_true@ == seq!['t', 'r', 'u', 'e']);
    assert(w_var@ == seq!['v', 'a', 'r']);
    assert(w_while@ == seq!['w', 'h', 'i', 'l', 'e']);
    if chars_are(s, &w_and) { Some(TokenType::And) }
    else if chars_are(s, &w_class) { Some(TokenType::Class) }
    else if chars_are(s, &w_else) { Some(TokenType::Else) }
    else if chars_are(s, &w_false) { Some(TokenType::False) }
    else if chars_are(s, &w_for) { Some(TokenType::For) }
    else if chars_are(s, &w_fun) { Some(TokenType::Fun) }
    else if chars_are(s, &w_if) { Some(TokenType::If) }
    else if chars_are(s, &w_nil) { Some(TokenType::Nil) }
    else if chars_are(s, &w_or) { Some(TokenType::Or) }
    else if chars_are(s, &w_print) { Some(TokenType::Print) }
    else if chars_are(s, &w_return) { Some(TokenType::Return) }
    else if chars_are(s, &w_super) { Some(TokenType::Super) }
    else if chars_are(s, &w_this) { Some(TokenType::This) }
    else if chars_are(s, &w_true) { Some(TokenType::True) }
    else if chars_are(s, &w_var) { Some(TokenType::Var) }
    else if chars_are(s, &w_while) { Some(TokenType::While) }
    else { None }
}

fn word_type_of(s: &Vec<char>) -> (r: TokenType)
    ensures
        r == word_type(s@),
{
    match keyword_type_of(s) {
        Some(t) => t,
        None => TokenType::Identifier,
    }
}

fn is_digit_char(c: char) -> (r: bool)
    ensures
        r == is_digit(c),
{
    '0' <= c && c <= '9'
}

fn is_alpha_char(c: char) -> (r: bool)
    ensures
        r == is_alpha(c),
{
    c == '_' || ('a' <= c && c <= 'z') || ('A' <= c && c <= 'Z')
}

fn single_char_type_of(c: char) -> (r: Option<TokenType>)
    ensures
        r == single_char_type(c),
{
    if c == ',' { Some(TokenType::Comma) }
    else if c == '.' { Some(TokenType::Dot) }
    else if c == '-' { Some(TokenType::Minus) }
    else if c == '+' { Some(TokenType::Plus) }
    else if c == ';' { Some(TokenType::Semicolon) }
    else if c == '*' { Some(TokenType::Star) }
    else if c == '(' { Some(TokenType::LeftParen) }
    else if c == ')' { Some(TokenType::RightParen) }
    else if c == '{' { Some(TokenType::LeftBrace) }
    else if c == '}' { Some(TokenType::RightBrace) }
    else { None }
}

fn equals_prefix_type_of(c: char) -> (r: Option<TokenType>)
    ensures
        r == equals_prefix_type(c),
{
    if c == '=' { Some(TokenType::Equal) }
    else if c == '!' { Some(TokenType::Bang) }
    else if c == '<' { Some(TokenType::Less) }
    else if c == '>' { Some(TokenType::Greater) }
    else { None }
}

fn operator_char_of(t: TokenType) -> (r: char)
    ensures
        r == operator_char(t),
{
    match t {
        TokenType::Equal => '=',
        TokenType::Bang => '!',
        TokenType::Less => '<',
        _ => '>',
    }
}

fn with_equals_of(t: TokenType) -> (r: TokenType)
    ensures
        r == with_equals(t),
{
    match t {
        TokenType::Equal => TokenType::EqualEqual,
        TokenType::Bang => TokenType::BangEqual,
        TokenType::Less => TokenType::LessEqual,
        _ => TokenType::GreaterEqual,
    }
}

impl Tokenizer {
    fn new() -> (r: Self)
        ensures
            r@ == initial_lexer(),
    {
        let r = Tokenizer {
            state: TokenizerState::Default,
            errors: Vec::new(),
            tokens: Vec::new(),
            curr_line: 1,
            curr_pos: 1,
            curr_token_start: 1,
        };
        assert(token_views(r.tokens@) =~= seq![]);
        r
    }

    /// Emits a token that starts at the current token start.
    fn push(&mut self, token_type: TokenType, lexeme: &Vec<char>, literal: String)
        ensures
            final(self)@ == emit(old(self)@, token_type, lexeme@, literal@),
    {
        let t = Token::new(token_type, chars_to_string(lexeme), literal, self.curr_line, self.curr_token_start);
        self.tokens.push(t);
        assert(token_views(self.tokens@) =~= token_views(old(self).tokens@).push(t@));
    }

    /// Handles a single character in the default state.
    fn handle_default(&mut self, c: char)
        requires
            old(self).curr_pos < usize::MAX,
            old(self).curr_line < usize::MAX,
        ensures
            final(self)@ == step_default(old(self)@, c),
    {
        self.state = TokenizerState::Default;
        self.curr_token_start = self.curr_pos;
        if let Some(t) = equals_prefix_type_of(c) {
            self.state = TokenizerState::WaitingEquals(t);
        } else if c == '/' {
            self.state = TokenizerState::WaitingSlash;
        } else if let Some(t) = single_char_type_of(c) {
            let lexeme = single_char_vec(c);
            self.push(t, &lexeme, null_string());
        } else if c == '"' {
            self.state = TokenizerState::Str(Vec::new());
        } else if is_digit_char(c) {
            self.state = TokenizerState::Number(single_char_vec(c));
        } else if is_alpha_char(c) {
            self.state = TokenizerState::Identifier(single_char_vec(c));
        } else if c == ' ' || c == '\r' || c == '\t' {
            // Whitespace is ignored.
        } else if c == '\n' {
            self.curr_line = self.curr_line + 1;
            self.curr_pos = 0;
        } else {
            self.errors.push(LexError { line: self.curr_line, kind: LexErrorKind::UnexpectedCharacter(c) });
        }
        self.curr_pos = self.curr_pos + 1;
    }

    /// Handles a single character of input, pushing tokens and updating the state as needed.
    fn handle_char(&mut self, c: char)
        requires
            !(old(self)@.state is Finished),
            old(self).curr_pos < usize::MAX,
            old(self).curr_line < usize::MAX,
        ensures
            final(self)@ == step(old(self)@, c),
    {
        let mut state = TokenizerState::Default;
        std::mem::swap(&mut self.state, &mut state);
        match state {
            TokenizerState::Finished => {
                self.state = TokenizerState::Finished;
            },
            TokenizerState::Default => {
                self.handle_default(c);
            },
            TokenizerState::WaitingEquals(t) => {
                if c == '=' {
                    let mut lexeme = single_char_vec(operator_char_of(t));
                    lexeme.push('=');
                    assert(lexeme@ =~= seq![operator_char(t), '=']);
                    self.push(with_equals_of(t), &lexeme, null_string());
                    self.curr_pos = self.curr_pos + 1;
                } else {
                    let lexeme = single_char_vec(operator_char_of(t));
                    self.push(t, &lexeme, null_string());
                    self.handle_default(c);
                }
            },
            TokenizerState::WaitingSlash => {
                if c == '/' {
                    self.state = TokenizerState::Comment;
                    self.curr_pos = self.curr_pos + 1;
                } else {
                    let lexeme = single_char_vec('/');
                    self.push(TokenType::Slash, &lexeme, null_string());
                    self.handle_default(c);
                }
            },
            TokenizerState::Comment => {
                if c == '\n' {
                    self.curr_line = self.curr_line + 1;
                    self.state = TokenizerState::Default;
                    self.curr_pos = 0;
                } else {
                    self.state = TokenizerState::Comment;
                }
                self.curr_pos = self.curr_pos + 1;
            },
            TokenizerState::Number(mut s) => {
                if is_digit_char(c) {
                    s.push(c);
                    self.state = TokenizerState::Number(s);
                    self.curr_pos = self.curr_pos + 1;
                } else if c == '.' {
                    s.push(c);
                    self.state = TokenizerState::NumberDot(s);
                    self.curr_pos = self.curr_pos + 1;
                } else {
                    let literal = chars_to_string(&canonical_number(&s));
                    self.push(TokenType::Number, &s, literal);
                    self.handle_default(c);
                }
            },
            TokenizerState::NumberDot(mut s) => {
                if is_digit_char(c) {
                    s.push(c);
                    self.state = TokenizerState::NumberDot(s);
                    self.curr_pos = self.curr_pos + 1;
                } else {
                    let literal = chars_to_string(&canonical_number(&s));
                    self.push(TokenType::Number, &s, literal);
                    self.handle_default(c);
                }
            },
            TokenizerState::Identifier(mut s) => {
                if is_alpha_char(c) || is_digit_char(c) {
                    s.push(c);
                    self.state = TokenizerState::Identifier(s);
                    self.curr_pos = self.curr_pos + 1;
                } else {
                    let t = word_type_of(&s);
                    self.push(t, &s, null_string());
                    self.handle_default(c);
                }
            },
            TokenizerState::Str(mut s) => {
                if c == '"' {
                    let mut lexeme = single_char_vec('"');
                    push_all(&mut lexeme, &s);
                    lexeme.push('"');
                    assert(lexeme@ =~= seq!['"'] + s@ + seq!['"']);
                    let literal = chars_to_string(&s);
                    self.push(TokenType::String, &lexeme, literal);
                    self.curr_pos = self.curr_pos + 1;
                } else if c == '\n' {
                    s.push(c);
                    self.state = TokenizerState::Str(s);
                    self.curr_line = self.curr_line + 1;
                    self.curr_pos = 1;
                } else {
                    s.push(c);
                    self.state = TokenizerState::Str(s);
                    self.curr_pos = self.curr_pos + 1;
                }
            },
        }
    }

    /// Handles the end of the input.
    fn handle_final_state(&mut self)
        ensures
            final(self)@ == finish(old(self)@),
    {
        let mut state = TokenizerState::Finished;
        std::mem::swap(&mut self.state, &mut state);
        match state {
            TokenizerState::WaitingEquals(t) => {
                let lexeme = single_char_vec(operator_char_of(t));
                self.push(t, &lexeme, null_string());
            },
            TokenizerState::WaitingSlash => {
                let lexeme = single_char_vec('/');
                self.push(TokenType::Slash, &lexeme, null_string());
            },
            TokenizerState::Number(s) | TokenizerState::NumberDot(s) => {
                let literal = chars_to_string(&canonical_number(&s));
                self.push(TokenType::Number, &s, literal);
            },
            TokenizerState::Identifier(s) => {
                let t = word_type_of(&s);
                self.push(t, &s, null_string());
            },
            TokenizerState::Str(_) => {
                self.errors.push(LexError { line: self.curr_line, kind: LexErrorKind::UnterminatedString });
            },
            _ => {},
        }
        self.state = TokenizerState::Finished;
    }
}

/// The tokenizer never moves more than one line or one column per character.
proof fn lemma_step_bounds(m: Lexer, c: char)
    requires
        m.pos >= 1,
    ensures
        step(m, c).line <= m.line + 1,
        step(m, c).line >= m.line,
        step(m, c).pos <= m.pos + 1,
        step(m, c).pos >= 1 || step(m, c).pos == m.pos,
        step(m, c).start == m.start || step(m, c).start == m.pos,
        step(m, c).tokens.len() >= m.tokens.len(),
{
}

/// The tokens emitted so far: none is `EOF`, and their lines start at 1,
/// never go back, and do not pass the current line `line`, which is at most `bound`.
pub open spec fn tokens_in_order(toks: Seq<SpecToken>, line: int, bound: int) -> bool {
    &&& 1 <= line <= bound
    &&& forall|i: int| 0 <= i < toks.len() ==> (#[trigger] toks[i]).token_type != TokenType::Eof
    &&& forall|i: int| 0 <= i < toks.len() ==> 1 <= (#[trigger] toks[i]).line <= line
    &&& forall|i: int, j: int| 0 <= i < j < toks.len() ==> #[trigger] toks[i].line <= #[trigger] toks[j].line
}

/// A pending `=`, `!`, `<` or `>` is one of those four.
pub open spec fn pending_ok(s: LexState) -> bool {
    s matches LexState::WaitingEquals(t) ==> (t == TokenType::Equal || t == TokenType::Bang || t == TokenType::Less
        || t == TokenType::Greater)
}

proof fn lemma_emit_in_order(m: Lexer, t: TokenType, lexeme: Seq<char>, literal: Seq<char>, bound: int)
    requires
        tokens_in_order(m.tokens, m.line, bound),
        bound <= usize::MAX,
        t != TokenType::Eof,
    ensures
        tokens_in_order(emit(m, t, lexeme, literal).tokens, m.line, bound),
{
    let ts = emit(m, t, lexeme, literal).tokens;
    assert forall|i: int, j: int| 0 <= i < j < ts.len() implies #[trigger] ts[i].line <= #[trigger] ts[j].line by {
        if j == ts.len() - 1 {
            assert(ts[i] == m.tokens[i]);
        }
    }
}

proof fn lemma_step_in_order(m: Lexer, c: char, bound: int)
    requires
        tokens_in_order(m.tokens, m.line, bound),
        pending_ok(m.state),
        m.line < bound <= usize::MAX,
    ensures
        tokens_in_order(step(m, c).tokens, step(m, c).line, bound),
        pending_ok(step(m, c).state),
{
    let d = Lexer { state: LexState::Default, start: m.pos, ..m };
    if single_char_type(c) is Some {
        lemma_emit_in_order(d, single_char_type(c)->0, seq![c], null_text(), bound);
    }
    match m.state {
        LexState::WaitingEquals(t) => {
            lemma_emit_in_order(to_default(m), with_equals(t), seq![operator_char(t), '='], null_text(), bound);
            lemma_emit_in_order(to_default(m), t, seq![operator_char(t)], null_text(), bound);
            let m2 = emit(to_default(m), t, seq![operator_char(t)], null_text());
            let d2 = Lexer { state: LexState::Default, start: m2.pos, ..m2 };
            if single_char_type(c) is Some {
                lemma_emit_in_order(d2, single_char_type(c)->0, seq![c], null_text(), bound);
            }
        },
        LexState::WaitingSlash => {
            lemma_emit_in_order(to_default(m), TokenType::Slash, seq!['/'], null_text(), bound);
            let m2 = emit(to_default(m), TokenType::Slash, seq!['/'], null_text());
            let d2 = Lexer { state: LexState::Default, start: m2.pos, ..m2 };
            if single_char_type(c) is Some {
                lemma_emit_in_order(d2, single_char_type(c)->0, seq![c], null_text(), bound);
            }
        },
        LexState::Number(s) | LexState::NumberDot(s) => {
            lemma_emit_in_order(to_default(m), TokenType::Number, s, number_literal(s), bound);
            let m2 = emit(to_default(m), TokenType::Number, s, number_literal(s));
            let d2 = Lexer { state: LexState::Default, start: m2.pos, ..m2 };
            if single_char_type(c) is Some {
                lemma_emit_in_order(d2, single_char_type(c)->0, seq![c], null_text(), bound);
            }
        },
        LexState::Identifier(s) => {
            lemma_emit_in_order(to_default(m), word_type(s), s, null_text(), bound);
            let m2 = emit(to_default(m), word_type(s), s, null_text());
            let d2 = Lexer { state: LexState::Default, start: m2.pos, ..m2 };
            if single_char_type(c) is Some {
                lemma_emit_in_order(d2, single_char_type(c)->0, seq![c], null_text(), bound);
            }
        },
        LexState::Str(s) => {
            lemma_emit_in_order(to_default(m), TokenType::String, seq!['"'] + s + seq!['"'], s, bound);
        },
        _ => {},
    }
}

proof fn lemma_prefix_in_order(cs: Seq<char>)
    requires
        cs.len() < usize::MAX,
    ensures
        tokens_in_order(lex_prefix(cs).tokens, lex_prefix(cs).line, (cs.len() + 1) as int),
        pending_ok(lex_prefix(cs).state),
        lex_prefix(cs).line <= (cs.len() + 1) as int,
    decreases cs.len(),
{
    if cs.len() > 0 {
        let prev = cs.drop_last();
        lemma_prefix_in_order(prev);
        lemma_step_in_order(lex_prefix(prev), cs.last(), (cs.len() + 1) as int);
        let m = lex_prefix(prev);
        assert(tokens_in_order(m.tokens, m.line, (cs.len() + 1) as int));
    }
}

/// A character that may continue a word: an ASCII letter, a digit or `_`.
pub open spec fn word_char(c: char) -> bool {
    c == '_' || ('a' <= c <= 'z') || ('A' <= c <= 'Z') || ('0' <= c <= '9')
}

/// A character that may start a word: an ASCII letter or `_`.
pub open spec fn word_start(c: char) -> bool {
    c == '_' || ('a' <= c <= 'z') || ('A' <= c <= 'Z')
}

/// One step keeps the tokens emitted so far, adding at most two.
proof fn lemma_step_keeps_tokens(m: Lexer, c: char)
    ensures
        m.tokens.len() <= step(m, c).tokens.len(),
        forall|i: int| 0 <= i < m.tokens.len() ==> step(m, c).tokens[i] == m.tokens[i],
{
}

/// Reading more input keeps the tokens emitted so far, and so does the end of input.
proof fn lemma_prefix_keeps_tokens(cs: Seq<char>, more: Seq<char>)
    ensures
        lex_prefix(cs).tokens.len() <= lex_prefix(cs + more).tokens.len(),
        forall|i: int| 0 <= i < lex_prefix(cs).tokens.len() ==> lex_prefix(cs + more).tokens[i] == lex_prefix(cs).tokens[i],
        lex_prefix(cs).tokens.len() <= lex_final(cs + more).tokens.len(),
        forall|i: int| 0 <= i < lex_prefix(cs).tokens.len() ==> lex_final(cs + more).tokens[i] == lex_prefix(cs).tokens[i],
    decreases more.len(),
{
    if more.len() == 0 {
        assert(cs + more =~= cs);
    } else {
        let shorter = more.drop_last();
        lemma_prefix_keeps_tokens(cs, shorter);
        assert((cs + more).drop_last() =~= cs + shorter);
        lemma_step_keeps_tokens(lex_prefix(cs + shorter), more.last());
    }
}

/// While reading a word, the tokenizer holds it as one identifier in progress.
proof fn lemma_word_in_progress(w: Seq<char>, k: int)
    requires
        1 <= k <= w.len(),
        word_start(w[0]),
        forall|i: int| 0 <= i < w.len() ==> #[trigger] word_char(w[i]),
    ensures
        lex_prefix(w.take(k)) == (Lexer {
            state: LexState::Identifier(w.take(k)),
            errors: seq![],
            tokens: seq![],
            line: 1,
            pos: k + 1,
            start: 1,
        }),
    decreases k,
{
    assert(w.take(k).drop_last() =~= w.take(k - 1));
    if k == 1 {
        assert(w.take(0) =~= Seq::<char>::empty());
        assert(seq![w[0]] =~= w.take(1));
    } else {
        lemma_word_in_progress(w, k - 1);
        assert(word_char(w[k - 1]));
        assert(w.take(k - 1).push(w[k - 1]) =~= w.take(k));
    }
}

/// The tokenizer reads a word as long as it goes: for an input that starts
/// with a word (letters, digits and `_`, not starting with a digit) followed
/// by anything that cannot continue it, the first token is that whole word,
/// an identifier unless the word is a keyword, at line 1, column 1.
pub proof fn lemma_word_is_one_token(w: Seq<char>, rest: Seq<char>)
    requires
        w.len() > 0,
        word_start(w[0]),
        forall|i: int| 0 <= i < w.len() ==> #[trigger] word_char(w[i]),
        rest.len() == 0 || !word_char(rest[0]),
    ensures
        spec_tokens(w + rest)[0] == (SpecToken {
            token_type: match keyword_type(w) {
                Some(t) => t,
                None => TokenType::Identifier,
            },
            lexeme: w,
            literal: null_text(),
            line: 1,
            col: 1,
        }),
{
    lemma_word_in_progress(w, w.len() as int);
    assert(w.take(w.len() as int) =~= w);
    let m = lex_prefix(w);
    let tok = SpecToken { token_type: word_type(w), lexeme: w, literal: null_text(), line: 1, col: 1 };
    if rest.len() == 0 {
        assert(w + rest =~= w);
        assert(lex_final(w).tokens[0] == tok);
    } else {
        let first = w.push(rest[0]);
        assert(first.drop_last() =~= w);
        assert(lex_prefix(first) == step(m, rest[0]));
        lemma_step_default_region(emit(to_default(m), word_type(w), w, null_text()), rest[0]);
        assert(lex_prefix(first).tokens.len() >= 1);
        assert(lex_prefix(first).tokens[0] == tok);
        lemma_prefix_keeps_tokens(first, rest.drop_first());
        assert(first + rest.drop_first() =~= w + rest);
    }
}

/// A decimal digit.
pub open spec fn decimal_digit(c: char) -> bool {
    '0' <= c <= '9'
}

/// While reading the digits of a number, the tokenizer holds them as one
/// number in progress.
proof fn lemma_digits_in_progress(d: Seq<char>, k: int)
    requires
        1 <= k <= d.len(),
        forall|i: int| 0 <= i < d.len() ==> #[trigger] decimal_digit(d[i]),
    ensures
        lex_prefix(d.take(k)) == (Lexer {
            state: LexState::Number(d.take(k)),
            errors: seq![],
            tokens: seq![],
            line: 1,
            pos: k + 1,
            start: 1,
        }),
    decreases k,
{
    assert(d.take(k).drop_last() =~= d.take(k - 1));
    assert(decimal_digit(d[k - 1]));
    if k == 1 {
        assert(d.take(0) =~= Seq::<char>::empty());
        assert(seq![d[0]] =~= d.take(1));
    } else {
        lemma_digits_in_progress(d, k - 1);
        assert(d.take(k - 1).push(d[k - 1]) =~= d.take(k));
    }
}

/// After digits, a `.` and more digits, the tokenizer holds them all as one
/// number in progress.
proof fn lemma_fraction_in_progress(a: Seq<char>, b: Seq<char>, k: int)
    requires
        a.len() > 0,
        forall|i: int| 0 <= i < a.len() ==> #[trigger] decimal_digit(a[i]),
        forall|i: int| 0 <= i < b.len() ==> #[trigger] decimal_digit(b[i]),
        0 <= k <= b.len(),
    ensures
        lex_prefix(a + seq!['.'] + b.take(k)) == (Lexer {
            state: LexState::NumberDot(a + seq!['.'] + b.take(k)),
            errors: seq![],
            tokens: seq![],
            line: 1,
            pos: a.len() + k + 2,
            start: 1,
        }),
    decreases k,
{
    let n = a + seq!['.'] + b.take(k);
    if k == 0 {
        lemma_digits_in_progress(a, a.len() as int);
        assert(a.take(a.len() as int) =~= a);
        assert(n.drop_last() =~= a);
        assert(a.push('.') =~= n);
    } else {
        lemma_fraction_in_progress(a, b, k - 1);
        assert(n.drop_last() =~= a + seq!['.'] + b.take(k - 1));
        assert(decimal_digit(b[k - 1]));
        assert((a + seq!['.'] + b.take(k - 1)).push(b[k - 1]) =~= n);
    }
}

/// The tokenizer reads a whole number as long as it goes: for an input that
/// starts with digits followed by anything but a digit or a `.`, the first
/// token is the number of all those digits, at line 1, column 1.
pub proof fn lemma_whole_number_is_one_token(d: Seq<char>, rest: Seq<char>)
    requires
        d.len() > 0,
        forall|i: int| 0 <= i < d.len() ==> #[trigger] decimal_digit(d[i]),
        rest.len() == 0 || !(decimal_digit(rest[0]) || rest[0] == '.'),
    ensures
        spec_tokens(d + rest)[0] == (SpecToken {
            token_type: TokenType::Number,
            lexeme: d,
            literal: number_literal(d),
            line: 1,
            col: 1,
        }),
{
    lemma_digits_in_progress(d, d.len() as int);
    assert(d.take(d.len() as int) =~= d);
    let m = lex_prefix(d);
    let tok = SpecToken { token_type: TokenType::Number, lexeme: d, literal: number_literal(d), line: 1, col: 1 };
    if rest.len() == 0 {
        assert(d + rest =~= d);
        assert(lex_final(d).tokens[0] == tok);
    } else {
        let first = d.push(rest[0]);
        assert(first.drop_last() =~= d);
        assert(lex_prefix(first) == step(m, rest[0]));
        assert(lex_prefix(first).tokens[0] == tok);
        lemma_prefix_keeps_tokens(first, rest.drop_first());
        assert(first + rest.drop_first() =~= d + rest);
    }
}

/// The tokenizer reads a number with a fraction as long as it goes: for an
/// input that starts with digits, a `.` and digits, followed by anything but
/// a digit, the first token is that whole number, at line 1, column 1.
pub proof fn lemma_decimal_number_is_one_token(a: Seq<char>, b: Seq<char>, rest: Seq<char>)
    requires
        a.len() > 0,
        forall|i: int| 0 <= i < a.len() ==> #[trigger] decimal_digit(a[i]),
        forall|i: int| 0 <= i < b.len() ==> #[trigger] decimal_digit(b[i]),
        rest.len() == 0 || !decimal_digit(rest[0]),
    ensures
        spec_tokens(a + seq!['.'] + b + rest)[0] == (SpecToken {
            token_type: TokenType::Number,
            lexeme: a + seq!['.'] + b,
            literal: number_literal(a + seq!['.'] + b),
            line: 1,
            col: 1,
        }),
{
    lemma_fraction_in_progress(a, b, b.len() as int);
    assert(b.take(b.len() as int) =~= b);
    let n = a + seq!['.'] + b;
    let m = lex_prefix(n);
    let tok = SpecToken { token_type: TokenType::Number, lexeme: n, literal: number_literal(n), line: 1, col: 1 };
    if rest.len() == 0 {
        assert(n + rest =~= n);
        assert(lex_final(n).tokens[0] == tok);
    } else {
        let first = n.push(rest[0]);
        assert(first.drop_last() =~= n);
        assert(lex_prefix(first) == step(m, rest[0]));
        assert(lex_prefix(first).tokens[0] == tok);
        lemma_prefix_keeps_tokens(first, rest.drop_first());
        assert(first + rest.drop_first() =~= n + rest);
    }
}

/// While reading a string literal, the tokenizer holds its text so far.
proof fn lemma_string_in_progress(text: Seq<char>, k: int)
    requires
        0 <= k <= text.len(),
        forall|i: int| 0 <= i < text.len() ==> #[trigger] text[i] != '"' && text[i] != '\n',
    ensures
        lex_prefix(seq!['"'] + text.take(k)) == (Lexer {
            state: LexState::Str(text.take(k)),
            errors: seq![],
            tokens: seq![],
            line: 1,
            pos: k + 2,
            start: 1,
        }),
    decreases k,
{
    let cs = seq!['"'] + text.take(k);
    if k == 0 {
        assert(cs =~= seq!['"']);
        assert(cs.drop_last() =~= Seq::<char>::empty());
        assert(text.take(0) =~= Seq::<char>::empty());
        assert(lex_prefix(cs.drop_last()) == initial_lexer());
        assert(cs.last() == '"');
        assert(lex_prefix(cs) == step(initial_lexer(), '"'));
    } else {
        lemma_string_in_progress(text, k - 1);
        assert(cs.drop_last() =~= seq!['"'] + text.take(k - 1));
        assert(cs.last() == text[k - 1]);
        assert(lex_prefix(cs) == step(lex_prefix(seq!['"'] + text.take(k - 1)), text[k - 1]));
        assert(text[k - 1] != '"' && text[k - 1] != '\n');
        assert(text.take(k - 1).push(text[k - 1]) =~= text.take(k));
    }
}

/// A string literal on one line is one token: for an input that starts with
/// `"`, text without `"` or line breaks, and `"`, the first token is the
/// string, its lexeme the quoted text and its literal the text inside the
/// quotes, at line 1, column 1.
pub proof fn lemma_string_is_one_token(text: Seq<char>, rest: Seq<char>)
    requires
        forall|i: int| 0 <= i < text.len() ==> #[trigger] text[i] != '"' && text[i] != '\n',
    ensures
        spec_tokens(seq!['"'] + text + seq!['"'] + rest)[0] == (SpecToken {
            token_type: TokenType::String,
            lexeme: seq!['"'] + text + seq!['"'],
            literal: text,
            line: 1,
            col: 1,
        }),
{
    lemma_string_in_progress(text, text.len() as int);
    assert(text.take(text.len() as int) =~= text);
    let open = seq!['"'] + text;
    let closed = open.push('"');
    assert(closed.drop_last() =~= open);
    assert(closed =~= seq!['"'] + text + seq!['"']);
    let tok = SpecToken { token_type: TokenType::String, lexeme: closed, literal: text, line: 1, col: 1 };
    assert(lex_prefix(closed) == step(lex_prefix(open), '"'));
    assert(lex_prefix(closed).tokens[0] == tok);
    lemma_prefix_keeps_tokens(closed, rest);
}

/// No token of a prefix is an `EOF` token, and an operator waiting for a
/// possible `=` is not one either.
proof fn lemma_prefix_no_eof(cs: Seq<char>)
    ensures
        forall|i: int| 0 <= i < lex_prefix(cs).tokens.len() ==> (#[trigger] lex_prefix(cs).tokens[i]).token_type
            != TokenType::Eof,
        lex_prefix(cs).state matches LexState::WaitingEquals(t) ==> t != TokenType::Eof,
    decreases cs.len(),
{
    if cs.len() > 0 {
        let p = cs.drop_last();
        lemma_prefix_no_eof(p);
        let m = lex_prefix(p);
        let n = lex_prefix(cs);
        assert(n == step(m, cs.last()));
    }
}

/// The tokens of any input end with the `EOF` token, and no other token is one.
pub proof fn lemma_eof_only_last(input: Seq<char>)
    ensures
        spec_tokens(input).len() >= 1,
        spec_tokens(input).last().token_type == TokenType::Eof,
        forall|i: int| 0 <= i < spec_tokens(input).len() - 1 ==> (#[trigger] spec_tokens(input)[i]).token_type
            != TokenType::Eof,
{
    lemma_prefix_no_eof(input);
}

/// The tokens of any input end with the one `EOF` token (empty lexeme,
/// literal `null`), no other token is `EOF`, and line numbers start at 1 and
/// never decrease.
pub proof fn lemma_token_stream_shape(input: Seq<char>)
    requires
        input.len() < usize::MAX - 1,
    ensures
        spec_tokens(input).len() >= 1,
        spec_tokens(input).last().token_type == TokenType::Eof,
        spec_tokens(input).last().lexeme == Seq::<char>::empty(),
        spec_tokens(input).last().literal == null_text(),
        forall|i: int| 0 <= i < spec_tokens(input).len() - 1 ==> (#[trigger] spec_tokens(input)[i]).token_type
            != TokenType::Eof,
        forall|i: int| 0 <= i < spec_tokens(input).len() ==> (#[trigger] spec_tokens(input)[i]).line >= 1,
        forall|i: int, j: int| 0 <= i < j < spec_tokens(input).len() ==> #[trigger] spec_tokens(input)[i].line
            <= #[trigger] spec_tokens(input)[j].line,
{
    lemma_prefix_in_order(input);
    let m = lex_prefix(input);
    let bound = (input.len() + 1) as int;
    match m.state {
        LexState::WaitingEquals(t) => lemma_emit_in_order(m, t, seq![operator_char(t)], null_text(), bound),
        LexState::WaitingSlash => lemma_emit_in_order(m, TokenType::Slash, seq!['/'], null_text(), bound),
        LexState::Number(s) => lemma_emit_in_order(m, TokenType::Number, s, number_literal(s), bound),
        LexState::NumberDot(s) => lemma_emit_in_order(m, TokenType::Number, s, number_literal(s), bound),
        LexState::Identifier(s) => lemma_emit_in_order(m, word_type(s), s, null_text(), bound),
        _ => {},
    }
    let f = lex_final(input);
    assert(tokens_in_order(f.tokens, f.line, bound));
    let ts = spec_tokens(input);
    assert forall|i: int, j: int| 0 <= i < j < ts.len() implies #[trigger] ts[i].line <= #[trigger] ts[j].line by {
        if j == ts.len() - 1 {
            assert(ts[i] == f.tokens[i]);
        }
    }
}

/// Whether a token is still pending in the machine state (it is emitted on a later character).
pub open spec fn pending(s: LexState) -> int {
    match s {
        LexState::WaitingEquals(_) | LexState::WaitingSlash | LexState::Number(_) | LexState::NumberDot(_)
        | LexState::Identifier(_) => 1,
        _ => 0,
    }
}

/// After `k` characters: positions stay within `k + 1`, no more tokens were
/// emitted (or are pending) than characters read, and no token or partial
/// token is longer than the characters read.
pub open spec fn lexer_fits(m: Lexer, k: int) -> bool {
    &&& 1 <= m.pos <= k + 1
    &&& 1 <= m.start <= k + 1
    &&& m.tokens.len() + pending(m.state) <= k
    &&& forall|i: int| 0 <= i < m.tokens.len() ==> (#[trigger] m.tokens[i]).col <= k + 1 && m.tokens[i].lexeme.len()
        <= k + 1
    &&& match m.state {
        LexState::Number(s) | LexState::NumberDot(s) | LexState::Identifier(s) => s.len() <= k,
        LexState::Str(s) => s.len() + 1 <= k,
        _ => true,
    }
}

proof fn lemma_emit_fits(m: Lexer, t: TokenType, lexeme: Seq<char>, literal: Seq<char>, k: int)
    requires
        lexer_fits(m, k),
        m.tokens.len() + 1 + pending(m.state) <= k + 1,
        lexeme.len() <= k + 1,
        k + 1 <= usize::MAX,
    ensures
        emit(m, t, lexeme, literal).tokens.len() == m.tokens.len() + 1,
        forall|i: int| 0 <= i < emit(m, t, lexeme, literal).tokens.len() ==> (#[trigger] emit(
            m,
            t,
            lexeme,
            literal,
        ).tokens[i]).col <= k + 1 && emit(m, t, lexeme, literal).tokens[i].lexeme.len() <= k + 1,
{
    let ts = emit(m, t, lexeme, literal).tokens;
    assert forall|i: int| 0 <= i < ts.len() implies (#[trigger] ts[i]).col <= k + 1 && ts[i].lexeme.len() <= k + 1 by {
        if i < m.tokens.len() {
            assert(ts[i] == m.tokens[i]);
        }
    }
}

/// The default-state step after `k` characters, from a state with nothing pending.
proof fn lemma_default_fits(m0: Lexer, c: char, k: int)
    requires
        lexer_fits(m0, k),
        pending(m0.state) == 0,
        k + 2 <= usize::MAX,
    ensures
        lexer_fits(step_default(m0, c), k + 1),
{
    let m = Lexer { state: LexState::Default, start: m0.pos, ..m0 };
    if single_char_type(c) is Some {
        lemma_emit_fits(m, single_char_type(c)->0, seq![c], null_text(), k + 1);
    }
}

proof fn lemma_step_fits(m: Lexer, c: char, k: int)
    requires
        lexer_fits(m, k),
        k + 2 <= usize::MAX,
    ensures
        lexer_fits(step(m, c), k + 1),
{
    match m.state {
        LexState::Default => lemma_default_fits(m, c, k),
        LexState::WaitingEquals(t) => {
            let m2 = emit(to_default(m), t, seq![operator_char(t)], null_text());
            lemma_emit_fits(to_default(m), t, seq![operator_char(t)], null_text(), k);
            lemma_emit_fits(to_default(m), with_equals(t), seq![operator_char(t), '='], null_text(), k + 1);
            if c != '=' {
                lemma_default_fits(m2, c, k);
            }
        },
        LexState::WaitingSlash => {
            let m2 = emit(to_default(m), TokenType::Slash, seq!['/'], null_text());
            lemma_emit_fits(to_default(m), TokenType::Slash, seq!['/'], null_text(), k);
            if c != '/' {
                lemma_default_fits(m2, c, k);
            }
        },
        LexState::Number(s) | LexState::NumberDot(s) => {
            let m2 = emit(to_default(m), TokenType::Number, s, number_literal(s));
            lemma_emit_fits(to_default(m), TokenType::Number, s, number_literal(s), k);
            if !is_digit(c) && !(c == '.' && m.state is Number) {
                lemma_default_fits(m2, c, k);
            }
        },
        LexState::Identifier(s) => {
            let m2 = emit(to_default(m), word_type(s), s, null_text());
            lemma_emit_fits(to_default(m), word_type(s), s, null_text(), k);
            if !is_alnum(c) {
                lemma_default_fits(m2, c, k);
            }
        },
        LexState::Str(s) => {
            lemma_emit_fits(to_default(m), TokenType::String, seq!['"'] + s + seq!['"'], s, k + 1);
        },
        _ => {},
    }
}

proof fn lemma_prefix_fits(cs: Seq<char>)
    requires
        cs.len() + 2 <= usize::MAX,
    ensures
        lexer_fits(lex_prefix(cs), cs.len() as int),
    decreases cs.len(),
{
    if cs.len() > 0 {
        lemma_prefix_fits(cs.drop_last());
        lemma_step_fits(lex_prefix(cs.drop_last()), cs.last(), (cs.len() - 1) as int);
    }
}

proof fn lemma_utf8_width(s: Seq<char>)
    ensures
        vstd::utf8::encode_utf8(s).len() <= 4 * s.len(),
    decreases s.len(),
{
    if s.len() > 0 {
        lemma_utf8_width(s.drop_first());
    }
}

/// Every token list the tokenizer produces for an input of fewer than
/// `usize::MAX / 8` characters meets what `parse` asks of its input: it is no
/// longer than the input plus one, and every token's end column fits in a
/// machine word. It also ends with `EOF`.
pub proof fn lemma_tokens_ready_for_parsing(input: Seq<char>)
    requires
        input.len() < usize::MAX / 8,
    ensures
        spec_tokens(input).len() <= input.len() + 1,
        ends_with_eof(spec_tokens(input)),
        tokens_fit(spec_tokens(input)),
{
    let k = input.len() as int;
    lemma_prefix_fits(input);
    let m = lex_prefix(input);
    match m.state {
        LexState::WaitingEquals(t) => lemma_emit_fits(m, t, seq![operator_char(t)], null_text(), k),
        LexState::WaitingSlash => lemma_emit_fits(m, TokenType::Slash, seq!['/'], null_text(), k),
        LexState::Number(s) => lemma_emit_fits(m, TokenType::Number, s, number_literal(s), k),
        LexState::NumberDot(s) => lemma_emit_fits(m, TokenType::Number, s, number_literal(s), k),
        LexState::Identifier(s) => lemma_emit_fits(m, word_type(s), s, null_text(), k),
        _ => {},
    }
    let f = lex_final(input);
    assert(f.tokens.len() <= k);
    assert(forall|i: int| 0 <= i < f.tokens.len() ==> (#[trigger] f.tokens[i]).col <= k + 1
        && f.tokens[i].lexeme.len() <= k + 1);
    let ts = spec_tokens(input);
    assert forall|i: int| 0 <= i < ts.len() implies (#[trigger] ts[i]).col + width(ts[i].lexeme) <= usize::MAX by {
        lemma_utf8_width(ts[i].lexeme);
        if i < f.tokens.len() {
            assert(ts[i] == f.tokens[i]);
        }
        assert(ts[i].col <= k + 1);
        assert(ts[i].lexeme.len() <= k + 1);
    }
}

/// Applies the tokenizer to the input and returns the tokens and the errors found, in order.
///
/// A `NUMBER` token's literal is the displayed form of its text
/// (`number_literal`: `12` gives `12.0`, `3.50` gives `3.5`). It equals the
/// text Rust prints for the number's `f64` value (with one decimal when the
/// value is whole) for every literal of at most 15 significant digits whose
/// value is zero or lies in `[1e-307, 1e15)`; for other literals the printed
/// `f64` value may differ from it.
pub fn tokenize_with_errors(input: &str) -> (r: (Vec<Token>, Vec<LexError>))
    requires
        input@.len() < usize::MAX - 1,
    ensures
        token_views(r.0@) == spec_tokens(input@),
        r.0@.len() >= 1,
        r.0@.last().token_type == TokenType::Eof,
        forall|i: int| 0 <= i < r.0@.len() - 1 ==> (#[trigger] r.0@[i]).token_type != TokenType::Eof,
        r.1@ == spec_lex_errors(input@),
{
    let mut tokenizer = Tokenizer::new();
    for c in it: input.chars()
        invariant
            it.seq() == input@,
            input@.len() < usize::MAX - 1,
            tokenizer@ == lex_prefix(input@.take(it.index())),
            1 <= tokenizer.curr_line <= it.index() + 1,
            1 <= tokenizer.curr_pos <= it.index() + 1,
            tokenizer.curr_token_start <= it.index() + 1,
            !(tokenizer@.state is Finished),
    {
        let ghost before = tokenizer@;
        proof {
            lemma_step_bounds(before, c);
            assert(input@.take(it.index() + 1).drop_last() == input@.take(it.index()));
        }
        tokenizer.handle_char(c);
    }
    proof {
        assert(input@.take(input@.len() as int) == input@);
    }
    tokenizer.handle_final_state();
    let empty: Vec<char> = Vec::new();
    tokenizer.push(TokenType::Eof, &empty, null_string());
    proof {
        let ts = tokenizer.tokens@;
        assert(token_views(ts).len() == ts.len());
        assert(token_views(ts)[ts.len() - 1] == ts[ts.len() - 1]@);
        lemma_eof_only_last(input@);
        assert forall|i: int| 0 <= i < ts.len() - 1 implies (#[trigger] ts[i]).token_type != TokenType::Eof by {
            assert(token_views(ts)[i] == ts[i]@);
        }
    }
    (tokenizer.tokens, tokenizer.errors)
}

/// Applies the tokenizer to the input and returns the list of tokens and whether any
/// errors were encountered.
///
/// A `NUMBER` token's literal is the displayed form of its text, as for
/// `tokenize_with_errors`.
pub fn tokenize(input: &str) -> (r: (Vec<Token>, bool))
    requires
        input@.len() < usize::MAX - 1,
    ensures
        token_views(r.0@) == spec_tokens(input@),
        r.0@.len() >= 1,
        r.0@.last().token_type == TokenType::Eof,
        forall|i: int| 0 <= i < r.0@.len() - 1 ==> (#[trigger] r.0@[i]).token_type != TokenType::Eof,
        r.1 == (spec_lex_errors(input@).len() > 0),
{
    let (tokens, errors) = tokenize_with_errors(input);
    (tokens, errors.len() > 0)
}

} // verus!
