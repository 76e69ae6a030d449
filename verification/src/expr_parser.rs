//! The expression rules of the Lox grammar, as spec functions over token
//! sequences, and the recursive-descent functions proved to compute them.
//!
//! Each `spec_*` function describes one rule: given the tokens and a position,
//! it yields the parsed expression and the position after it, or the syntax
//! error found. The statement rules in `parser` build on these.

use vstd::prelude::*;
use crate::span::{Location, Span};
use crate::token::{Token, TokenType, SpecToken};
use crate::tokenizer::token_views;
use crate::number::{float_text_ok, is_float_text, printed_number, printed_number_text};
use crate::ast::{
    Literal, Operator, PrimaryEnum, Primary, ExpressionEnum, Arguments, Expression, SLiteral, SOperator,
    SPrimaryEnum, SPrimary, SExpressionEnum, SExpression, expr_view, exprs_view, primary_view, operator_view,
};
use crate::grammar::{
    ParseError, ParseErrorKind, SParseError, width, tokens_fit, loc, tok_start, tok_end, tok_span, is_at, end_err,
    err_tok, err_lexeme, prev_tok, prim_expr, binary_op_matches, binary_node,
};

verus! {

pub open spec fn expr_res(r: Result<(Expression, usize), ParseError>) -> Result<(SExpression, int), SParseError> {
    match r {
        Ok((e, p)) => Ok((expr_view(e), p as int)),
        Err(e) => Err(e@),
    }
}

/// The position after a successful result lies within `(pos, len]`.
pub open spec fn advances<T>(r: Result<(T, usize), ParseError>, pos: usize, len: nat) -> bool {
    r matches Ok((_, p)) ==> pos < p <= len
}

// ---------------------------------------------------------------------------
// Expressions
// ---------------------------------------------------------------------------

/// `primary → NUMBER | STRING | "true" | "false" | "nil" | "(" expression ")" | IDENTIFIER`
#[verifier::opaque]
pub open spec fn spec_primary(toks: Seq<SpecToken>, pos: int) -> Result<(SExpression, int), SParseError>
    decreases toks.len() - pos, 1int,
{
    if !(0 <= pos < toks.len()) {
        Err(end_err())
    } else {
        let t = toks[pos];
        let lit = |l: SLiteral| Ok((prim_expr(SPrimary { p: SPrimaryEnum::Literal(l), span: tok_span(t) }), pos + 1));
        match t.token_type {
            TokenType::Number => if is_float_text(t.literal) {
                lit(SLiteral::Number(printed_number(t.literal)))
            } else {
                Err(SParseError { kind: ParseErrorKind::InvalidNumber, line: t.line, col: t.col, text: t.literal })
            },
            TokenType::String => lit(SLiteral::Str(t.literal)),
            TokenType::True => lit(SLiteral::True),
            TokenType::False => lit(SLiteral::False),
            TokenType::Nil => lit(SLiteral::Nil),
            TokenType::LeftParen => match spec_expression(toks, pos + 1) {
                Err(e) => Err(e),
                Ok((e, p)) => if !(0 <= p < toks.len()) {
                    Err(err_tok(ParseErrorKind::ExpectedRParenAtEof, prev_tok(toks, p)))
                } else if toks[p].token_type != TokenType::RightParen {
                    Err(err_tok(ParseErrorKind::ExpectedRParen, toks[p]))
                } else {
                    Ok((
                        prim_expr(SPrimary {
                            p: SPrimaryEnum::Grouping(Box::new(e)),
                            span: Span { start: tok_start(t), end: tok_end(toks[p]) },
                        }),
                        p + 1,
                    ))
                },
            },
            TokenType::Identifier => Ok((
                prim_expr(SPrimary { p: SPrimaryEnum::Identifier(t.lexeme, pos as usize), span: tok_span(t) }),
                pos + 1,
            )),
            _ => Err(err_lexeme(ParseErrorKind::UnexpectedToken, t)),
        }
    }
}

/// The arguments of a call, starting at `pos`: expressions separated by commas.
#[verifier::opaque]
pub open spec fn spec_arguments(toks: Seq<SpecToken>, pos: int, acc: Seq<SExpression>) -> Result<(Seq<SExpression>, int), SParseError>
    decreases toks.len() - pos, 27int,
{
    match spec_expression(toks, pos) {
        Err(e) => Err(e),
        Ok((e, p)) => {
            let acc2 = acc.push(e);
            if is_at(toks, p, TokenType::Comma) {
                if p + 1 > pos { spec_arguments(toks, p + 1, acc2) } else { Err(end_err()) }
            } else {
                Ok((acc2, p))
            }
        },
    }
}

/// Zero or more call suffixes `( arguments? )` applied to `callee`.
#[verifier::opaque]
pub open spec fn spec_call_rest(toks: Seq<SpecToken>, pos: int, callee: SExpression) -> Result<(SExpression, int), SParseError>
    decreases toks.len() - pos, 2int,
{
    if !is_at(toks, pos, TokenType::LeftParen) {
        Ok((callee, pos))
    } else {
        let lp = toks[pos];
        let p1 = pos + 1;
        let args: Result<(Option<(Seq<SExpression>, Span)>, int), SParseError> =
            if 0 <= p1 < toks.len() && toks[p1].token_type != TokenType::RightParen {
                match spec_arguments(toks, p1, seq![]) {
                    Err(e) => Err(e),
                    Ok((a, p2)) => Ok((
                        Some((a, Span { start: tok_start(lp), end: loc(prev_tok(toks, p2).line, prev_tok(toks, p2).col) })),
                        p2,
                    )),
                }
            } else {
                Ok((None, p1))
            };
        match args {
            Err(e) => Err(e),
            Ok((a, p2)) => if !(0 <= p2 < toks.len()) {
                Err(end_err())
            } else if toks[p2].token_type != TokenType::RightParen {
                Err(err_tok(ParseErrorKind::ExpectedRParenAfterArguments, toks[p2]))
            } else {
                let span = Span { start: callee.span.start, end: tok_end(toks[p2]) };
                let (args_seq, args_span) = match a {
                    Some(x) => x,
                    None => (seq![], span),
                };
                let e = SExpression {
                    expr: SExpressionEnum::Call(Box::new(callee), args_seq, args_span),
                    span,
                };
                if p2 + 1 > pos { spec_call_rest(toks, p2 + 1, e) } else { Err(end_err()) }
            },
        }
    }
}

/// `call → primary ( "(" arguments? ")" )*`
#[verifier::opaque]
pub open spec fn spec_call(toks: Seq<SpecToken>, pos: int) -> Result<(SExpression, int), SParseError>
    decreases toks.len() - pos, 3int,
{
    match spec_primary(toks, pos) {
        Err(e) => Err(e),
        Ok((e, p)) => if p >= pos && p <= toks.len() { spec_call_rest(toks, p, e) } else { Err(end_err()) },
    }
}

/// `unary → ( "!" | "-" ) unary | call`
#[verifier::opaque]
pub open spec fn spec_unary(toks: Seq<SpecToken>, pos: int) -> Result<(SExpression, int), SParseError>
    decreases toks.len() - pos, 4int,
{
    if !(0 <= pos < toks.len()) {
        Err(end_err())
    } else {
        let t = toks[pos];
        if t.token_type == TokenType::Minus || t.token_type == TokenType::Bang {
            let op = SOperator { op: t.lexeme, span: tok_span(t) };
            match spec_unary(toks, pos + 1) {
                Err(e) => Err(e),
                Ok((r, p)) => Ok((
                    SExpression {
                        expr: SExpressionEnum::Unary(op, Box::new(r)),
                        span: Span { start: tok_start(t), end: r.span.end },
                    },
                    p,
                )),
            }
        } else {
            spec_call(toks, pos)
        }
    }
}

/// The operand rule of a binary level: the next tighter level (unary below factor).
#[verifier::opaque]
pub open spec fn spec_operand(toks: Seq<SpecToken>, pos: int, level: int) -> Result<(SExpression, int), SParseError>
    decreases toks.len() - pos, if level <= 1 { 7int } else { 3 * level + 4 },
{
    if level <= 1 {
        spec_unary(toks, pos)
    } else {
        spec_binary(toks, pos, level - 1)
    }
}

/// Left-associative operators of a binary level applied to `left`.
#[verifier::opaque]
pub open spec fn spec_binary_rest(toks: Seq<SpecToken>, pos: int, level: int, left: SExpression) -> Result<(SExpression, int), SParseError>
    decreases toks.len() - pos, 3 * level + 5,
{
    if 0 <= pos < toks.len() && binary_op_matches(level, toks[pos].token_type) {
        let t = toks[pos];
        let op = SOperator { op: t.lexeme, span: tok_span(t) };
        match spec_operand(toks, pos + 1, level) {
            Err(e) => Err(e),
            Ok((r, p)) => {
                let e = SExpression {
                    expr: binary_node(level, op, left, r),
                    span: Span { start: left.span.start, end: r.span.end },
                };
                if p > pos && p <= toks.len() { spec_binary_rest(toks, p, level, e) } else { Err(end_err()) }
            },
        }
    } else {
        Ok((left, pos))
    }
}

/// A binary precedence level: `operand ( op operand )*`.
#[verifier::opaque]
pub open spec fn spec_binary(toks: Seq<SpecToken>, pos: int, level: int) -> Result<(SExpression, int), SParseError>
    decreases toks.len() - pos, 3 * level + 6,
{
    if level < 1 || level > 6 {
        Err(end_err())
    } else {
        match spec_operand(toks, pos, level) {
            Err(e) => Err(e),
            Ok((l, p)) => if p >= pos && p <= toks.len() { spec_binary_rest(toks, p, level, l) } else { Err(end_err()) },
        }
    }
}

/// `assignment → IDENTIFIER "=" assignment | logic_or`
#[verifier::opaque]
pub open spec fn spec_assignment(toks: Seq<SpecToken>, pos: int) -> Result<(SExpression, int), SParseError>
    decreases toks.len() - pos, 25int,
{
    match spec_binary(toks, pos, 6) {
        Err(e) => Err(e),
        Ok((l, p)) => if is_at(toks, p, TokenType::Equal) {
            let t = toks[p];
            if p + 1 > pos {
                match spec_assignment(toks, p + 1) {
                    Err(e) => Err(e),
                    Ok((r, p2)) => match l.expr {
                        SExpressionEnum::Primary(prim) => match prim.p {
                            SPrimaryEnum::Identifier(_, _) => Ok((
                                SExpression {
                                    expr: SExpressionEnum::Assignment(prim, Box::new(r)),
                                    span: Span { start: l.span.start, end: r.span.end },
                                },
                                p2,
                            )),
                            _ => Err(err_tok(ParseErrorKind::InvalidAssignmentTarget, t)),
                        },
                        _ => Err(err_tok(ParseErrorKind::InvalidAssignmentTarget, t)),
                    },
                }
            } else {
                Err(end_err())
            }
        } else {
            Ok((l, p))
        },
    }
}

/// `expression → assignment`
#[verifier::opaque]
pub open spec fn spec_expression(toks: Seq<SpecToken>, pos: int) -> Result<(SExpression, int), SParseError>
    decreases toks.len() - pos, 26int,
{
    spec_assignment(toks, pos)
}


// ---------------------------------------------------------------------------
// The errors the expression rules give
// ---------------------------------------------------------------------------

/// The result is not the `NotAProgram` signal, which only the program rule gives.
pub open spec fn no_sentinel<T>(r: Result<T, SParseError>) -> bool {
    r matches Err(e) ==> e.kind != ParseErrorKind::NotAProgram
}

proof fn lemma_primary_no_sentinel(toks: Seq<SpecToken>, pos: int)
    ensures
        no_sentinel(spec_primary(toks, pos)),
    decreases toks.len() - pos, 1int,
{
    reveal_with_fuel(spec_primary, 1); reveal_with_fuel(spec_arguments, 1); reveal_with_fuel(spec_call_rest, 1); reveal_with_fuel(spec_call, 1); reveal_with_fuel(spec_unary, 1); reveal_with_fuel(spec_operand, 1); reveal_with_fuel(spec_binary_rest, 1); reveal_with_fuel(spec_binary, 1); reveal_with_fuel(spec_assignment, 1); reveal_with_fuel(spec_expression, 1);
    if 0 <= pos < toks.len() && toks[pos].token_type == TokenType::LeftParen {
        lemma_expression_no_sentinel(toks, pos + 1);
    }
}

proof fn lemma_call_rest_no_sentinel(toks: Seq<SpecToken>, pos: int)
    ensures
        forall|callee: SExpression| no_sentinel(#[trigger] spec_call_rest(toks, pos, callee)),
    decreases toks.len() - pos, 2int,
{
    reveal_with_fuel(spec_primary, 1); reveal_with_fuel(spec_arguments, 1); reveal_with_fuel(spec_call_rest, 1); reveal_with_fuel(spec_call, 1); reveal_with_fuel(spec_unary, 1); reveal_with_fuel(spec_operand, 1); reveal_with_fuel(spec_binary_rest, 1); reveal_with_fuel(spec_binary, 1); reveal_with_fuel(spec_assignment, 1); reveal_with_fuel(spec_expression, 1);
    if is_at(toks, pos, TokenType::LeftParen) {
        let lp = toks[pos];
        let p1 = pos + 1;
        let args: Result<(Option<(Seq<SExpression>, Span)>, int), SParseError> =
            if 0 <= p1 < toks.len() && toks[p1].token_type != TokenType::RightParen {
                lemma_arguments_no_sentinel(toks, p1);
                assert(no_sentinel(spec_arguments(toks, p1, seq![])));
                match spec_arguments(toks, p1, seq![]) {
                    Err(e) => Err(e),
                    Ok((a, p2)) => Ok((
                        Some((a, Span { start: tok_start(lp), end: loc(prev_tok(toks, p2).line, prev_tok(toks, p2).col) })),
                        p2,
                    )),
                }
            } else {
                Ok((None, p1))
            };
        if let Ok((a, p2)) = args {
            if 0 <= p2 < toks.len() && toks[p2].token_type == TokenType::RightParen && p2 + 1 > pos {
                lemma_call_rest_no_sentinel(toks, p2 + 1);
                assert forall|callee: SExpression| no_sentinel(#[trigger] spec_call_rest(toks, pos, callee)) by {
                    let span = Span { start: callee.span.start, end: tok_end(toks[p2]) };
                    let (args_seq, args_span) = match a {
                        Some(x) => x,
                        None => (seq![], span),
                    };
                    let e = SExpression { expr: SExpressionEnum::Call(Box::new(callee), args_seq, args_span), span };
                    assert(no_sentinel(spec_call_rest(toks, p2 + 1, e)));
                }
            }
        }
    }
}

proof fn lemma_call_no_sentinel(toks: Seq<SpecToken>, pos: int)
    ensures
        no_sentinel(spec_call(toks, pos)),
    decreases toks.len() - pos, 3int,
{
    reveal_with_fuel(spec_primary, 1); reveal_with_fuel(spec_arguments, 1); reveal_with_fuel(spec_call_rest, 1); reveal_with_fuel(spec_call, 1); reveal_with_fuel(spec_unary, 1); reveal_with_fuel(spec_operand, 1); reveal_with_fuel(spec_binary_rest, 1); reveal_with_fuel(spec_binary, 1); reveal_with_fuel(spec_assignment, 1); reveal_with_fuel(spec_expression, 1);
    lemma_primary_no_sentinel(toks, pos);
    if let Ok((e, p)) = spec_primary(toks, pos) {
        if p >= pos && p <= toks.len() {
            lemma_call_rest_no_sentinel(toks, p);
            assert(no_sentinel(spec_call_rest(toks, p, e)));
        }
    }
}

proof fn lemma_unary_no_sentinel(toks: Seq<SpecToken>, pos: int)
    ensures
        no_sentinel(spec_unary(toks, pos)),
    decreases toks.len() - pos, 4int,
{
    reveal_with_fuel(spec_primary, 1); reveal_with_fuel(spec_arguments, 1); reveal_with_fuel(spec_call_rest, 1); reveal_with_fuel(spec_call, 1); reveal_with_fuel(spec_unary, 1); reveal_with_fuel(spec_operand, 1); reveal_with_fuel(spec_binary_rest, 1); reveal_with_fuel(spec_binary, 1); reveal_with_fuel(spec_assignment, 1); reveal_with_fuel(spec_expression, 1);
    if 0 <= pos < toks.len() {
        let t = toks[pos];
        if t.token_type == TokenType::Minus || t.token_type == TokenType::Bang {
            lemma_unary_no_sentinel(toks, pos + 1);
        } else {
            lemma_call_no_sentinel(toks, pos);
        }
    }
}

proof fn lemma_operand_no_sentinel(toks: Seq<SpecToken>, pos: int, level: int)
    ensures
        no_sentinel(spec_operand(toks, pos, level)),
    decreases toks.len() - pos, if level <= 1 { 7int } else { 3 * level + 4 },
{
    reveal_with_fuel(spec_primary, 1); reveal_with_fuel(spec_arguments, 1); reveal_with_fuel(spec_call_rest, 1); reveal_with_fuel(spec_call, 1); reveal_with_fuel(spec_unary, 1); reveal_with_fuel(spec_operand, 1); reveal_with_fuel(spec_binary_rest, 1); reveal_with_fuel(spec_binary, 1); reveal_with_fuel(spec_assignment, 1); reveal_with_fuel(spec_expression, 1);
    if level <= 1 {
        lemma_unary_no_sentinel(toks, pos);
    } else {
        lemma_binary_no_sentinel(toks, pos, level - 1);
    }
}

proof fn lemma_binary_rest_no_sentinel(toks: Seq<SpecToken>, pos: int, level: int)
    ensures
        forall|left: SExpression| no_sentinel(#[trigger] spec_binary_rest(toks, pos, level, left)),
    decreases toks.len() - pos, 3 * level + 5,
{
    reveal_with_fuel(spec_primary, 1); reveal_with_fuel(spec_arguments, 1); reveal_with_fuel(spec_call_rest, 1); reveal_with_fuel(spec_call, 1); reveal_with_fuel(spec_unary, 1); reveal_with_fuel(spec_operand, 1); reveal_with_fuel(spec_binary_rest, 1); reveal_with_fuel(spec_binary, 1); reveal_with_fuel(spec_assignment, 1); reveal_with_fuel(spec_expression, 1);
    if 0 <= pos < toks.len() && binary_op_matches(level, toks[pos].token_type) {
        lemma_operand_no_sentinel(toks, pos + 1, level);
        if let Ok((r, p)) = spec_operand(toks, pos + 1, level) {
            if p > pos && p <= toks.len() {
                lemma_binary_rest_no_sentinel(toks, p, level);
                assert forall|left: SExpression| no_sentinel(#[trigger] spec_binary_rest(toks, pos, level, left)) by {
                    let t = toks[pos];
                    let op = SOperator { op: t.lexeme, span: tok_span(t) };
                    let e = SExpression {
                        expr: binary_node(level, op, left, r),
                        span: Span { start: left.span.start, end: r.span.end },
                    };
                    assert(no_sentinel(spec_binary_rest(toks, p, level, e)));
                }
            }
        }
    }
}

proof fn lemma_binary_no_sentinel(toks: Seq<SpecToken>, pos: int, level: int)
    ensures
        no_sentinel(spec_binary(toks, pos, level)),
    decreases toks.len() - pos, 3 * level + 6,
{
    reveal_with_fuel(spec_primary, 1); reveal_with_fuel(spec_arguments, 1); reveal_with_fuel(spec_call_rest, 1); reveal_with_fuel(spec_call, 1); reveal_with_fuel(spec_unary, 1); reveal_with_fuel(spec_operand, 1); reveal_with_fuel(spec_binary_rest, 1); reveal_with_fuel(spec_binary, 1); reveal_with_fuel(spec_assignment, 1); reveal_with_fuel(spec_expression, 1);
    if 1 <= level <= 6 {
        lemma_operand_no_sentinel(toks, pos, level);
        if let Ok((l, p)) = spec_operand(toks, pos, level) {
            if p >= pos && p <= toks.len() {
                lemma_binary_rest_no_sentinel(toks, p, level);
                assert(no_sentinel(spec_binary_rest(toks, p, level, l)));
            }
        }
    }
}

proof fn lemma_assignment_no_sentinel(toks: Seq<SpecToken>, pos: int)
    ensures
        no_sentinel(spec_assignment(toks, pos)),
    decreases toks.len() - pos, 25int,
{
    reveal_with_fuel(spec_primary, 1); reveal_with_fuel(spec_arguments, 1); reveal_with_fuel(spec_call_rest, 1); reveal_with_fuel(spec_call, 1); reveal_with_fuel(spec_unary, 1); reveal_with_fuel(spec_operand, 1); reveal_with_fuel(spec_binary_rest, 1); reveal_with_fuel(spec_binary, 1); reveal_with_fuel(spec_assignment, 1); reveal_with_fuel(spec_expression, 1);
    lemma_binary_no_sentinel(toks, pos, 6);
    if let Ok((l, p)) = spec_binary(toks, pos, 6) {
        if is_at(toks, p, TokenType::Equal) && p + 1 > pos {
            lemma_assignment_no_sentinel(toks, p + 1);
        }
    }
}

/// No expression rule answers with the `NotAProgram` signal: every syntax
/// error in an expression is one that the parser reports.
pub proof fn lemma_expression_no_sentinel(toks: Seq<SpecToken>, pos: int)
    ensures
        no_sentinel(spec_expression(toks, pos)),
    decreases toks.len() - pos, 26int,
{
    reveal_with_fuel(spec_primary, 1); reveal_with_fuel(spec_arguments, 1); reveal_with_fuel(spec_call_rest, 1); reveal_with_fuel(spec_call, 1); reveal_with_fuel(spec_unary, 1); reveal_with_fuel(spec_operand, 1); reveal_with_fuel(spec_binary_rest, 1); reveal_with_fuel(spec_binary, 1); reveal_with_fuel(spec_assignment, 1); reveal_with_fuel(spec_expression, 1);
    lemma_assignment_no_sentinel(toks, pos);
}

proof fn lemma_arguments_no_sentinel(toks: Seq<SpecToken>, pos: int)
    ensures
        forall|acc: Seq<SExpression>| no_sentinel(#[trigger] spec_arguments(toks, pos, acc)),
    decreases toks.len() - pos, 27int,
{
    reveal_with_fuel(spec_primary, 1); reveal_with_fuel(spec_arguments, 1); reveal_with_fuel(spec_call_rest, 1); reveal_with_fuel(spec_call, 1); reveal_with_fuel(spec_unary, 1); reveal_with_fuel(spec_operand, 1); reveal_with_fuel(spec_binary_rest, 1); reveal_with_fuel(spec_binary, 1); reveal_with_fuel(spec_assignment, 1); reveal_with_fuel(spec_expression, 1);
    lemma_expression_no_sentinel(toks, pos);
    if let Ok((e, p)) = spec_expression(toks, pos) {
        if is_at(toks, p, TokenType::Comma) && p + 1 > pos {
            lemma_arguments_no_sentinel(toks, p + 1);
            assert forall|acc: Seq<SExpression>| no_sentinel(#[trigger] spec_arguments(toks, pos, acc)) by {
                assert(no_sentinel(spec_arguments(toks, p + 1, acc.push(e))));
            }
        }
    }
}

// ---------------------------------------------------------------------------
// Helpers
// ---------------------------------------------------------------------------

pub(crate) fn lexeme_width(t: &Token) -> (w: usize)
    ensures
        w == width(t.lexeme@),
{
    t.lexeme.as_str().len()
}

pub(crate) fn token_start(t: &Token) -> (l: Location)
    ensures
        l == tok_start(t@),
{
    Location::new(t.line, t.col)
}

pub(crate) fn token_end(t: &Token) -> (l: Location)
    requires
        t.col + width(t.lexeme@) <= usize::MAX,
    ensures
        l == tok_end(t@),
{
    Location::new(t.line, t.col + lexeme_width(t))
}

pub(crate) fn token_span(t: &Token) -> (s: Span)
    requires
        t.col + width(t.lexeme@) <= usize::MAX,
    ensures
        s == tok_span(t@),
{
    Span::new(token_start(t), token_end(t))
}

pub(crate) fn end_error() -> (e: ParseError)
    ensures
        e@ == end_err(),
{
    ParseError { kind: ParseErrorKind::UnexpectedEnd, line: 0, col: 0, text: String::new() }
}

pub(crate) fn error_at(kind: ParseErrorKind, t: &Token) -> (e: ParseError)
    ensures
        e@ == err_tok(kind, t@),
{
    ParseError { kind, line: t.line, col: t.col, text: String::new() }
}

pub(crate) fn error_lexeme(kind: ParseErrorKind, t: &Token) -> (e: ParseError)
    ensures
        e@ == err_lexeme(kind, t@),
{
    ParseError { kind, line: t.line, col: t.col, text: t.lexeme.clone() }
}

/// The token at `i` of `tokens`, with its view.
pub(crate) fn tok(tokens: &[Token], i: usize) -> (t: &Token)
    requires
        i < tokens@.len(),
    ensures
        *t == tokens@[i as int],
        t@ == token_views(tokens@)[i as int],
{
    &tokens[i]
}

pub(crate) fn type_at(tokens: &[Token], i: usize, ty: TokenType) -> (r: bool)
    ensures
        r == is_at(token_views(tokens@), i as int, ty),
        r ==> i < tokens.len(),
{
    i < tokens.len() && tokens[i].token_type == ty
}

/// The last consumed token (the one before `p`).
pub(crate) fn prev_token(tokens: &[Token], p: usize) -> (t: &Token)
    requires
        1 <= p <= tokens@.len(),
    ensures
        t@ == prev_tok(token_views(tokens@), p as int),
{
    tok(tokens, p - 1)
}

pub(crate) fn primary_expression(p: Primary) -> (e: Expression)
    ensures
        expr_view(e) == prim_expr(primary_view(p)),
{
    let span = p.span;
    Expression { expr: ExpressionEnum::Primary(p), span }
}

// ---------------------------------------------------------------------------
// Expressions
// ---------------------------------------------------------------------------

/// `primary → NUMBER | STRING | "true" | "false" | "nil" | "(" expression ")" | IDENTIFIER`
pub(crate) fn parse_primary(tokens: &[Token], pos: usize) -> (r: Result<(Expression, usize), ParseError>)
    requires
        pos <= tokens@.len(),
        tokens_fit(token_views(tokens@)),
    ensures
        expr_res(r) == spec_primary(token_views(tokens@), pos as int),
        advances(r, pos, tokens@.len()),
    decreases tokens@.len() - pos, 1int,
{
    proof { reveal_with_fuel(spec_primary, 1); reveal_with_fuel(spec_arguments, 1); reveal_with_fuel(spec_call_rest, 1); reveal_with_fuel(spec_call, 1); reveal_with_fuel(spec_unary, 1); reveal_with_fuel(spec_operand, 1); reveal_with_fuel(spec_binary_rest, 1); reveal_with_fuel(spec_binary, 1); reveal_with_fuel(spec_assignment, 1); reveal_with_fuel(spec_expression, 1); }
    let ghost toks = token_views(tokens@);
    if pos >= tokens.len() {
        return Err(end_error());
    }
    let t = tok(tokens, pos);
    match t.token_type {
        TokenType::Number => {
            if float_text_ok(&t.literal) {
                let p = Primary { p: PrimaryEnum::Literal(Literal::Number(printed_number_text(&t.literal))), span: token_span(t) };
                Ok((primary_expression(p), pos + 1))
            } else {
                Err(ParseError { kind: ParseErrorKind::InvalidNumber, line: t.line, col: t.col, text: t.literal.clone() })
            }
        },
        TokenType::String => {
            let p = Primary { p: PrimaryEnum::Literal(Literal::String(t.literal.clone())), span: token_span(t) };
            Ok((primary_expression(p), pos + 1))
        },
        TokenType::True => {
            let p = Primary { p: PrimaryEnum::Literal(Literal::True), span: token_span(t) };
            Ok((primary_expression(p), pos + 1))
        },
        TokenType::False => {
            let p = Primary { p: PrimaryEnum::Literal(Literal::False), span: token_span(t) };
            Ok((primary_expression(p), pos + 1))
        },
        TokenType::Nil => {
            let p = Primary { p: PrimaryEnum::Literal(Literal::Nil), span: token_span(t) };
            Ok((primary_expression(p), pos + 1))
        },
        TokenType::LeftParen => {
            match parse_expression(tokens, pos + 1) {
                Err(e) => Err(e),
                Ok((e, p)) => {
                    if p >= tokens.len() {
                        Err(error_at(ParseErrorKind::ExpectedRParenAtEof, prev_token(tokens, p)))
                    } else {
                        let next = tok(tokens, p);
                        if next.token_type != TokenType::RightParen {
                            Err(error_at(ParseErrorKind::ExpectedRParen, next))
                        } else {
                            let span = Span::new(token_start(t), token_end(next));
                            let prim = Primary { p: PrimaryEnum::Grouping(Box::new(e)), span };
                            Ok((primary_expression(prim), p + 1))
                        }
                    }
                },
            }
        },
        TokenType::Identifier => {
            let p = Primary { p: PrimaryEnum::Identifier(t.lexeme.clone(), pos), span: token_span(t) };
            Ok((primary_expression(p), pos + 1))
        },
        _ => Err(error_lexeme(ParseErrorKind::UnexpectedToken, t)),
    }
}

/// Call arguments: expressions separated by commas, starting at `pos`.
pub(crate) fn parse_arguments(tokens: &[Token], pos: usize) -> (r: Result<(Vec<Expression>, usize), ParseError>)
    requires
        pos <= tokens@.len(),
        tokens_fit(token_views(tokens@)),
    ensures
        match r {
            Ok((args, p)) => spec_arguments(token_views(tokens@), pos as int, seq![])
                == Ok::<_, SParseError>((exprs_view(args@), p as int)),
            Err(e) => spec_arguments(token_views(tokens@), pos as int, seq![]) == Err::<(Seq<SExpression>, int), _>(e@),
        },
        advances(r, pos, tokens@.len()),
    decreases tokens@.len() - pos, 27int,
{
    proof { reveal_with_fuel(spec_primary, 1); reveal_with_fuel(spec_arguments, 1); reveal_with_fuel(spec_call_rest, 1); reveal_with_fuel(spec_call, 1); reveal_with_fuel(spec_unary, 1); reveal_with_fuel(spec_operand, 1); reveal_with_fuel(spec_binary_rest, 1); reveal_with_fuel(spec_binary, 1); reveal_with_fuel(spec_assignment, 1); reveal_with_fuel(spec_expression, 1); }
    let ghost toks = token_views(tokens@);
    let mut args: Vec<Expression> = Vec::new();
    let mut p = pos;
    assert(exprs_view(args@) =~= seq![]);
    loop
        invariant
            pos <= p <= tokens@.len(),
            tokens_fit(toks),
            toks == token_views(tokens@),
            spec_arguments(toks, pos as int, seq![]) == spec_arguments(toks, p as int, exprs_view(args@)),
            p == pos || (p > pos && args@.len() > 0),
        decreases tokens@.len() - p,
    {
        proof { reveal_with_fuel(spec_primary, 1); reveal_with_fuel(spec_arguments, 1); reveal_with_fuel(spec_call_rest, 1); reveal_with_fuel(spec_call, 1); reveal_with_fuel(spec_unary, 1); reveal_with_fuel(spec_operand, 1); reveal_with_fuel(spec_binary_rest, 1); reveal_with_fuel(spec_binary, 1); reveal_with_fuel(spec_assignment, 1); reveal_with_fuel(spec_expression, 1); }
        match parse_expression(tokens, p) {
            Err(e) => return Err(e),
            Ok((e, p2)) => {
                let ghost old_args = args@;
                args.push(e);
                assert(args@.drop_last() == old_args);
                if type_at(tokens, p2, TokenType::Comma) {
                    p = p2 + 1;
                } else {
                    return Ok((args, p2));
                }
            },
        }
    }
}

/// Zero or more call suffixes `( arguments? )` applied to the expression `callee` ending at `pos`.
pub(crate) fn parse_call_rest(tokens: &[Token], pos: usize, callee: Expression) -> (r: Result<(Expression, usize), ParseError>)
    requires
        pos <= tokens@.len(),
        tokens_fit(token_views(tokens@)),
    ensures
        expr_res(r) == spec_call_rest(token_views(tokens@), pos as int, expr_view(callee)),
        r matches Ok((_, p)) ==> pos <= p <= tokens@.len(),
    decreases tokens@.len() - pos, 2int,
{
    proof { reveal_with_fuel(spec_primary, 1); reveal_with_fuel(spec_arguments, 1); reveal_with_fuel(spec_call_rest, 1); reveal_with_fuel(spec_call, 1); reveal_with_fuel(spec_unary, 1); reveal_with_fuel(spec_operand, 1); reveal_with_fuel(spec_binary_rest, 1); reveal_with_fuel(spec_binary, 1); reveal_with_fuel(spec_assignment, 1); reveal_with_fuel(spec_expression, 1); }
    let ghost toks = token_views(tokens@);
    let mut expr = callee;
    let mut p = pos;
    loop
        invariant
            pos <= p <= tokens@.len(),
            tokens_fit(toks),
            toks == token_views(tokens@),
            spec_call_rest(toks, pos as int, expr_view(callee)) == spec_call_rest(toks, p as int, expr_view(expr)),
        decreases tokens@.len() - p,
    {
        proof { reveal_with_fuel(spec_primary, 1); reveal_with_fuel(spec_arguments, 1); reveal_with_fuel(spec_call_rest, 1); reveal_with_fuel(spec_call, 1); reveal_with_fuel(spec_unary, 1); reveal_with_fuel(spec_operand, 1); reveal_with_fuel(spec_binary_rest, 1); reveal_with_fuel(spec_binary, 1); reveal_with_fuel(spec_assignment, 1); reveal_with_fuel(spec_expression, 1); }
        if !type_at(tokens, p, TokenType::LeftParen) {
            return Ok((expr, p));
        }
        let lp = tok(tokens, p);
        let p1 = p + 1;
        let args: Option<Arguments>;
        let p2: usize;
        if p1 < tokens.len() && tokens[p1].token_type != TokenType::RightParen {
            match parse_arguments(tokens, p1) {
                Err(e) => return Err(e),
                Ok((a, q)) => {
                    let last = prev_token(tokens, q);
                    args = Some(Arguments { args: a, span: Span::new(token_start(lp), Location::new(last.line, last.col)) });
                    p2 = q;
                },
            }
        } else {
            args = None;
            p2 = p1;
        }
        if p2 >= tokens.len() {
            return Err(end_error());
        }
        let rp = tok(tokens, p2);
        if rp.token_type != TokenType::RightParen {
            return Err(error_at(ParseErrorKind::ExpectedRParenAfterArguments, rp));
        }
        let span = Span::new(expr.span.start, token_end(rp));
        let arguments = match args {
            Some(a) => a,
            None => Arguments { args: Vec::new(), span },
        };
        proof {
            if args is None {
                assert(exprs_view(arguments.args@) =~= seq![]);
            }
        }
        expr = Expression { expr: ExpressionEnum::Call(Box::new(expr), arguments), span };
        p = p2 + 1;
    }
}

/// `call → primary ( "(" arguments? ")" )*`
pub(crate) fn parse_call(tokens: &[Token], pos: usize) -> (r: Result<(Expression, usize), ParseError>)
    requires
        pos <= tokens@.len(),
        tokens_fit(token_views(tokens@)),
    ensures
        expr_res(r) == spec_call(token_views(tokens@), pos as int),
        advances(r, pos, tokens@.len()),
    decreases tokens@.len() - pos, 3int,
{
    proof { reveal_with_fuel(spec_primary, 1); reveal_with_fuel(spec_arguments, 1); reveal_with_fuel(spec_call_rest, 1); reveal_with_fuel(spec_call, 1); reveal_with_fuel(spec_unary, 1); reveal_with_fuel(spec_operand, 1); reveal_with_fuel(spec_binary_rest, 1); reveal_with_fuel(spec_binary, 1); reveal_with_fuel(spec_assignment, 1); reveal_with_fuel(spec_expression, 1); }
    match parse_primary(tokens, pos) {
        Err(e) => Err(e),
        Ok((e, p)) => parse_call_rest(tokens, p, e),
    }
}

/// `unary → ( "!" | "-" ) unary | call`
pub(crate) fn parse_unary(tokens: &[Token], pos: usize) -> (r: Result<(Expression, usize), ParseError>)
    requires
        pos <= tokens@.len(),
        tokens_fit(token_views(tokens@)),
    ensures
        expr_res(r) == spec_unary(token_views(tokens@), pos as int),
        advances(r, pos, tokens@.len()),
    decreases tokens@.len() - pos, 4int,
{
    proof { reveal_with_fuel(spec_primary, 1); reveal_with_fuel(spec_arguments, 1); reveal_with_fuel(spec_call_rest, 1); reveal_with_fuel(spec_call, 1); reveal_with_fuel(spec_unary, 1); reveal_with_fuel(spec_operand, 1); reveal_with_fuel(spec_binary_rest, 1); reveal_with_fuel(spec_binary, 1); reveal_with_fuel(spec_assignment, 1); reveal_with_fuel(spec_expression, 1); }
    if pos >= tokens.len() {
        return Err(end_error());
    }
    let t = tok(tokens, pos);
    if t.token_type == TokenType::Minus || t.token_type == TokenType::Bang {
        let op = Operator { op: t.lexeme.clone(), span: token_span(t) };
        match parse_unary(tokens, pos + 1) {
            Err(e) => Err(e),
            Ok((operand, p)) => {
                let span = Span::new(token_start(t), operand.span.end);
                Ok((Expression { expr: ExpressionEnum::Unary(op, Box::new(operand)), span }, p))
            },
        }
    } else {
        parse_call(tokens, pos)
    }
}

pub(crate) fn binary_op_matches_exec(level: usize, t: TokenType) -> (r: bool)
    ensures
        r == binary_op_matches(level as int, t),
{
    if level == 1 {
        t == TokenType::Star || t == TokenType::Slash
    } else if level == 2 {
        t == TokenType::Plus || t == TokenType::Minus
    } else if level == 3 {
        t == TokenType::Greater || t == TokenType::GreaterEqual || t == TokenType::Less || t == TokenType::LessEqual
    } else if level == 4 {
        t == TokenType::EqualEqual || t == TokenType::BangEqual
    } else if level == 5 {
        t == TokenType::And
    } else {
        t == TokenType::Or
    }
}

pub(crate) fn binary_node_exec(level: usize, op: Operator, l: Expression, r: Expression) -> (e: ExpressionEnum)
    ensures
        expr_view(Expression { expr: e, span: l.span }).expr == binary_node(level as int, operator_view(op), expr_view(l), expr_view(r)),
{
    if level == 1 {
        ExpressionEnum::Factor(op, Box::new(l), Box::new(r))
    } else if level == 2 {
        ExpressionEnum::Term(op, Box::new(l), Box::new(r))
    } else if level == 3 {
        ExpressionEnum::Comparison(op, Box::new(l), Box::new(r))
    } else if level == 4 {
        ExpressionEnum::Equality(op, Box::new(l), Box::new(r))
    } else {
        ExpressionEnum::Logical(op, Box::new(l), Box::new(r))
    }
}

/// The operand of a binary level: the next tighter level (unary below factor).
pub(crate) fn parse_operand(tokens: &[Token], pos: usize, level: usize) -> (r: Result<(Expression, usize), ParseError>)
    requires
        pos <= tokens@.len(),
        tokens_fit(token_views(tokens@)),
        1 <= level <= 6,
    ensures
        expr_res(r) == spec_operand(token_views(tokens@), pos as int, level as int),
        advances(r, pos, tokens@.len()),
    decreases tokens@.len() - pos, if level <= 1 { 7int } else { 3 * level + 4 },
{
    proof { reveal_with_fuel(spec_primary, 1); reveal_with_fuel(spec_arguments, 1); reveal_with_fuel(spec_call_rest, 1); reveal_with_fuel(spec_call, 1); reveal_with_fuel(spec_unary, 1); reveal_with_fuel(spec_operand, 1); reveal_with_fuel(spec_binary_rest, 1); reveal_with_fuel(spec_binary, 1); reveal_with_fuel(spec_assignment, 1); reveal_with_fuel(spec_expression, 1); }
    if level <= 1 {
        parse_unary(tokens, pos)
    } else {
        parse_binary(tokens, pos, level - 1)
    }
}

/// A binary precedence level (1 factor, 2 term, 3 comparison, 4 equality, 5 and, 6 or):
/// `operand ( op operand )*`, left-associative.
pub(crate) fn parse_binary(tokens: &[Token], pos: usize, level: usize) -> (r: Result<(Expression, usize), ParseError>)
    requires
        pos <= tokens@.len(),
        tokens_fit(token_views(tokens@)),
        1 <= level <= 6,
    ensures
        expr_res(r) == spec_binary(token_views(tokens@), pos as int, level as int),
        advances(r, pos, tokens@.len()),
    decreases tokens@.len() - pos, 3 * level + 6,
{
    proof { reveal_with_fuel(spec_primary, 1); reveal_with_fuel(spec_arguments, 1); reveal_with_fuel(spec_call_rest, 1); reveal_with_fuel(spec_call, 1); reveal_with_fuel(spec_unary, 1); reveal_with_fuel(spec_operand, 1); reveal_with_fuel(spec_binary_rest, 1); reveal_with_fuel(spec_binary, 1); reveal_with_fuel(spec_assignment, 1); reveal_with_fuel(spec_expression, 1); }
    let ghost toks = token_views(tokens@);
    let (mut left, mut p) = match parse_operand(tokens, pos, level) {
        Err(e) => return Err(e),
        Ok(x) => x,
    };
    loop
        invariant
            pos < p <= tokens@.len(),
            1 <= level <= 6,
            tokens_fit(toks),
            toks == token_views(tokens@),
            spec_binary(toks, pos as int, level as int) == spec_binary_rest(toks, p as int, level as int, expr_view(left)),
        decreases tokens@.len() - p,
    {
        proof { reveal_with_fuel(spec_primary, 1); reveal_with_fuel(spec_arguments, 1); reveal_with_fuel(spec_call_rest, 1); reveal_with_fuel(spec_call, 1); reveal_with_fuel(spec_unary, 1); reveal_with_fuel(spec_operand, 1); reveal_with_fuel(spec_binary_rest, 1); reveal_with_fuel(spec_binary, 1); reveal_with_fuel(spec_assignment, 1); reveal_with_fuel(spec_expression, 1); }
        if p < tokens.len() && binary_op_matches_exec(level, tokens[p].token_type) {
            let t = tok(tokens, p);
            let op = Operator { op: t.lexeme.clone(), span: token_span(t) };
            match parse_operand(tokens, p + 1, level) {
                Err(e) => return Err(e),
                Ok((right, p2)) => {
                    let span = Span::new(left.span.start, right.span.end);
                    let lspan = left.span;
                    let node = binary_node_exec(level, op, left, right);
                    left = Expression { expr: node, span };
                    p = p2;
                },
            }
        } else {
            return Ok((left, p));
        }
    }
}

/// `assignment → IDENTIFIER "=" assignment | logic_or`
pub(crate) fn parse_assignment(tokens: &[Token], pos: usize) -> (r: Result<(Expression, usize), ParseError>)
    requires
        pos <= tokens@.len(),
        tokens_fit(token_views(tokens@)),
    ensures
        expr_res(r) == spec_assignment(token_views(tokens@), pos as int),
        advances(r, pos, tokens@.len()),
    decreases tokens@.len() - pos, 25int,
{
    proof { reveal_with_fuel(spec_primary, 1); reveal_with_fuel(spec_arguments, 1); reveal_with_fuel(spec_call_rest, 1); reveal_with_fuel(spec_call, 1); reveal_with_fuel(spec_unary, 1); reveal_with_fuel(spec_operand, 1); reveal_with_fuel(spec_binary_rest, 1); reveal_with_fuel(spec_binary, 1); reveal_with_fuel(spec_assignment, 1); reveal_with_fuel(spec_expression, 1); }
    let (left, p) = match parse_binary(tokens, pos, 6) {
        Err(e) => return Err(e),
        Ok(x) => x,
    };
    if type_at(tokens, p, TokenType::Equal) {
        let t = tok(tokens, p);
        let (right, p2) = match parse_assignment(tokens, p + 1) {
            Err(e) => return Err(e),
            Ok(x) => x,
        };
        let lstart = left.span.start;
        let ghost lv = expr_view(left);
        assert(spec_assignment(token_views(tokens@), pos as int) == match lv.expr {
            SExpressionEnum::Primary(prim) => match prim.p {
                SPrimaryEnum::Identifier(_, _) => Ok((
                    SExpression {
                        expr: SExpressionEnum::Assignment(prim, Box::new(expr_view(right))),
                        span: Span { start: lv.span.start, end: expr_view(right).span.end },
                    },
                    p2 as int,
                )),
                _ => Err(err_tok(ParseErrorKind::InvalidAssignmentTarget, t@)),
            },
            _ => Err(err_tok(ParseErrorKind::InvalidAssignmentTarget, t@)),
        });
        match left.expr {
            ExpressionEnum::Primary(prim) => {
                let is_ident = match &prim.p {
                    PrimaryEnum::Identifier(_, _) => true,
                    _ => false,
                };
                assert(lv.expr == SExpressionEnum::Primary(primary_view(prim)));
                assert(is_ident == (primary_view(prim).p is Identifier));
                if is_ident {
                    let span = Span::new(lstart, right.span.end);
                    let res = Expression { expr: ExpressionEnum::Assignment(prim, Box::new(right)), span };
                    assert(expr_view(res).span == span);
                    assert(expr_view(res).expr == SExpressionEnum::Assignment(primary_view(prim), Box::new(expr_view(right))));
                    Ok((res, p2))
                } else {
                    Err(error_at(ParseErrorKind::InvalidAssignmentTarget, t))
                }
            },
            _ => Err(error_at(ParseErrorKind::InvalidAssignmentTarget, t)),
        }
    } else {
        Ok((left, p))
    }
}

/// `expression → assignment`
pub(crate) fn parse_expression(tokens: &[Token], pos: usize) -> (r: Result<(Expression, usize), ParseError>)
    requires
        pos <= tokens@.len(),
        tokens_fit(token_views(tokens@)),
    ensures
        expr_res(r) == spec_expression(token_views(tokens@), pos as int),
        advances(r, pos, tokens@.len()),
    decreases tokens@.len() - pos, 26int,
{
    proof { reveal_with_fuel(spec_primary, 1); reveal_with_fuel(spec_arguments, 1); reveal_with_fuel(spec_call_rest, 1); reveal_with_fuel(spec_call, 1); reveal_with_fuel(spec_unary, 1); reveal_with_fuel(spec_operand, 1); reveal_with_fuel(spec_binary_rest, 1); reveal_with_fuel(spec_binary, 1); reveal_with_fuel(spec_assignment, 1); reveal_with_fuel(spec_expression, 1); }
    parse_assignment(tokens, pos)
}


} // verus!
