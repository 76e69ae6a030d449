//! The precedence and associativity of Lox's binary operators, as laws of
//! the expression grammar: which operator of `a o1 b o2 c` takes the other's
//! result as an operand.

use vstd::prelude::*;
use crate::span::Span;
use crate::token::{TokenType, SpecToken};
use crate::number::{is_float_text, printed_number};
use crate::ast::{SLiteral, SOperator, SPrimaryEnum, SPrimary, SExpressionEnum, SExpression};
use crate::printer::{show_expr, show_primary, show_literal};
use crate::grammar::{tok_span, prim_expr, binary_op_matches, binary_node};
use crate::expr_parser::{
    spec_primary, spec_arguments, spec_call_rest, spec_call, spec_unary, spec_operand, spec_binary_rest, spec_binary,
    spec_assignment, spec_expression,
};

verus! {

/// How tightly a binary operator of Lox binds, tightest first: 1 for `*` `/`,
/// 2 for `+` `-`, 3 for `>` `>=` `<` `<=`, 4 for `==` `!=`, 5 for `and`, 6
/// for `or`; 0 for any other token.
pub open spec fn precedence(t: TokenType) -> int {
    match t {
        TokenType::Star | TokenType::Slash => 1,
        TokenType::Plus | TokenType::Minus => 2,
        TokenType::Greater | TokenType::GreaterEqual | TokenType::Less | TokenType::LessEqual => 3,
        TokenType::EqualEqual | TokenType::BangEqual => 4,
        TokenType::And => 5,
        TokenType::Or => 6,
        _ => 0,
    }
}

/// Whether a token is a binary operator.
pub open spec fn is_binary_operator(t: TokenType) -> bool {
    1 <= precedence(t) <= 6
}

/// A token that ends an expression: `;`, `)`, `,`, `}` or the end of input.
pub open spec fn closes_expression(t: TokenType) -> bool {
    t == TokenType::Semicolon || t == TokenType::RightParen || t == TokenType::Comma || t == TokenType::RightBrace
        || t == TokenType::Eof
}

/// A token that is a whole operand by itself: an identifier, or a number in
/// Rust's float syntax.
pub open spec fn simple_operand(t: SpecToken) -> bool {
    t.token_type == TokenType::Identifier || (t.token_type == TokenType::Number && is_float_text(t.literal))
}

/// The expression that the simple operand at `q` stands for.
pub open spec fn operand_at(toks: Seq<SpecToken>, q: int) -> SExpression {
    let t = toks[q];
    let p = if t.token_type == TokenType::Number {
        SPrimaryEnum::Literal(SLiteral::Number(printed_number(t.literal)))
    } else {
        SPrimaryEnum::Identifier(t.lexeme, q as usize)
    };
    prim_expr(SPrimary { p, span: tok_span(t) })
}

/// The operator written by the token at `q`.
pub open spec fn operator_at(toks: Seq<SpecToken>, q: int) -> SOperator {
    SOperator { op: toks[q].lexeme, span: tok_span(toks[q]) }
}

/// The node of a binary operator token applied to two operands: `*` `/` make
/// a factor, `+` `-` a term, the orderings a comparison, `==` `!=` an
/// equality, `and` `or` a logical node; it spans both operands.
pub open spec fn operator_node(t: TokenType, op: SOperator, l: SExpression, r: SExpression) -> SExpression {
    let e = match t {
        TokenType::Star | TokenType::Slash => SExpressionEnum::Factor(op, Box::new(l), Box::new(r)),
        TokenType::Plus | TokenType::Minus => SExpressionEnum::Term(op, Box::new(l), Box::new(r)),
        TokenType::EqualEqual | TokenType::BangEqual => SExpressionEnum::Equality(op, Box::new(l), Box::new(r)),
        TokenType::And | TokenType::Or => SExpressionEnum::Logical(op, Box::new(l), Box::new(r)),
        _ => SExpressionEnum::Comparison(op, Box::new(l), Box::new(r)),
    };
    SExpression { expr: e, span: Span { start: l.span.start, end: r.span.end } }
}

/// The six binary levels of the grammar take exactly the operators of their
/// precedence.
pub proof fn lemma_precedence_levels(level: int, t: TokenType)
    requires
        1 <= level <= 6,
    ensures
        binary_op_matches(level, t) <==> precedence(t) == level,
{
}

proof fn lemma_node_of_level(level: int, t: TokenType, op: SOperator, l: SExpression, r: SExpression)
    requires
        1 <= level <= 6,
        precedence(t) == level,
    ensures
        (SExpression { expr: binary_node(level, op, l, r), span: Span { start: l.span.start, end: r.span.end } })
            == operator_node(t, op, l, r),
{
}

/// A simple operand not followed by `(` is a unary expression by itself.
proof fn lemma_operand_unary(toks: Seq<SpecToken>, q: int)
    requires
        0 <= q,
        q + 1 < toks.len(),
        simple_operand(toks[q]),
        toks[q + 1].token_type != TokenType::LeftParen,
    ensures
        spec_unary(toks, q) == Ok::<_, crate::grammar::SParseError>((operand_at(toks, q), q + 1)),
{
    reveal_with_fuel(spec_primary, 1); reveal_with_fuel(spec_arguments, 1); reveal_with_fuel(spec_call_rest, 1); reveal_with_fuel(spec_call, 1); reveal_with_fuel(spec_unary, 1); reveal_with_fuel(spec_operand, 1); reveal_with_fuel(spec_binary_rest, 1); reveal_with_fuel(spec_binary, 1); reveal_with_fuel(spec_assignment, 1); reveal_with_fuel(spec_expression, 1);
    let t = toks[q];
    let e = operand_at(toks, q);
    assert(spec_primary(toks, q) == Ok::<_, crate::grammar::SParseError>((e, q + 1)));
    assert(spec_call_rest(toks, q + 1, e) == Ok::<_, crate::grammar::SParseError>((e, q + 1)));
    assert(spec_call(toks, q) == Ok::<_, crate::grammar::SParseError>((e, q + 1)));
}

/// A binary level stops before a token that is not one of its operators.
proof fn lemma_level_stops(toks: Seq<SpecToken>, q: int, level: int, left: SExpression)
    requires
        0 <= q < toks.len(),
        1 <= level <= 6,
        precedence(toks[q].token_type) != level,
    ensures
        spec_binary_rest(toks, q, level, left) == Ok::<_, crate::grammar::SParseError>((left, q)),
{
    reveal_with_fuel(spec_primary, 1); reveal_with_fuel(spec_arguments, 1); reveal_with_fuel(spec_call_rest, 1); reveal_with_fuel(spec_call, 1); reveal_with_fuel(spec_unary, 1); reveal_with_fuel(spec_operand, 1); reveal_with_fuel(spec_binary_rest, 1); reveal_with_fuel(spec_binary, 1); reveal_with_fuel(spec_assignment, 1); reveal_with_fuel(spec_expression, 1);
    lemma_precedence_levels(level, toks[q].token_type);
}

/// A simple operand followed by an operator that binds less tightly than
/// `level`, or by the end of the expression, is the whole of that level.
proof fn lemma_operand_level(toks: Seq<SpecToken>, q: int, level: int)
    requires
        0 <= q,
        q + 1 < toks.len(),
        1 <= level <= 6,
        simple_operand(toks[q]),
        closes_expression(toks[q + 1].token_type) || (is_binary_operator(toks[q + 1].token_type)
            && precedence(toks[q + 1].token_type) > level),
    ensures
        spec_binary(toks, q, level) == Ok::<_, crate::grammar::SParseError>((operand_at(toks, q), q + 1)),
    decreases level,
{
    reveal_with_fuel(spec_primary, 1); reveal_with_fuel(spec_arguments, 1); reveal_with_fuel(spec_call_rest, 1); reveal_with_fuel(spec_call, 1); reveal_with_fuel(spec_unary, 1); reveal_with_fuel(spec_operand, 1); reveal_with_fuel(spec_binary_rest, 1); reveal_with_fuel(spec_binary, 1); reveal_with_fuel(spec_assignment, 1); reveal_with_fuel(spec_expression, 1);
    if level == 1 {
        lemma_operand_unary(toks, q);
    } else {
        lemma_operand_level(toks, q, level - 1);
    }
    lemma_level_stops(toks, q + 1, level, operand_at(toks, q));
}

/// `b o c` followed by the end of the expression, at each level: the operand
/// alone below the operator's precedence, the operator's node from it on.
proof fn lemma_one_operator(toks: Seq<SpecToken>, q: int, level: int)
    requires
        0 <= q,
        q + 3 < toks.len(),
        1 <= level <= 6,
        simple_operand(toks[q]),
        is_binary_operator(toks[q + 1].token_type),
        simple_operand(toks[q + 2]),
        closes_expression(toks[q + 3].token_type),
    ensures
        spec_binary(toks, q, level) == (if level < precedence(toks[q + 1].token_type) {
            Ok::<_, crate::grammar::SParseError>((operand_at(toks, q), q + 1))
        } else {
            Ok((
                operator_node(toks[q + 1].token_type, operator_at(toks, q + 1), operand_at(toks, q), operand_at(toks, q + 2)),
                q + 3,
            ))
        }),
    decreases level,
{
    reveal_with_fuel(spec_primary, 1); reveal_with_fuel(spec_arguments, 1); reveal_with_fuel(spec_call_rest, 1); reveal_with_fuel(spec_call, 1); reveal_with_fuel(spec_unary, 1); reveal_with_fuel(spec_operand, 1); reveal_with_fuel(spec_binary_rest, 1); reveal_with_fuel(spec_binary, 1); reveal_with_fuel(spec_assignment, 1); reveal_with_fuel(spec_expression, 1);
    let p = precedence(toks[q + 1].token_type);
    let a = operand_at(toks, q);
    let c = operand_at(toks, q + 2);
    let node = operator_node(toks[q + 1].token_type, operator_at(toks, q + 1), a, c);
    if level < p {
        lemma_operand_level(toks, q, level);
    } else {
        if level == p {
            if level == 1 {
                lemma_operand_unary(toks, q);
                lemma_operand_unary(toks, q + 2);
            } else {
                lemma_operand_level(toks, q, level - 1);
                lemma_operand_level(toks, q + 2, level - 1);
            }
            lemma_precedence_levels(level, toks[q + 1].token_type);
            lemma_node_of_level(level, toks[q + 1].token_type, operator_at(toks, q + 1), a, c);
            lemma_level_stops(toks, q + 3, level, node);
            assert(spec_operand(toks, q, level) == Ok::<_, crate::grammar::SParseError>((a, q + 1)));
            assert(spec_operand(toks, q + 2, level) == Ok::<_, crate::grammar::SParseError>((c, q + 3)));
            assert(spec_binary_rest(toks, q + 1, level, a) == Ok::<_, crate::grammar::SParseError>((node, q + 3)));
        } else {
            lemma_one_operator(toks, q, level - 1);
            lemma_level_stops(toks, q + 3, level, node);
        }
    }
}

/// The tree of `a o1 b o2 c` up to binary level `level`.
pub open spec fn two_operators_up_to(toks: Seq<SpecToken>, pos: int, level: int) -> (SExpression, int) {
    let p1 = precedence(toks[pos + 1].token_type);
    let p2 = precedence(toks[pos + 3].token_type);
    let a = operand_at(toks, pos);
    let b = operand_at(toks, pos + 2);
    let c = operand_at(toks, pos + 4);
    let o1 = operator_at(toks, pos + 1);
    let o2 = operator_at(toks, pos + 3);
    let t1 = toks[pos + 1].token_type;
    let t2 = toks[pos + 3].token_type;
    if p1 <= p2 {
        if level < p1 {
            (a, pos + 1)
        } else if level < p2 {
            (operator_node(t1, o1, a, b), pos + 3)
        } else {
            (operator_node(t2, o2, operator_node(t1, o1, a, b), c), pos + 5)
        }
    } else {
        if level < p1 {
            (a, pos + 1)
        } else {
            (operator_node(t1, o1, a, operator_node(t2, o2, b, c)), pos + 5)
        }
    }
}

proof fn lemma_two_operators_level(toks: Seq<SpecToken>, pos: int, level: int)
    requires
        0 <= pos,
        pos + 5 < toks.len(),
        1 <= level <= 6,
        simple_operand(toks[pos]),
        is_binary_operator(toks[pos + 1].token_type),
        simple_operand(toks[pos + 2]),
        is_binary_operator(toks[pos + 3].token_type),
        simple_operand(toks[pos + 4]),
        closes_expression(toks[pos + 5].token_type),
    ensures
        spec_binary(toks, pos, level) == Ok::<_, crate::grammar::SParseError>(two_operators_up_to(toks, pos, level)),
    decreases level,
{
    reveal_with_fuel(spec_primary, 1); reveal_with_fuel(spec_arguments, 1); reveal_with_fuel(spec_call_rest, 1); reveal_with_fuel(spec_call, 1); reveal_with_fuel(spec_unary, 1); reveal_with_fuel(spec_operand, 1); reveal_with_fuel(spec_binary_rest, 1); reveal_with_fuel(spec_binary, 1); reveal_with_fuel(spec_assignment, 1); reveal_with_fuel(spec_expression, 1);
    let p1 = precedence(toks[pos + 1].token_type);
    let p2 = precedence(toks[pos + 3].token_type);
    let t1 = toks[pos + 1].token_type;
    let t2 = toks[pos + 3].token_type;
    let a = operand_at(toks, pos);
    let b = operand_at(toks, pos + 2);
    let c = operand_at(toks, pos + 4);
    let o1 = operator_at(toks, pos + 1);
    let o2 = operator_at(toks, pos + 3);
    if level < p1 {
        lemma_operand_level(toks, pos, level);
        return;
    }
    // The operand of this level, and the level's own operators after it.
    if level == 1 {
        lemma_operand_unary(toks, pos);
    } else {
        lemma_two_operators_level(toks, pos, level - 1);
    }
    let prev = if level == 1 { (a, pos + 1) } else { two_operators_up_to(toks, pos, level - 1) };
    assert(spec_operand(toks, pos, level) == Ok::<_, crate::grammar::SParseError>(prev));
    if level == p1 {
        assert(prev == (a, pos + 1));
        lemma_precedence_levels(level, t1);
        if p1 < p2 {
            // `o1` takes `b` alone, then the level stops at `o2`.
            if level == 1 {
                lemma_operand_unary(toks, pos + 2);
            } else {
                lemma_operand_level(toks, pos + 2, level - 1);
            }
            lemma_node_of_level(level, t1, o1, a, b);
            lemma_level_stops(toks, pos + 3, level, operator_node(t1, o1, a, b));
            assert(spec_operand(toks, pos + 2, level) == Ok::<_, crate::grammar::SParseError>((b, pos + 3)));
            assert(spec_binary_rest(toks, pos + 1, level, a) == Ok::<_, crate::grammar::SParseError>((operator_node(t1, o1, a, b), pos + 3)));
        } else if p1 == p2 {
            // `o1` takes `b`, then `o2` takes that node and `c`.
            if level == 1 {
                lemma_operand_unary(toks, pos + 2);
                lemma_operand_unary(toks, pos + 4);
            } else {
                lemma_operand_level(toks, pos + 2, level - 1);
                lemma_operand_level(toks, pos + 4, level - 1);
            }
            let n1 = operator_node(t1, o1, a, b);
            lemma_node_of_level(level, t1, o1, a, b);
            lemma_precedence_levels(level, t2);
            lemma_node_of_level(level, t2, o2, n1, c);
            lemma_level_stops(toks, pos + 5, level, operator_node(t2, o2, n1, c));
            assert(spec_operand(toks, pos + 2, level) == Ok::<_, crate::grammar::SParseError>((b, pos + 3)));
            assert(spec_operand(toks, pos + 4, level) == Ok::<_, crate::grammar::SParseError>((c, pos + 5)));
            assert(spec_binary_rest(toks, pos + 3, level, n1) == Ok::<_, crate::grammar::SParseError>((operator_node(t2, o2, n1, c), pos + 5)));
            assert(spec_binary_rest(toks, pos + 1, level, a) == Ok::<_, crate::grammar::SParseError>((operator_node(t2, o2, n1, c), pos + 5)));
        } else {
            // `o1` takes all of `b o2 c`.
            lemma_one_operator(toks, pos + 2, level - 1);
            let n2 = operator_node(t2, o2, b, c);
            lemma_node_of_level(level, t1, o1, a, n2);
            lemma_level_stops(toks, pos + 5, level, operator_node(t1, o1, a, n2));
            assert(spec_operand(toks, pos + 2, level) == Ok::<_, crate::grammar::SParseError>((n2, pos + 5)));
            assert(spec_binary_rest(toks, pos + 1, level, a) == Ok::<_, crate::grammar::SParseError>((operator_node(t1, o1, a, n2), pos + 5)));
        }
    } else if p1 < p2 && level == p2 {
        let n1 = operator_node(t1, o1, a, b);
        assert(prev == (n1, pos + 3));
        lemma_precedence_levels(level, t2);
        lemma_operand_level(toks, pos + 4, level - 1);
        lemma_node_of_level(level, t2, o2, n1, c);
        lemma_level_stops(toks, pos + 5, level, operator_node(t2, o2, n1, c));
        assert(spec_operand(toks, pos + 4, level) == Ok::<_, crate::grammar::SParseError>((c, pos + 5)));
        assert(spec_binary_rest(toks, pos + 3, level, n1) == Ok::<_, crate::grammar::SParseError>((operator_node(t2, o2, n1, c), pos + 5)));
    } else {
        let (e, p) = prev;
        lemma_level_stops(toks, p, level, e);
    }
}

/// A simple operand followed by the end of the expression is the whole
/// expression.
pub proof fn lemma_operand_expression(toks: Seq<SpecToken>, q: int)
    requires
        0 <= q,
        q + 1 < toks.len(),
        simple_operand(toks[q]),
        closes_expression(toks[q + 1].token_type),
    ensures
        spec_expression(toks, q) == Ok::<_, crate::grammar::SParseError>((operand_at(toks, q), q + 1)),
{
    reveal_with_fuel(spec_primary, 1); reveal_with_fuel(spec_arguments, 1); reveal_with_fuel(spec_call_rest, 1); reveal_with_fuel(spec_call, 1); reveal_with_fuel(spec_unary, 1); reveal_with_fuel(spec_operand, 1); reveal_with_fuel(spec_binary_rest, 1); reveal_with_fuel(spec_binary, 1); reveal_with_fuel(spec_assignment, 1); reveal_with_fuel(spec_expression, 1);
    lemma_operand_level(toks, q, 6);
}

/// Precedence and associativity: in `a o1 b o2 c` (simple operands, binary
/// operators, then the end of the expression) the operator that binds more
/// tightly takes its neighbouring operands first, and of two operators that
/// bind equally the left one does (`1 + 6 / 2` is `1 + (6 / 2)`, `6 / 2 + 1`
/// is `(6 / 2) + 1`, `8 - 2 - 1` is `(8 - 2) - 1`).
pub proof fn lemma_precedence_and_associativity(toks: Seq<SpecToken>, pos: int)
    requires
        0 <= pos,
        pos + 5 < toks.len(),
        simple_operand(toks[pos]),
        is_binary_operator(toks[pos + 1].token_type),
        simple_operand(toks[pos + 2]),
        is_binary_operator(toks[pos + 3].token_type),
        simple_operand(toks[pos + 4]),
        closes_expression(toks[pos + 5].token_type),
    ensures
        spec_expression(toks, pos) == Ok::<_, crate::grammar::SParseError>((
            if precedence(toks[pos + 1].token_type) <= precedence(toks[pos + 3].token_type) {
                operator_node(
                    toks[pos + 3].token_type,
                    operator_at(toks, pos + 3),
                    operator_node(toks[pos + 1].token_type, operator_at(toks, pos + 1), operand_at(toks, pos), operand_at(toks, pos + 2)),
                    operand_at(toks, pos + 4),
                )
            } else {
                operator_node(
                    toks[pos + 1].token_type,
                    operator_at(toks, pos + 1),
                    operand_at(toks, pos),
                    operator_node(toks[pos + 3].token_type, operator_at(toks, pos + 3), operand_at(toks, pos + 2), operand_at(toks, pos + 4)),
                )
            },
            pos + 5,
        )),
{
    reveal_with_fuel(spec_primary, 1); reveal_with_fuel(spec_arguments, 1); reveal_with_fuel(spec_call_rest, 1); reveal_with_fuel(spec_call, 1); reveal_with_fuel(spec_unary, 1); reveal_with_fuel(spec_operand, 1); reveal_with_fuel(spec_binary_rest, 1); reveal_with_fuel(spec_binary, 1); reveal_with_fuel(spec_assignment, 1); reveal_with_fuel(spec_expression, 1);
    lemma_two_operators_level(toks, pos, 6);
}

/// The text of a simple operand as printed: a number in its printed form, a
/// name as written.
pub open spec fn operand_text(t: SpecToken) -> Seq<char> {
    if t.token_type == TokenType::Number { printed_number(t.literal) } else { t.lexeme }
}

proof fn lemma_operand_text(toks: Seq<SpecToken>, q: int)
    requires
        0 <= q < toks.len(),
    ensures
        show_expr(operand_at(toks, q)) == operand_text(toks[q]),
{
    let e = operand_at(toks, q);
    if let SExpressionEnum::Primary(p) = e.expr {
        assert(show_expr(e) == show_primary(p));
        if toks[q].token_type == TokenType::Number {
            assert(show_primary(p) == show_literal(SLiteral::Number(printed_number(toks[q].literal))));
        }
    }
}

/// The s-expression of an operator applied to two printed operands.
pub open spec fn applied(op: Seq<char>, l: Seq<char>, r: Seq<char>) -> Seq<char> {
    seq!['('] + op + seq![' '] + l + seq![' '] + r + seq![')']
}

/// What precedence and associativity look like once printed: `1 + 6 / 2`
/// prints as `(+ 1.0 (/ 6.0 2.0))`, `6 / 2 + 1` as `(+ (/ 6.0 2.0) 1.0)`,
/// `8 - 2 - 1` as `(- (- 8.0 2.0) 1.0)`: each operator comes first in its
/// parentheses, followed by its left and then its right operand.
pub proof fn lemma_printed_precedence(toks: Seq<SpecToken>, pos: int)
    requires
        0 <= pos,
        pos + 5 < toks.len(),
        simple_operand(toks[pos]),
        is_binary_operator(toks[pos + 1].token_type),
        simple_operand(toks[pos + 2]),
        is_binary_operator(toks[pos + 3].token_type),
        simple_operand(toks[pos + 4]),
        closes_expression(toks[pos + 5].token_type),
    ensures
        spec_expression(toks, pos) matches Ok((e, _)) && show_expr(e) == (
            if precedence(toks[pos + 1].token_type) <= precedence(toks[pos + 3].token_type) {
                applied(
                    toks[pos + 3].lexeme,
                    applied(toks[pos + 1].lexeme, operand_text(toks[pos]), operand_text(toks[pos + 2])),
                    operand_text(toks[pos + 4]),
                )
            } else {
                applied(
                    toks[pos + 1].lexeme,
                    operand_text(toks[pos]),
                    applied(toks[pos + 3].lexeme, operand_text(toks[pos + 2]), operand_text(toks[pos + 4])),
                )
            }),
{
    lemma_precedence_and_associativity(toks, pos);
    reveal_strlit("(");
    reveal_strlit(" ");
    reveal_strlit(")");
    let a = operand_at(toks, pos);
    let b = operand_at(toks, pos + 2);
    let c = operand_at(toks, pos + 4);
    lemma_operand_text(toks, pos);
    lemma_operand_text(toks, pos + 2);
    lemma_operand_text(toks, pos + 4);
    let o1 = operator_at(toks, pos + 1);
    let o2 = operator_at(toks, pos + 3);
    let t1 = toks[pos + 1].token_type;
    let t2 = toks[pos + 3].token_type;
    let ab = operator_node(t1, o1, a, b);
    let bc = operator_node(t2, o2, b, c);
    assert(show_expr(ab) =~= applied(o1.op, show_expr(a), show_expr(b)));
    assert(show_expr(bc) =~= applied(o2.op, show_expr(b), show_expr(c)));
    assert(show_expr(operator_node(t2, o2, ab, c)) =~= applied(o2.op, show_expr(ab), show_expr(c)));
    assert(show_expr(operator_node(t1, o1, a, bc)) =~= applied(o1.op, show_expr(a), show_expr(bc)));
}

} // verus!
