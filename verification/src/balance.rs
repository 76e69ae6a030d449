//! The printed form of a syntax tree is a balanced s-expression: it opens as
//! many parentheses as it closes, whenever the names and literal texts in
//! the tree do.

use vstd::prelude::*;
use crate::span::{Location, Span};
use crate::ast::{SLiteral, SPrimaryEnum, SPrimary, SExpressionEnum, SExpression, SStatement, SDeclaration, SProgram};
use crate::printer::{
    strip_cr, line_split, lines, spaces, join_padded, indent_text, show_primary, show_expr,
    show_args, show_stmt, show_block_items, show_params, show_decl, show_program_items, show_program,
};

verus! {

/// The number of `(` in `s` minus the number of `)`.
pub open spec fn paren_depth(s: Seq<char>) -> int
    decreases s.len(),
{
    if s.len() == 0 {
        0
    } else {
        paren_depth(s.drop_last()) + (if s.last() == '(' { 1int } else if s.last() == ')' { -1int } else { 0int })
    }
}

/// Parentheses of two texts written one after the other add up.
pub broadcast proof fn lemma_paren_depth_concat(a: Seq<char>, b: Seq<char>)
    ensures
        #[trigger] paren_depth(a + b) == paren_depth(a) + paren_depth(b),
    decreases b.len(),
{
    if b.len() == 0 {
        assert(a + b =~= a);
    } else {
        lemma_paren_depth_concat(a, b.drop_last());
        assert((a + b).drop_last() =~= a + b.drop_last());
    }
}

/// The parentheses of the fixed texts of the printed form.
proof fn lemma_fixed_texts()
    ensures
        paren_depth("(group "@) == 1,
        paren_depth(")"@) == -1,
        paren_depth(" "@) == 0,
        paren_depth("("@) == 1,
        paren_depth("(assign! "@) == 1,
        paren_depth("(print "@) == 1,
        paren_depth("(return "@) == 1,
        paren_depth("(return)"@) == 0,
        paren_depth("(if "@) == 1,
        paren_depth("(while "@) == 1,
        paren_depth("(block"@) == 1,
        paren_depth("(fn! "@) == 1,
        paren_depth(" ("@) == 1,
        paren_depth("(dassign! "@) == 1,
        paren_depth("(decl! "@) == 1,
        paren_depth("(prog"@) == 1,
        paren_depth("true"@) == 0,
        paren_depth("false"@) == 0,
        paren_depth("nil"@) == 0,
        paren_depth(seq!['\n']) == 0,
        paren_depth(seq!['\n', ')']) == -1,
        paren_depth(seq![')', '\n']) == -1,
        paren_depth(Seq::<char>::empty()) == 0,
{
    reveal_strlit("(group ");
    reveal_strlit(")");
    reveal_strlit(" ");
    reveal_strlit("(");
    reveal_strlit("(assign! ");
    reveal_strlit("(print ");
    reveal_strlit("(return ");
    reveal_strlit("(return)");
    reveal_strlit("(if ");
    reveal_strlit("(while ");
    reveal_strlit("(block");
    reveal_strlit("(fn! ");
    reveal_strlit(" (");
    reveal_strlit("(dassign! ");
    reveal_strlit("(decl! ");
    reveal_strlit("(prog");
    reveal_strlit("true");
    reveal_strlit("false");
    reveal_strlit("nil");
    reveal_with_fuel(paren_depth, 11);
}

// ---------------------------------------------------------------------------
// Indentation keeps the parentheses
// ---------------------------------------------------------------------------

/// The parentheses of a list of lines, all together.
pub open spec fn lines_depth(ls: Seq<Seq<char>>) -> int
    decreases ls.len(),
{
    if ls.len() == 0 {
        0
    } else {
        lines_depth(ls.drop_last()) + paren_depth(ls.last())
    }
}

proof fn lemma_lines_depth_concat(a: Seq<Seq<char>>, b: Seq<Seq<char>>)
    ensures
        lines_depth(a + b) == lines_depth(a) + lines_depth(b),
    decreases b.len(),
{
    if b.len() == 0 {
        assert(a + b =~= a);
    } else {
        lemma_lines_depth_concat(a, b.drop_last());
        assert((a + b).drop_last() =~= a + b.drop_last());
    }
}

proof fn lemma_lines_depth_single(l: Seq<char>)
    ensures
        lines_depth(seq![l]) == paren_depth(l),
{
    let one = seq![l];
    assert(one.drop_last() =~= Seq::<Seq<char>>::empty());
    assert(one.last() == l);
    assert(lines_depth(one.drop_last()) == 0);
}

proof fn lemma_line_split_depth(s: Seq<char>, cur: Seq<char>)
    ensures
        lines_depth(line_split(s, cur)) == paren_depth(s) + paren_depth(cur),
    decreases s.len(),
{
    broadcast use lemma_paren_depth_concat;
    lemma_fixed_texts();
    if s.len() == 0 {
        if cur.len() > 0 {
            lemma_lines_depth_single(cur);
        }
    } else {
        let rest = s.subrange(1, s.len() as int);
        let c = s[0];
        assert(s =~= seq![c] + rest);
        assert(paren_depth(s) == paren_depth(seq![c]) + paren_depth(rest));
        assert(seq![c].drop_last() =~= Seq::<char>::empty());
        assert(paren_depth(seq![c]) == (if c == '(' { 1int } else if c == ')' { -1int } else { 0int }));
        if c == '\n' {
            lemma_line_split_depth(rest, seq![]);
            let l = strip_cr(cur);
            lemma_lines_depth_concat(seq![l], line_split(rest, seq![]));
            lemma_lines_depth_single(l);
            if cur.len() > 0 && cur.last() == '\r' {
                assert(paren_depth(cur) == paren_depth(cur.drop_last()));
            }
            assert(paren_depth(l) == paren_depth(cur));
            assert(line_split(s, cur) == seq![l] + line_split(rest, seq![]));
        } else {
            lemma_line_split_depth(rest, cur.push(c));
            assert(cur.push(c).drop_last() =~= cur);
            assert(line_split(s, cur) == line_split(rest, cur.push(c)));
        }
    }
}

proof fn lemma_spaces_depth(n: nat)
    ensures
        paren_depth(spaces(n)) == 0,
    decreases n,
{
    if n > 0 {
        assert(spaces(n).drop_last() =~= spaces((n - 1) as nat));
        lemma_spaces_depth((n - 1) as nat);
    }
}

proof fn lemma_join_depth(ls: Seq<Seq<char>>, pad: Seq<char>)
    requires
        paren_depth(pad) == 0,
    ensures
        paren_depth(join_padded(ls, pad)) == lines_depth(ls),
    decreases ls.len(),
{
    broadcast use lemma_paren_depth_concat;
    lemma_fixed_texts();
    if ls.len() == 1 {
        assert(ls.drop_last() =~= Seq::<Seq<char>>::empty());
        assert(lines_depth(ls.drop_last()) == 0);
        assert(join_padded(ls, pad) == pad + ls[0]);
        assert(paren_depth(pad + ls[0]) == paren_depth(pad) + paren_depth(ls[0]));
    } else if ls.len() > 1 {
        lemma_join_depth(ls.drop_last(), pad);
        let j = join_padded(ls.drop_last(), pad);
        assert(join_padded(ls, pad) == j + seq!['\n'] + pad + ls.last());
        assert(paren_depth(j + seq!['\n']) == paren_depth(j) + paren_depth(seq!['\n']));
        assert(paren_depth(j + seq!['\n'] + pad) == paren_depth(j + seq!['\n']) + paren_depth(pad));
        assert(paren_depth(j + seq!['\n'] + pad + ls.last()) == paren_depth(j + seq!['\n'] + pad) + paren_depth(ls.last()));
    }
}

/// Indenting a text keeps its parentheses.
pub proof fn lemma_indent_keeps_parens(s: Seq<char>, n: nat)
    ensures
        paren_depth(indent_text(s, n)) == paren_depth(s),
{
    lemma_line_split_depth(s, seq![]);
    lemma_spaces_depth(n);
    lemma_join_depth(lines(s), spaces(n));
    lemma_fixed_texts();
}

// ---------------------------------------------------------------------------
// Trees whose own texts are balanced
// ---------------------------------------------------------------------------

/// Whether a literal's text holds as many `(` as `)`.
pub open spec fn literal_plain(l: SLiteral) -> bool {
    match l {
        SLiteral::Number(n) => paren_depth(n) == 0,
        SLiteral::Str(s) => paren_depth(s) == 0,
        _ => true,
    }
}

/// Whether every name, operator and literal text in a primary expression is balanced.
pub open spec fn primary_plain(p: SPrimary) -> bool
    decreases p,
{
    match p.p {
        SPrimaryEnum::Literal(l) => literal_plain(l),
        SPrimaryEnum::Grouping(e) => expr_plain(*e),
        SPrimaryEnum::Identifier(name, _) => paren_depth(name) == 0,
    }
}

/// Whether every name, operator and literal text in an expression is balanced.
pub open spec fn expr_plain(e: SExpression) -> bool
    decreases e,
{
    match e.expr {
        SExpressionEnum::Primary(p) => primary_plain(p),
        SExpressionEnum::Unary(op, r) => paren_depth(op.op) == 0 && expr_plain(*r),
        SExpressionEnum::Factor(op, l, r) => paren_depth(op.op) == 0 && expr_plain(*l) && expr_plain(*r),
        SExpressionEnum::Term(op, l, r) => paren_depth(op.op) == 0 && expr_plain(*l) && expr_plain(*r),
        SExpressionEnum::Comparison(op, l, r) => paren_depth(op.op) == 0 && expr_plain(*l) && expr_plain(*r),
        SExpressionEnum::Equality(op, l, r) => paren_depth(op.op) == 0 && expr_plain(*l) && expr_plain(*r),
        SExpressionEnum::Logical(op, l, r) => paren_depth(op.op) == 0 && expr_plain(*l) && expr_plain(*r),
        SExpressionEnum::Assignment(p, v) => primary_plain(p) && expr_plain(*v),
        SExpressionEnum::Call(c, args, _) => expr_plain(*c) && exprs_plain(args),
    }
}

/// Whether every expression of a list is plain.
pub open spec fn exprs_plain(es: Seq<SExpression>) -> bool
    decreases es,
{
    if es.len() == 0 {
        true
    } else {
        exprs_plain(es.drop_last()) && expr_plain(es.last())
    }
}

/// Whether every name, operator and literal text in a statement is balanced.
pub open spec fn stmt_plain(s: SStatement) -> bool
    decreases s,
{
    match s {
        SStatement::ExprStmt(e, _) => expr_plain(e),
        SStatement::PrintStmt(e, _, _) => expr_plain(e),
        SStatement::ReturnStmt(v, _) => match v {
            Some(e) => expr_plain(e),
            None => true,
        },
        SStatement::IfStmt(c, t, e, _, _) => expr_plain(c) && stmt_plain(*t) && match e {
            Some(b) => stmt_plain(*b),
            None => true,
        },
        SStatement::WhileStmt(c, b, _, _) => expr_plain(c) && stmt_plain(*b),
        SStatement::Block(ds) => decls_plain(ds),
    }
}

/// Whether every declaration of a list is plain.
pub open spec fn decls_plain(ds: Seq<SDeclaration>) -> bool
    decreases ds,
{
    if ds.len() == 0 {
        true
    } else {
        decls_plain(ds.drop_last()) && decl_plain(ds.last())
    }
}

/// Whether every parameter name is balanced.
pub open spec fn params_plain(ps: Seq<(Seq<char>, Location)>) -> bool {
    forall|i: int| 0 <= i < ps.len() ==> paren_depth(#[trigger] ps[i].0) == 0
}

/// Whether every name, operator and literal text in a declaration is balanced.
pub open spec fn decl_plain(d: SDeclaration) -> bool
    decreases d,
{
    match d {
        SDeclaration::FunDecl(f, _) => paren_depth(f.name) == 0 && params_plain(f.params) && stmt_plain(f.body),
        SDeclaration::VarDecl(v, _) => paren_depth(v.name) == 0 && match v.initializer {
            Some(e) => expr_plain(e),
            None => true,
        },
        SDeclaration::Statement(s, _) => stmt_plain(s),
    }
}

// ---------------------------------------------------------------------------
// The printed forms are balanced
// ---------------------------------------------------------------------------

proof fn lemma_primary_balanced(p: SPrimary)
    requires
        primary_plain(p),
    ensures
        paren_depth(show_primary(p)) == 0,
    decreases p,
{
    broadcast use lemma_paren_depth_concat;
    lemma_fixed_texts();
    match p.p {
        SPrimaryEnum::Literal(l) => {},
        SPrimaryEnum::Grouping(e) => lemma_expr_balanced(*e),
        SPrimaryEnum::Identifier(_, _) => {},
    }
}

/// The printed form of an expression whose own texts are balanced is balanced.
pub proof fn lemma_expr_balanced(e: SExpression)
    requires
        expr_plain(e),
    ensures
        paren_depth(show_expr(e)) == 0,
    decreases e,
{
    broadcast use lemma_paren_depth_concat;
    lemma_fixed_texts();
    match e.expr {
        SExpressionEnum::Primary(p) => lemma_primary_balanced(p),
        SExpressionEnum::Unary(_, r) => lemma_expr_balanced(*r),
        SExpressionEnum::Factor(_, l, r) | SExpressionEnum::Term(_, l, r) | SExpressionEnum::Comparison(_, l, r)
        | SExpressionEnum::Equality(_, l, r) | SExpressionEnum::Logical(_, l, r) => {
            lemma_expr_balanced(*l);
            lemma_expr_balanced(*r);
        },
        SExpressionEnum::Assignment(p, v) => {
            lemma_primary_balanced(p);
            lemma_expr_balanced(*v);
        },
        SExpressionEnum::Call(c, args, _) => {
            lemma_expr_balanced(*c);
            lemma_args_balanced(args);
        },
    }
}

proof fn lemma_args_balanced(es: Seq<SExpression>)
    requires
        exprs_plain(es),
    ensures
        paren_depth(show_args(es)) == 0,
    decreases es,
{
    broadcast use lemma_paren_depth_concat;
    lemma_fixed_texts();
    if es.len() > 0 {
        lemma_args_balanced(es.drop_last());
        lemma_expr_balanced(es.last());
    }
}

/// The printed form of a statement whose own texts are balanced is a
/// balanced s-expression: as many `(` as `)`. (A `return` without a value is
/// `(return)`.)
pub proof fn lemma_stmt_balanced(s: SStatement)
    requires
        stmt_plain(s),
    ensures
        paren_depth(show_stmt(s)) == 0,
    decreases s,
{
    broadcast use lemma_paren_depth_concat;
    lemma_fixed_texts();
    match s {
        SStatement::ExprStmt(e, _) => lemma_expr_balanced(e),
        SStatement::PrintStmt(e, _, _) => lemma_expr_balanced(e),
        SStatement::ReturnStmt(v, _) => {
            if let Some(e) = v {
                lemma_expr_balanced(e);
            }
        },
        SStatement::IfStmt(c, t, e, _, _) => {
            lemma_expr_balanced(c);
            lemma_stmt_balanced(*t);
            lemma_indent_keeps_parens(show_stmt(*t), 2);
            if let Some(b) = e {
                lemma_stmt_balanced(*b);
                lemma_indent_keeps_parens(show_stmt(*b), 2);
            }
        },
        SStatement::WhileStmt(c, b, _, _) => {
            lemma_expr_balanced(c);
            lemma_stmt_balanced(*b);
            lemma_indent_keeps_parens(show_stmt(*b), 2);
        },
        SStatement::Block(ds) => {
            lemma_block_items_balanced(ds);
        },
    }
}

proof fn lemma_block_items_balanced(ds: Seq<SDeclaration>)
    requires
        decls_plain(ds),
    ensures
        paren_depth(show_block_items(ds)) == 0,
    decreases ds,
{
    broadcast use lemma_paren_depth_concat;
    lemma_fixed_texts();
    if ds.len() > 0 {
        lemma_block_items_balanced(ds.drop_last());
        lemma_decl_balanced(ds.last());
        lemma_indent_keeps_parens(show_decl(ds.last()), 2);
    }
}

proof fn lemma_params_balanced(ps: Seq<(Seq<char>, Location)>)
    requires
        params_plain(ps),
    ensures
        paren_depth(show_params(ps)) == 0,
    decreases ps.len(),
{
    broadcast use lemma_paren_depth_concat;
    lemma_fixed_texts();
    if ps.len() > 1 {
        assert(params_plain(ps.drop_last())) by {
            assert forall|i: int| 0 <= i < ps.drop_last().len() implies paren_depth(#[trigger] ps.drop_last()[i].0) == 0 by {
                assert(ps.drop_last()[i] == ps[i]);
            }
        }
        lemma_params_balanced(ps.drop_last());
        assert(paren_depth(ps[ps.len() - 1].0) == 0);
    } else if ps.len() == 1 {
        assert(paren_depth(ps[0].0) == 0);
    }
}

/// The printed form of a declaration whose own texts are balanced is balanced.
pub proof fn lemma_decl_balanced(d: SDeclaration)
    requires
        decl_plain(d),
    ensures
        paren_depth(show_decl(d)) == 0,
    decreases d,
{
    broadcast use lemma_paren_depth_concat;
    lemma_fixed_texts();
    match d {
        SDeclaration::FunDecl(f, _) => {
            lemma_params_balanced(f.params);
            lemma_stmt_balanced(f.body);
            lemma_indent_keeps_parens(show_stmt(f.body), 2);
        },
        SDeclaration::VarDecl(v, _) => {
            if let Some(e) = v.initializer {
                lemma_expr_balanced(e);
            }
        },
        SDeclaration::Statement(s, _) => lemma_stmt_balanced(s),
    }
}

proof fn lemma_program_items_balanced(ds: Seq<SDeclaration>)
    requires
        decls_plain(ds),
    ensures
        paren_depth(show_program_items(ds)) == 0,
    decreases ds.len(),
{
    broadcast use lemma_paren_depth_concat;
    lemma_fixed_texts();
    if ds.len() > 0 {
        lemma_program_items_balanced(ds.drop_last());
        lemma_decl_balanced(ds.last());
        lemma_indent_keeps_parens(show_decl(ds.last()), 2);
    }
}

/// The printed form of a program whose own texts are balanced is balanced.
pub proof fn lemma_program_balanced(p: SProgram)
    requires
        decls_plain(p.declarations),
    ensures
        paren_depth(show_program(p)) == 0,
{
    broadcast use lemma_paren_depth_concat;
    lemma_fixed_texts();
    lemma_program_items_balanced(p.declarations);
}

/// A `return` without a value prints as `(return)`, whatever its span.
pub proof fn lemma_return_without_value_text(span: Span)
    ensures
        show_stmt(SStatement::ReturnStmt(None, span)) == "(return)"@,
{
}

} // verus!
