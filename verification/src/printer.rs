//! The s-expression form in which the `parse` command prints a syntax tree.
//!
//! `show_*` state the text of each node; the `write_*` functions build it and
//! are proved to produce exactly that text. Nested statements are printed on
//! lines of their own, indented by two spaces per level.

use vstd::prelude::*;
use crate::ast::{
    Literal, PrimaryEnum, Primary, ExpressionEnum, Expression, IfStmt, WhileStmt, Statement, FunDecl, Declaration, Program, ASTree,
    SLiteral, SPrimaryEnum, SPrimary, SExpressionEnum, SExpression, SStatement, SDeclaration, SProgram, SASTree,
    literal_view, primary_view, expr_view, exprs_view, stmt_view, decl_view, decls_view, program_view, ast_view,
    params_view, lemma_exprs_view_index, lemma_decls_view_index,
};
use crate::text::{push_str_chars, push_all, chars_to_string};

verus! {

// ---------------------------------------------------------------------------
// Lines and indentation
// ---------------------------------------------------------------------------

/// A line without the carriage return that ended it, if any.
pub open spec fn strip_cr(l: Seq<char>) -> Seq<char> {
    if l.len() > 0 && l.last() == '\r' { l.drop_last() } else { l }
}

/// The lines of `s` after the partial line `cur`: lines end at `\n` (a `\r`
/// before it is dropped), and a last line without `\n` counts if it is not empty.
pub open spec fn line_split(s: Seq<char>, cur: Seq<char>) -> Seq<Seq<char>>
    decreases s.len(),
{
    if s.len() == 0 {
        if cur.len() == 0 { seq![] } else { seq![cur] }
    } else if s[0] == '\n' {
        seq![strip_cr(cur)] + line_split(s.subrange(1, s.len() as int), seq![])
    } else {
        line_split(s.subrange(1, s.len() as int), cur.push(s[0]))
    }
}

/// The lines of a text, as `str::lines` gives them.
pub open spec fn lines(s: Seq<char>) -> Seq<Seq<char>> {
    line_split(s, seq![])
}

/// `n` spaces.
pub open spec fn spaces(n: nat) -> Seq<char> {
    Seq::new(n, |i: int| ' ')
}

/// The lines, each preceded by `pad`, joined by `\n`.
pub open spec fn join_padded(ls: Seq<Seq<char>>, pad: Seq<char>) -> Seq<char>
    decreases ls.len(),
{
    if ls.len() == 0 {
        seq![]
    } else if ls.len() == 1 {
        pad + ls[0]
    } else {
        join_padded(ls.drop_last(), pad) + seq!['\n'] + pad + ls.last()
    }
}

/// A text with each of its lines indented by `n` spaces.
pub open spec fn indent_text(s: Seq<char>, n: nat) -> Seq<char> {
    join_padded(lines(s), spaces(n))
}

/// Builds the indentation text of `n` spaces.
fn make_spaces(n: usize) -> (r: Vec<char>)
    ensures
        r@ == spaces(n as nat),
{
    let mut v: Vec<char> = Vec::new();
    while v.len() < n
        invariant
            v.len() <= n,
            v@ == spaces(v.len() as nat),
        decreases n - v.len(),
    {
        v.push(' ');
        assert(v@ =~= spaces(v.len() as nat));
    }
    v
}

/// Appends `pad` and a finished line to the lines joined so far.
fn push_line(out: &mut Vec<char>, count: usize, pad: &Vec<char>, line: &Vec<char>, Ghost(done): Ghost<Seq<Seq<char>>>)
    requires
        count == done.len(),
        old(out)@ == join_padded(done, pad@),
    ensures
        final(out)@ == join_padded(done.push(line@), pad@),
{
    if count > 0 {
        out.push('\n');
    }
    push_all(out, pad);
    push_all(out, line);
    assert(done.push(line@).drop_last() == done);
}

/// Indents each line of `s` by `n` spaces, as `indent_text` states.
pub fn indent_chars(s: &Vec<char>, n: usize) -> (r: Vec<char>)
    ensures
        r@ == indent_text(s@, n as nat),
{
    let pad = make_spaces(n);
    let mut out: Vec<char> = Vec::new();
    let mut cur: Vec<char> = Vec::new();
    let mut count: usize = 0;
    let ghost mut done: Seq<Seq<char>> = seq![];
    let mut i: usize = 0;
    assert(s@.subrange(0, s@.len() as int) == s@);
    while i < s.len()
        invariant
            i <= s@.len(),
            count == done.len(),
            count <= i,
            pad@ == spaces(n as nat),
            out@ == join_padded(done, pad@),
            lines(s@) == done + line_split(s@.subrange(i as int, s@.len() as int), cur@),
        decreases s@.len() - i,
    {
        let ghost rest = s@.subrange(i as int, s@.len() as int);
        assert(rest[0] == s@[i as int]);
        assert(rest.subrange(1, rest.len() as int) == s@.subrange(i + 1, s@.len() as int));
        let c = s[i];
        if c == '\n' {
            let ghost cur_before = cur@;
            if cur.len() > 0 && cur[cur.len() - 1] == '\r' {
                cur.pop();
            }
            assert(cur@ == strip_cr(cur_before));
            push_line(&mut out, count, &pad, &cur, Ghost(done));
            proof {
                let tail = line_split(s@.subrange(i + 1, s@.len() as int), seq![]);
                assert(line_split(rest, cur_before) == seq![cur@] + tail);
                assert(done + (seq![cur@] + tail) == done.push(cur@) + tail);
                done = done.push(cur@);
            }
            count = count + 1;
            cur = Vec::new();
        } else {
            cur.push(c);
        }
        i = i + 1;
    }
    if cur.len() > 0 {
        push_line(&mut out, count, &pad, &cur, Ghost(done));
        proof {
            assert(lines(s@) == done.push(cur@));
        }
    } else {
        assert(lines(s@) == done);
    }
    out
}

/// Indents each line of a multi-line text by `indent` spaces; the lines are
/// joined by `\n`, with no newline after the last.
pub fn indent_string(s: &str, indent: usize) -> (r: String)
    ensures
        r@ == indent_text(s@, indent as nat),
{
    let mut v: Vec<char> = Vec::new();
    push_str_chars(&mut v, s);
    assert(v@ == s@);
    let r = indent_chars(&v, indent);
    chars_to_string(&r)
}

// ---------------------------------------------------------------------------
// The printed form of a syntax tree
// ---------------------------------------------------------------------------

pub open spec fn show_literal(l: SLiteral) -> Seq<char> {
    match l {
        SLiteral::Number(n) => n,
        SLiteral::Str(s) => s,
        SLiteral::True => "true"@,
        SLiteral::False => "false"@,
        SLiteral::Nil => "nil"@,
    }
}

pub open spec fn show_primary(p: SPrimary) -> Seq<char>
    decreases p,
{
    match p.p {
        SPrimaryEnum::Literal(l) => show_literal(l),
        SPrimaryEnum::Grouping(e) => "(group "@ + show_expr(*e) + ")"@,
        SPrimaryEnum::Identifier(name, _) => name,
    }
}

/// `(op left right)` for a binary operator.
pub open spec fn show_binary(op: Seq<char>, l: Seq<char>, r: Seq<char>) -> Seq<char> {
    "("@ + op + " "@ + l + " "@ + r + ")"@
}

pub open spec fn show_expr(e: SExpression) -> Seq<char>
    decreases e,
{
    match e.expr {
        SExpressionEnum::Primary(p) => show_primary(p),
        SExpressionEnum::Unary(op, r) => "("@ + op.op + " "@ + show_expr(*r) + ")"@,
        SExpressionEnum::Factor(op, l, r) => show_binary(op.op, show_expr(*l), show_expr(*r)),
        SExpressionEnum::Term(op, l, r) => show_binary(op.op, show_expr(*l), show_expr(*r)),
        SExpressionEnum::Comparison(op, l, r) => show_binary(op.op, show_expr(*l), show_expr(*r)),
        SExpressionEnum::Equality(op, l, r) => show_binary(op.op, show_expr(*l), show_expr(*r)),
        SExpressionEnum::Logical(op, l, r) => show_binary(op.op, show_expr(*l), show_expr(*r)),
        SExpressionEnum::Assignment(p, v) => "(assign! "@ + show_primary(p) + " "@ + show_expr(*v) + ")"@,
        SExpressionEnum::Call(c, args, _) => "("@ + show_expr(*c) + show_args(args) + ")"@,
    }
}

/// Each argument preceded by a space.
pub open spec fn show_args(es: Seq<SExpression>) -> Seq<char>
    decreases es,
{
    if es.len() == 0 {
        seq![]
    } else {
        show_args(es.drop_last()) + " "@ + show_expr(es.last())
    }
}

pub open spec fn show_stmt(s: SStatement) -> Seq<char>
    decreases s,
{
    match s {
        SStatement::ExprStmt(e, _) => show_expr(e),
        SStatement::PrintStmt(e, _, _) => "(print "@ + show_expr(e) + ")"@,
        SStatement::ReturnStmt(Some(e), _) => "(return "@ + show_expr(e) + ")"@,
        SStatement::ReturnStmt(None, _) => "(return)"@,
        SStatement::IfStmt(c, t, e, _, _) => "(if "@ + show_expr(c) + seq!['\n'] + indent_text(show_stmt(*t), 2)
            + match e {
                Some(b) => seq!['\n'] + indent_text(show_stmt(*b), 2),
                None => seq![],
            } + seq!['\n', ')'],
        SStatement::WhileStmt(c, b, _, _) => "(while "@ + show_expr(c) + seq!['\n']
            + indent_text(show_stmt(*b), 2) + seq!['\n', ')'],
        SStatement::Block(ds) => "(block"@ + show_block_items(ds) + (if ds.len() > 0 { seq!['\n'] } else { seq![] })
            + ")"@,
    }
}

/// Each declaration of a block on a new line, indented by two spaces.
pub open spec fn show_block_items(ds: Seq<SDeclaration>) -> Seq<char>
    decreases ds,
{
    if ds.len() == 0 {
        seq![]
    } else {
        show_block_items(ds.drop_last()) + seq!['\n'] + indent_text(show_decl(ds.last()), 2)
    }
}

/// Parameter names separated by single spaces.
pub open spec fn show_params(ps: Seq<(Seq<char>, crate::span::Location)>) -> Seq<char>
    decreases ps.len(),
{
    if ps.len() == 0 {
        seq![]
    } else if ps.len() == 1 {
        ps[0].0
    } else {
        show_params(ps.drop_last()) + " "@ + ps.last().0
    }
}

pub open spec fn show_decl(d: SDeclaration) -> Seq<char>
    decreases d,
{
    match d {
        SDeclaration::FunDecl(f, _) => "(fn! "@ + f.name + " ("@ + show_params(f.params) + ")"@ + seq!['\n']
            + indent_text(show_stmt(f.body), 2) + seq!['\n', ')'],
        SDeclaration::VarDecl(v, _) => match v.initializer {
            Some(e) => "(dassign! "@ + v.name + " "@ + show_expr(e) + ")"@,
            None => "(decl! "@ + v.name + ")"@,
        },
        SDeclaration::Statement(s, _) => show_stmt(s),
    }
}

/// Each declaration of a program indented by two spaces, each followed by a newline.
pub open spec fn show_program_items(ds: Seq<SDeclaration>) -> Seq<char>
    decreases ds.len(),
{
    if ds.len() == 0 {
        seq![]
    } else {
        show_program_items(ds.drop_last()) + indent_text(show_decl(ds.last()), 2) + seq!['\n']
    }
}

pub open spec fn show_program(p: SProgram) -> Seq<char> {
    "(prog"@ + seq!['\n'] + show_program_items(p.declarations) + seq![')', '\n']
}

pub open spec fn show_ast(t: SASTree) -> Seq<char> {
    match t {
        SASTree::Expr(e) => show_expr(e),
        SASTree::Declaration(d) => show_decl(d),
        SASTree::Program(p) => show_program(p),
    }
}

// ---------------------------------------------------------------------------
// Printing
// ---------------------------------------------------------------------------

fn write_literal(out: &mut Vec<char>, l: &Literal)
    ensures
        final(out)@ == old(out)@ + show_literal(literal_view(*l)),
{
    match l {
        Literal::Number(n) => push_str_chars(out, n.as_str()),
        Literal::String(s) => push_str_chars(out, s.as_str()),
        Literal::True => push_str_chars(out, "true"),
        Literal::False => push_str_chars(out, "false"),
        Literal::Nil => push_str_chars(out, "nil"),
    }
}

fn write_primary(out: &mut Vec<char>, p: &Primary)
    ensures
        final(out)@ == old(out)@ + show_primary(primary_view(*p)),
    decreases p, 0nat,
{
    match &p.p {
        PrimaryEnum::Literal(l) => write_literal(out, l),
        PrimaryEnum::Grouping(e) => {
            push_str_chars(out, "(group ");
            write_expr(out, e);
            push_str_chars(out, ")");
        },
        PrimaryEnum::Identifier(name, _) => push_str_chars(out, name.as_str()),
    }
}

#[verifier::loop_isolation(false)]
fn write_expr(out: &mut Vec<char>, e: &Expression)
    ensures
        final(out)@ == old(out)@ + show_expr(expr_view(*e)),
    decreases e, 0nat,
{
    match &e.expr {
        ExpressionEnum::Primary(p) => write_primary(out, p),
        ExpressionEnum::Unary(op, r) => {
            push_str_chars(out, "(");
            push_str_chars(out, op.op.as_str());
            push_str_chars(out, " ");
            write_expr(out, r);
            push_str_chars(out, ")");
        },
        ExpressionEnum::Factor(op, l, r) | ExpressionEnum::Term(op, l, r) | ExpressionEnum::Comparison(op, l, r)
        | ExpressionEnum::Equality(op, l, r) | ExpressionEnum::Logical(op, l, r) => {
            push_str_chars(out, "(");
            push_str_chars(out, op.op.as_str());
            push_str_chars(out, " ");
            write_expr(out, l);
            push_str_chars(out, " ");
            write_expr(out, r);
            push_str_chars(out, ")");
        },
        ExpressionEnum::Assignment(name, value) => {
            push_str_chars(out, "(assign! ");
            write_primary(out, name);
            push_str_chars(out, " ");
            write_expr(out, value);
            push_str_chars(out, ")");
        },
        ExpressionEnum::Call(callee, args) => {
            push_str_chars(out, "(");
            write_expr(out, callee);
            let ghost es = args.args@;
            let ghost start = out@;
            proof {
                lemma_exprs_view_index(es);
                assert(exprs_view(es).take(0) =~= Seq::<SExpression>::empty());
            }
            let mut i: usize = 0;
            while i < args.args.len()
                invariant
                    i <= es.len(),
                    es == args.args@,
                    exprs_view(es).len() == es.len(),
                    forall|j: int| 0 <= j < es.len() ==> #[trigger] exprs_view(es)[j] == expr_view(es[j]),
                    expr_view(*e).expr == SExpressionEnum::Call(Box::new(expr_view(**callee)), exprs_view(es), args.span),
                    out@ == start + show_args(exprs_view(es).take(i as int)),
                decreases es.len() - i,
            {
                let ghost before = out@;
                proof { assert(decreases_to!(args.args => args.args[i as int])); }
                push_str_chars(out, " ");
                write_expr(out, &args.args[i]);
                assert(exprs_view(es).take(i + 1).drop_last() =~= exprs_view(es).take(i as int));
                i = i + 1;
            }
            assert(exprs_view(es).take(es.len() as int) =~= exprs_view(es));
            push_str_chars(out, ")");
        },
    }
}

fn write_stmt(out: &mut Vec<char>, s: &Statement)
    ensures
        final(out)@ == old(out)@ + show_stmt(stmt_view(*s)),
    decreases s, 0nat,
{
    proof { reveal_with_fuel(stmt_view, 1); }
    let ghost o = out@;
    match s {
        Statement::ExprStmt(es) => write_expr(out, &es.expr),
        Statement::PrintStmt(ps) => {
            push_str_chars(out, "(print ");
            write_expr(out, &ps.expr_stmt.expr);
            push_str_chars(out, ")");
            assert(out@ =~= o + show_stmt(stmt_view(*s)));
        },
        Statement::ReturnStmt(rs) => {
            match &rs.value {
                Some(e) => {
                    push_str_chars(out, "(return ");
                    write_expr(out, e);
                    push_str_chars(out, ")");
                    assert(out@ =~= o + show_stmt(stmt_view(*s)));
                },
                None => push_str_chars(out, "(return)"),
            }
        },
        Statement::IfStmt(is) => write_if(out, is),
        Statement::WhileStmt(ws) => write_while(out, ws),
        Statement::Block(ds) => {
            push_str_chars(out, "(block");
            write_block_items(out, ds);
            if ds.len() > 0 {
                out.push('\n');
            }
            push_str_chars(out, ")");
            assert(out@ =~= o + show_stmt(stmt_view(*s)));
        },
    }
}

/// The text of a nested statement, indented by two spaces.
fn indented_stmt(s: &Statement) -> (r: Vec<char>)
    ensures
        r@ == indent_text(show_stmt(stmt_view(*s)), 2),
    decreases s, 1nat,
{
    let mut text: Vec<char> = Vec::new();
    write_stmt(&mut text, s);
    assert(text@ =~= show_stmt(stmt_view(*s)));
    indent_chars(&text, 2)
}

fn write_if(out: &mut Vec<char>, is: &IfStmt)
    ensures
        final(out)@ == old(out)@ + show_stmt(stmt_view(Statement::IfStmt(*is))),
    decreases is, 0nat,
{
    proof { reveal_with_fuel(stmt_view, 1); }
    let ghost o = out@;
    push_str_chars(out, "(if ");
    write_expr(out, &is.condition);
    out.push('\n');
    let then_text = indented_stmt(&is.then_branch);
    push_all(out, &then_text);
    let ghost mid = out@;
    match &is.else_branch {
        Some(b) => {
            out.push('\n');
            let else_text = indented_stmt(b);
            push_all(out, &else_text);
        },
        None => {},
    }
    out.push('\n');
    out.push(')');
    assert(out@ =~= o + show_stmt(stmt_view(Statement::IfStmt(*is))));
}

fn write_while(out: &mut Vec<char>, ws: &WhileStmt)
    ensures
        final(out)@ == old(out)@ + show_stmt(stmt_view(Statement::WhileStmt(*ws))),
    decreases ws, 0nat,
{
    proof { reveal_with_fuel(stmt_view, 1); }
    let ghost o = out@;
    push_str_chars(out, "(while ");
    write_expr(out, &ws.condition);
    out.push('\n');
    let body_text = indented_stmt(&ws.body);
    push_all(out, &body_text);
    out.push('\n');
    out.push(')');
    assert(out@ =~= o + show_stmt(stmt_view(Statement::WhileStmt(*ws))));
}

fn write_block_items(out: &mut Vec<char>, ds: &Vec<Declaration>)
    ensures
        final(out)@ == old(out)@ + show_block_items(decls_view(ds@)),
    decreases ds, 0nat,
{
    let ghost dv = decls_view(ds@);
    let ghost start = out@;
    proof {
        lemma_decls_view_index(ds@);
        assert(dv.take(0) =~= Seq::<SDeclaration>::empty());
    }
    let mut i: usize = 0;
    while i < ds.len()
        invariant
            i <= ds@.len(),
            dv == decls_view(ds@),
            dv.len() == ds@.len(),
            forall|j: int| 0 <= j < ds@.len() ==> #[trigger] dv[j] == decl_view(ds@[j]),
            out@ == start + show_block_items(dv.take(i as int)),
        decreases ds@.len() - i,
    {
        proof { assert(decreases_to!(ds => ds[i as int])); }
        let ghost before = out@;
        out.push('\n');
        let text = indented_decl(&ds[i]);
        push_all(out, &text);
        assert(dv.take(i + 1).drop_last() =~= dv.take(i as int));
        assert(out@ =~= before + seq!['\n'] + indent_text(show_decl(dv[i as int]), 2));
        i = i + 1;
    }
    assert(dv.take(dv.len() as int) =~= dv);
}

fn write_params(out: &mut Vec<char>, f: &FunDecl)
    ensures
        final(out)@ == old(out)@ + show_params(params_view(f.params@)),
{
    let ghost pv = params_view(f.params@);
    let ghost start = out@;
    assert(pv.take(0) =~= Seq::<(Seq<char>, crate::span::Location)>::empty());
    let mut i: usize = 0;
    while i < f.params.len()
        invariant
            i <= f.params@.len(),
            pv == params_view(f.params@),
            pv.len() == f.params@.len(),
            out@ == start + show_params(pv.take(i as int)),
        decreases f.params@.len() - i,
    {
        let ghost before = out@;
        if i > 0 {
            push_str_chars(out, " ");
        }
        push_str_chars(out, f.params[i].0.as_str());
        assert(pv.take(i + 1).drop_last() =~= pv.take(i as int));
        assert(pv[i as int].0 == f.params@[i as int].0@);
        proof {
            if i > 0 {
                assert(out@ =~= before + " "@ + pv[i as int].0);
            } else {
                assert(out@ =~= start + pv[0].0);
            }
        }
        i = i + 1;
    }
    assert(pv.take(pv.len() as int) =~= pv);
}

/// The text of a declaration nested in a block or program, indented by two spaces.
fn indented_decl(d: &Declaration) -> (r: Vec<char>)
    ensures
        r@ == indent_text(show_decl(decl_view(*d)), 2),
    decreases d, 1nat,
{
    let mut text: Vec<char> = Vec::new();
    write_decl(&mut text, d);
    assert(text@ =~= show_decl(decl_view(*d)));
    indent_chars(&text, 2)
}

fn write_fun_decl(out: &mut Vec<char>, f: &FunDecl)
    ensures
        final(out)@ == old(out)@ + "(fn! "@ + f.name@ + " ("@ + show_params(params_view(f.params@)) + ")"@
            + seq!['\n'] + indent_text(show_stmt(stmt_view(*f.body)), 2) + seq!['\n', ')'],
    decreases f, 0nat,
{
    let ghost o = out@;
    push_str_chars(out, "(fn! ");
    push_str_chars(out, f.name.as_str());
    push_str_chars(out, " (");
    write_params(out, f);
    push_str_chars(out, ")");
    out.push('\n');
    let body: &Statement = &*f.body;
    let body_text = indented_stmt(body);
    push_all(out, &body_text);
    out.push('\n');
    out.push(')');
    assert(out@ =~= o + "(fn! "@ + f.name@ + " ("@ + show_params(params_view(f.params@)) + ")"@
        + seq!['\n'] + indent_text(show_stmt(stmt_view(*f.body)), 2) + seq!['\n', ')']);
}

fn write_decl(out: &mut Vec<char>, d: &Declaration)
    ensures
        final(out)@ == old(out)@ + show_decl(decl_view(*d)),
    decreases d, 0nat,
{
    proof { reveal_with_fuel(decl_view, 1); reveal_with_fuel(stmt_view, 1); }
    let ghost o = out@;
    match d {
        Declaration::FunDecl(f, _) => {
            write_fun_decl(out, f);
            assert(out@ =~= o + show_decl(decl_view(*d)));
        },
        Declaration::VarDecl(v, _) => {
            match &v.initializer {
                Some(e) => {
                    push_str_chars(out, "(dassign! ");
                    push_str_chars(out, v.name.as_str());
                    push_str_chars(out, " ");
                    write_expr(out, e);
                    push_str_chars(out, ")");
                },
                None => {
                    push_str_chars(out, "(decl! ");
                    push_str_chars(out, v.name.as_str());
                    push_str_chars(out, ")");
                },
            }
            assert(out@ =~= o + show_decl(decl_view(*d)));
        },
        Declaration::Statement(s, _) => write_stmt(out, s),
    }
}

fn write_program(out: &mut Vec<char>, p: &Program)
    ensures
        final(out)@ == old(out)@ + show_program(program_view(*p)),
{
    let ghost o = out@;
    push_str_chars(out, "(prog");
    out.push('\n');
    let ghost dv = decls_view(p.declarations@);
    let ghost start = out@;
    proof {
        lemma_decls_view_index(p.declarations@);
        assert(dv.take(0) =~= Seq::<SDeclaration>::empty());
    }
    let mut i: usize = 0;
    while i < p.declarations.len()
        invariant
            i <= p.declarations@.len(),
            dv == decls_view(p.declarations@),
            dv.len() == p.declarations@.len(),
            forall|j: int| 0 <= j < p.declarations@.len() ==> #[trigger] dv[j] == decl_view(p.declarations@[j]),
            out@ == start + show_program_items(dv.take(i as int)),
        decreases p.declarations@.len() - i,
    {
        let ghost before = out@;
        let text = indented_decl(&p.declarations[i]);
        push_all(out, &text);
        out.push('\n');
        assert(dv.take(i + 1).drop_last() =~= dv.take(i as int));
        assert(out@ =~= before + indent_text(show_decl(dv[i as int]), 2) + seq!['\n']);
        i = i + 1;
    }
    assert(dv.take(dv.len() as int) =~= dv);
    out.push(')');
    out.push('\n');
    assert(out@ =~= o + show_program(program_view(*p)));
}

impl ASTree {
    /// The s-expression text of the tree, as the `parse` command prints it.
    pub fn debug_text(&self) -> (s: String)
        ensures
            s@ == show_ast(ast_view(*self)),
    {
        let mut out: Vec<char> = Vec::new();
        match self {
            ASTree::Expr(e) => write_expr(&mut out, e),
            ASTree::Declaration(d) => write_decl(&mut out, d),
            ASTree::Program(p) => write_program(&mut out, p),
        }
        chars_to_string(&out)
    }
}

} // verus!
