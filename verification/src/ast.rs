//! Abstract Syntax Tree (AST) definitions for Lox, and their mathematical views.

use vstd::prelude::*;
use std::rc::Rc;
use crate::span::{Location, Span};

verus! {

/// A constant written in the source: a number (by the text in which it is printed,
/// see `number::printed_number`), a string, or a keyword value.
pub enum Literal {
    Number(String),
    String(String),
    True,
    False,
    Nil,
}

/// An operator of a unary or binary expression, as written.
pub struct Operator {
    pub op: String,
    pub span: Span,
}

pub enum PrimaryEnum {
    Literal(Literal),
    Grouping(Box<Expression>),
    /// A variable reference: its name and identifier ID (index of its token in the token list).
    Identifier(String, usize),
}

/// A primary expression along with its source code span.
pub struct Primary {
    pub p: PrimaryEnum,
    pub span: Span,
}

/// An expression; precedence is encoded by which variant the parser builds.
pub enum ExpressionEnum {
    Primary(Primary),
    Unary(Operator, Box<Expression>),
    Factor(Operator, Box<Expression>, Box<Expression>),
    Term(Operator, Box<Expression>, Box<Expression>),
    Comparison(Operator, Box<Expression>, Box<Expression>),
    Equality(Operator, Box<Expression>, Box<Expression>),
    Logical(Operator, Box<Expression>, Box<Expression>),
    /// Assignment to the identifier in the `Primary`.
    Assignment(Primary, Box<Expression>),
    /// Callee and arguments.
    Call(Box<Expression>, Arguments),
}

/// The arguments of a call, with the span used for error reporting.
pub struct Arguments {
    pub args: Vec<Expression>,
    pub span: Span,
}

/// An expression along with its source code span.
pub struct Expression {
    pub expr: ExpressionEnum,
    pub span: Span,
}

/// `exprStmt → expression ";"`
pub struct ExprStmt {
    pub expr: Expression,
    pub span: Span,
}

/// `ifStmt → "if" "(" expression ")" statement ( "else" statement )?`
pub struct IfStmt {
    pub condition: Expression,
    pub then_branch: Box<Statement>,
    pub else_branch: Option<Box<Statement>>,
    pub span: Span,
    pub depth: usize,
}

/// `printStmt → "print" exprStmt`
pub struct PrintStmt {
    pub expr_stmt: ExprStmt,
    pub span: Span,
}

/// `returnStmt → "return" expression? ";"`
pub struct ReturnStmt {
    pub value: Option<Expression>,
    pub span: Span,
}

/// `whileStmt → "while" "(" expression ")" statement`
pub struct WhileStmt {
    pub condition: Expression,
    pub body: Box<Statement>,
    pub span: Span,
    pub depth: usize,
}

/// A statement; `for` loops are desugared into blocks and `while` loops by the parser.
pub enum Statement {
    ExprStmt(ExprStmt),
    IfStmt(IfStmt),
    PrintStmt(PrintStmt),
    ReturnStmt(ReturnStmt),
    WhileStmt(WhileStmt),
    Block(Vec<Declaration>),
}

/// `funDecl → "fun" IDENTIFIER "(" parameters? ")" block`
pub struct FunDecl {
    pub name: String,
    /// Each element is `(parameter_name, source_location)`.
    pub params: Vec<(String, Location)>,
    /// The block statement representing the function body.
    pub body: Rc<Statement>,
    pub span: Span,
}

/// `varDecl → "var" IDENTIFIER ( "=" expression )? ";"`
pub struct VarDecl {
    pub name: String,
    /// Source location of the variable name token (used for error messages).
    pub name_loc: Location,
    pub initializer: Option<Expression>,
    pub span: Span,
}

/// A declaration with the nesting depth at which it was parsed.
pub enum Declaration {
    FunDecl(FunDecl, usize),
    VarDecl(VarDecl, usize),
    Statement(Statement, usize),
}

/// `program → declaration* EOF`
pub struct Program {
    pub declarations: Vec<Declaration>,
    pub span: Span,
}

/// The result of parsing: a bare expression, a single declaration, or a program.
pub enum ASTree {
    Expr(Expression),
    Declaration(Declaration),
    Program(Program),
}

/// The span of a whole expression inferred from its parts: from the start of
/// its first part to the end of its last.
pub open spec fn inferred_span(e: ExpressionEnum) -> Span {
    match e {
        ExpressionEnum::Primary(p) => p.span,
        ExpressionEnum::Unary(op, r) => Span { start: op.span.start, end: r.span.end },
        ExpressionEnum::Factor(_, l, r) => Span { start: l.span.start, end: r.span.end },
        ExpressionEnum::Term(_, l, r) => Span { start: l.span.start, end: r.span.end },
        ExpressionEnum::Comparison(_, l, r) => Span { start: l.span.start, end: r.span.end },
        ExpressionEnum::Equality(_, l, r) => Span { start: l.span.start, end: r.span.end },
        ExpressionEnum::Logical(_, l, r) => Span { start: l.span.start, end: r.span.end },
        ExpressionEnum::Assignment(name, v) => Span { start: name.span.start, end: v.span.end },
        ExpressionEnum::Call(c, args) => Span { start: c.span.start, end: args.span.end },
    }
}

impl From<ExpressionEnum> for Expression {
    /// An expression whose span runs from the start of its first part to the end of its last.
    fn from(e: ExpressionEnum) -> (r: Self) {
        let span = match &e {
            ExpressionEnum::Primary(p) => p.span,
            ExpressionEnum::Unary(op, r) => Span::new(op.span.start, r.span.end),
            ExpressionEnum::Factor(_, l, r) | ExpressionEnum::Term(_, l, r) | ExpressionEnum::Comparison(_, l, r)
            | ExpressionEnum::Equality(_, l, r) | ExpressionEnum::Logical(_, l, r) => Span::new(l.span.start, r.span.end),
            ExpressionEnum::Assignment(name, v) => Span::new(name.span.start, v.span.end),
            ExpressionEnum::Call(c, args) => Span::new(c.span.start, args.span.end),
        };
        Expression { expr: e, span }
    }
}

impl vstd::std_specs::convert::FromSpecImpl<ExpressionEnum> for Expression {
    open spec fn obeys_from_spec() -> bool {
        true
    }

    open spec fn from_spec(e: ExpressionEnum) -> Self {
        Expression { expr: e, span: inferred_span(e) }
    }
}

// ---------------------------------------------------------------------------
// Mathematical views
// ---------------------------------------------------------------------------

pub enum SLiteral {
    Number(Seq<char>),
    Str(Seq<char>),
    True,
    False,
    Nil,
}

pub struct SOperator {
    pub op: Seq<char>,
    pub span: Span,
}

pub enum SPrimaryEnum {
    Literal(SLiteral),
    Grouping(Box<SExpression>),
    Identifier(Seq<char>, usize),
}

pub struct SPrimary {
    pub p: SPrimaryEnum,
    pub span: Span,
}

pub enum SExpressionEnum {
    Primary(SPrimary),
    Unary(SOperator, Box<SExpression>),
    Factor(SOperator, Box<SExpression>, Box<SExpression>),
    Term(SOperator, Box<SExpression>, Box<SExpression>),
    Comparison(SOperator, Box<SExpression>, Box<SExpression>),
    Equality(SOperator, Box<SExpression>, Box<SExpression>),
    Logical(SOperator, Box<SExpression>, Box<SExpression>),
    Assignment(SPrimary, Box<SExpression>),
    Call(Box<SExpression>, Seq<SExpression>, Span),
}

pub struct SExpression {
    pub expr: SExpressionEnum,
    pub span: Span,
}

pub enum SStatement {
    ExprStmt(SExpression, Span),
    IfStmt(SExpression, Box<SStatement>, Option<Box<SStatement>>, Span, usize),
    PrintStmt(SExpression, Span, Span),
    ReturnStmt(Option<SExpression>, Span),
    WhileStmt(SExpression, Box<SStatement>, Span, usize),
    Block(Seq<SDeclaration>),
}

pub struct SFunDecl {
    pub name: Seq<char>,
    pub params: Seq<(Seq<char>, Location)>,
    pub body: SStatement,
    pub span: Span,
}

pub struct SVarDecl {
    pub name: Seq<char>,
    pub name_loc: Location,
    pub initializer: Option<SExpression>,
    pub span: Span,
}

pub enum SDeclaration {
    FunDecl(SFunDecl, usize),
    VarDecl(SVarDecl, usize),
    Statement(SStatement, usize),
}

pub struct SProgram {
    pub declarations: Seq<SDeclaration>,
    pub span: Span,
}

pub enum SASTree {
    Expr(SExpression),
    Declaration(SDeclaration),
    Program(SProgram),
}

pub open spec fn literal_view(l: Literal) -> SLiteral {
    match l {
        Literal::Number(s) => SLiteral::Number(s@),
        Literal::String(s) => SLiteral::Str(s@),
        Literal::True => SLiteral::True,
        Literal::False => SLiteral::False,
        Literal::Nil => SLiteral::Nil,
    }
}

pub open spec fn operator_view(o: Operator) -> SOperator {
    SOperator { op: o.op@, span: o.span }
}

pub open spec fn primary_view(p: Primary) -> SPrimary
    decreases p,
{
    SPrimary {
        p: match p.p {
            PrimaryEnum::Literal(l) => SPrimaryEnum::Literal(literal_view(l)),
            PrimaryEnum::Grouping(e) => SPrimaryEnum::Grouping(Box::new(expr_view(*e))),
            PrimaryEnum::Identifier(name, id) => SPrimaryEnum::Identifier(name@, id),
        },
        span: p.span,
    }
}

pub open spec fn expr_view(e: Expression) -> SExpression
    decreases e,
{
    SExpression {
        expr: match e.expr {
            ExpressionEnum::Primary(p) => SExpressionEnum::Primary(primary_view(p)),
            ExpressionEnum::Unary(op, r) => SExpressionEnum::Unary(operator_view(op), Box::new(expr_view(*r))),
            ExpressionEnum::Factor(op, l, r) =>
                SExpressionEnum::Factor(operator_view(op), Box::new(expr_view(*l)), Box::new(expr_view(*r))),
            ExpressionEnum::Term(op, l, r) =>
                SExpressionEnum::Term(operator_view(op), Box::new(expr_view(*l)), Box::new(expr_view(*r))),
            ExpressionEnum::Comparison(op, l, r) =>
                SExpressionEnum::Comparison(operator_view(op), Box::new(expr_view(*l)), Box::new(expr_view(*r))),
            ExpressionEnum::Equality(op, l, r) =>
                SExpressionEnum::Equality(operator_view(op), Box::new(expr_view(*l)), Box::new(expr_view(*r))),
            ExpressionEnum::Logical(op, l, r) =>
                SExpressionEnum::Logical(operator_view(op), Box::new(expr_view(*l)), Box::new(expr_view(*r))),
            ExpressionEnum::Assignment(p, v) => SExpressionEnum::Assignment(primary_view(p), Box::new(expr_view(*v))),
            ExpressionEnum::Call(callee, args) =>
                SExpressionEnum::Call(Box::new(expr_view(*callee)), exprs_view(args.args@), args.span),
        },
        span: e.span,
    }
}

pub open spec fn exprs_view(es: Seq<Expression>) -> Seq<SExpression>
    decreases es,
{
    if es.len() == 0 {
        seq![]
    } else {
        exprs_view(es.drop_last()).push(expr_view(es.last()))
    }
}

pub open spec fn opt_expr_view(e: Option<Expression>) -> Option<SExpression> {
    match e {
        Some(x) => Some(expr_view(x)),
        None => None,
    }
}

#[verifier::opaque]
pub open spec fn stmt_view(s: Statement) -> SStatement
    decreases s,
{
    match s {
        Statement::ExprStmt(es) => SStatement::ExprStmt(expr_view(es.expr), es.span),
        Statement::IfStmt(i) => SStatement::IfStmt(
            expr_view(i.condition),
            Box::new(stmt_view(*i.then_branch)),
            match i.else_branch {
                Some(b) => Some(Box::new(stmt_view(*b))),
                None => None,
            },
            i.span,
            i.depth,
        ),
        Statement::PrintStmt(p) => SStatement::PrintStmt(expr_view(p.expr_stmt.expr), p.expr_stmt.span, p.span),
        Statement::ReturnStmt(r) => SStatement::ReturnStmt(opt_expr_view(r.value), r.span),
        Statement::WhileStmt(w) => SStatement::WhileStmt(expr_view(w.condition), Box::new(stmt_view(*w.body)), w.span, w.depth),
        Statement::Block(ds) => SStatement::Block(decls_view(ds@)),
    }
}

pub open spec fn params_view(ps: Seq<(String, Location)>) -> Seq<(Seq<char>, Location)> {
    ps.map_values(|p: (String, Location)| (p.0@, p.1))
}

#[verifier::opaque]
pub open spec fn decl_view(d: Declaration) -> SDeclaration
    decreases d,
{
    match d {
        Declaration::FunDecl(f, depth) => SDeclaration::FunDecl(
            SFunDecl { name: f.name@, params: params_view(f.params@), body: stmt_view(*f.body), span: f.span },
            depth,
        ),
        Declaration::VarDecl(v, depth) => SDeclaration::VarDecl(
            SVarDecl { name: v.name@, name_loc: v.name_loc, initializer: opt_expr_view(v.initializer), span: v.span },
            depth,
        ),
        Declaration::Statement(s, depth) => SDeclaration::Statement(stmt_view(s), depth),
    }
}

pub open spec fn decls_view(ds: Seq<Declaration>) -> Seq<SDeclaration>
    decreases ds,
{
    if ds.len() == 0 {
        seq![]
    } else {
        decls_view(ds.drop_last()).push(decl_view(ds.last()))
    }
}

pub open spec fn program_view(p: Program) -> SProgram {
    SProgram { declarations: decls_view(p.declarations@), span: p.span }
}

pub open spec fn ast_view(t: ASTree) -> SASTree {
    match t {
        ASTree::Expr(e) => SASTree::Expr(expr_view(e)),
        ASTree::Declaration(d) => SASTree::Declaration(decl_view(d)),
        ASTree::Program(p) => SASTree::Program(program_view(p)),
    }
}

/// The view of a list of expressions lists the views of its elements.
pub proof fn lemma_exprs_view_index(es: Seq<Expression>)
    ensures
        exprs_view(es).len() == es.len(),
        forall|i: int| 0 <= i < es.len() ==> #[trigger] exprs_view(es)[i] == expr_view(es[i]),
    decreases es.len(),
{
    if es.len() > 0 {
        lemma_exprs_view_index(es.drop_last());
        assert forall|i: int| 0 <= i < es.len() implies #[trigger] exprs_view(es)[i] == expr_view(es[i]) by {
            if i < es.len() - 1 {
                assert(es.drop_last()[i] == es[i]);
            }
        }
    }
}

/// The view of a list of declarations lists the views of its elements.
pub proof fn lemma_decls_view_index(ds: Seq<Declaration>)
    ensures
        decls_view(ds).len() == ds.len(),
        forall|i: int| 0 <= i < ds.len() ==> #[trigger] decls_view(ds)[i] == decl_view(ds[i]),
    decreases ds.len(),
{
    reveal_with_fuel(decl_view, 1);
    reveal_with_fuel(stmt_view, 1);
    if ds.len() > 0 {
        lemma_decls_view_index(ds.drop_last());
        assert forall|i: int| 0 <= i < ds.len() implies #[trigger] decls_view(ds)[i] == decl_view(ds[i]) by {
            if i < ds.len() - 1 {
                assert(ds.drop_last()[i] == ds[i]);
            }
        }
    }
}

} // verus!
