//! Resolution of variable references and scopes.
//!
//! The resolver walks a parsed program and records, for each variable
//! reference (by its identifier ID, the index of its token), how many
//! environments separate it from the one that defines it: local variables get
//! their lexical depth, globals the number of open scopes at the reference.
//! It rejects redeclarations in one local scope, reading a local variable in
//! its own initializer, and `return` outside a function.
//!
//! `spec_resolve_decl` and its companions state this as a function from a
//! declaration and a resolver state to the next state or an error; the
//! executable `Resolver` is proved to compute it.
//!
//! A scope is a vector of `(name, defined)` entries, one per name as the
//! resolver fills it, viewed as a `Map`: Verus proves what each call does to
//! such a vector, where for a `HashMap` keyed by `String` it proves nothing of
//! the contents.

use vstd::prelude::*;
use std::collections::HashMap;
use crate::span::{Location, Span};
use crate::environment::{bindings_view, find_binding, lemma_bindings_replace_last};
use crate::ast::{
    Primary, PrimaryEnum, Expression, ExpressionEnum, Statement, Declaration, Program, SPrimary, SPrimaryEnum,
    SExpression, SExpressionEnum, SStatement, SDeclaration, SProgram, expr_view, exprs_view, primary_view,
    stmt_view, decl_view, decls_view, program_view, params_view, lemma_exprs_view_index,
    lemma_decls_view_index,
};
use crate::text::{decimal, push_str_chars, push_decimal, chars_to_string};

verus! {

broadcast use vstd::std_specs::hash::group_hash_axioms;

/// The declared variables of one scope: each name maps to whether its
/// initializer has been resolved (`true`) or it is only declared (`false`).
pub type ScopeMap = Map<Seq<char>, bool>;

/// The abstract state of resolution: the stack of local scopes (innermost
/// last), the depths recorded so far by identifier ID, and whether a function
/// body is being resolved.
pub struct RState {
    pub scopes: Seq<ScopeMap>,
    pub locals: Map<usize, usize>,
    pub in_function: bool,
}

/// Why resolution failed.
#[derive(Clone, PartialEq, Eq, Debug)]
pub enum ResolveError {
    /// A name declared twice in one local scope; the location of the second
    /// declaration when it is a variable or parameter.
    AlreadyDeclared { name: String, loc: Option<Location> },
    /// A name defined in a scope where it was never declared.
    NotDeclared { name: String },
    /// A `return` statement outside any function, on the given line.
    TopLevelReturn { line: usize },
    /// A local variable read in its own initializer, at the given location.
    OwnInitializer { name: String, loc: Location },
}

pub enum SResolveError {
    AlreadyDeclared(Seq<char>, Option<Location>),
    NotDeclared(Seq<char>),
    TopLevelReturn(usize),
    OwnInitializer(Seq<char>, Location),
}

impl View for ResolveError {
    type V = SResolveError;

    open spec fn view(&self) -> SResolveError {
        match self {
            ResolveError::AlreadyDeclared { name, loc } => SResolveError::AlreadyDeclared(name@, *loc),
            ResolveError::NotDeclared { name } => SResolveError::NotDeclared(name@),
            ResolveError::TopLevelReturn { line } => SResolveError::TopLevelReturn(*line),
            ResolveError::OwnInitializer { name, loc } => SResolveError::OwnInitializer(name@, *loc),
        }
    }
}

// ---------------------------------------------------------------------------
// The resolution function
// ---------------------------------------------------------------------------

/// `declare`: a name enters the innermost scope as declared but not yet
/// defined; redeclaring it there is an error. With no local scope open
/// (global code) nothing is recorded.
pub open spec fn spec_declare(st: RState, name: Seq<char>, l: Option<Location>) -> Result<RState, SResolveError> {
    if st.scopes.len() == 0 {
        Ok(st)
    } else if st.scopes.last().contains_key(name) {
        Err(SResolveError::AlreadyDeclared(name, l))
    } else {
        Ok(RState { scopes: st.scopes.update(st.scopes.len() - 1, st.scopes.last().insert(name, false)), ..st })
    }
}

/// `define`: a declared name of the innermost scope becomes defined.
pub open spec fn spec_define(st: RState, name: Seq<char>) -> Result<RState, SResolveError> {
    if st.scopes.len() == 0 {
        Ok(st)
    } else if st.scopes.last().contains_key(name) {
        Ok(RState { scopes: st.scopes.update(st.scopes.len() - 1, st.scopes.last().insert(name, true)), ..st })
    } else {
        Err(SResolveError::NotDeclared(name))
    }
}

pub open spec fn spec_begin_scope(st: RState) -> RState {
    RState { scopes: st.scopes.push(Map::empty()), ..st }
}

pub open spec fn spec_end_scope(st: RState) -> RState {
    if st.scopes.len() == 0 { st } else { RState { scopes: st.scopes.drop_last(), ..st } }
}

/// The innermost scope, `hops` or more levels out, that holds `name`:
/// the number of levels out and whether the name is defined there.
pub open spec fn spec_lookup(scopes: Seq<ScopeMap>, name: Seq<char>, hops: nat) -> Option<(nat, bool)>
    decreases scopes.len() - hops,
{
    if hops >= scopes.len() {
        None
    } else if scopes[scopes.len() - 1 - hops].contains_key(name) {
        Some((hops, scopes[scopes.len() - 1 - hops][name]))
    } else {
        spec_lookup(scopes, name, hops + 1)
    }
}

/// Declares and defines each parameter in turn.
pub open spec fn spec_resolve_params(ps: Seq<(Seq<char>, Location)>, st: RState) -> Result<RState, SResolveError>
    decreases ps.len(),
{
    if ps.len() == 0 {
        Ok(st)
    } else {
        match spec_declare(st, ps[0].0, Some(ps[0].1)) {
            Err(e) => Err(e),
            Ok(s1) => match spec_define(s1, ps[0].0) {
                Err(e) => Err(e),
                Ok(s2) => spec_resolve_params(ps.subrange(1, ps.len() as int), s2),
            },
        }
    }
}

/// A primary expression: a variable reference records its depth, or fails if
/// the innermost scope holding it has not finished its initializer.
pub open spec fn spec_resolve_primary(p: SPrimary, st: RState) -> Result<RState, SResolveError>
    decreases p,
{
    match p.p {
        SPrimaryEnum::Literal(_) => Ok(st),
        SPrimaryEnum::Grouping(e) => spec_resolve_expr(*e, st),
        SPrimaryEnum::Identifier(name, id) => match spec_lookup(st.scopes, name, 0) {
            Some((_, false)) => Err(SResolveError::OwnInitializer(name, p.span.start)),
            Some((hops, true)) => Ok(RState { locals: st.locals.insert(id, hops as usize), ..st }),
            None => Ok(RState { locals: st.locals.insert(id, st.scopes.len() as usize), ..st }),
        },
    }
}

pub open spec fn spec_resolve_expr(e: SExpression, st: RState) -> Result<RState, SResolveError>
    decreases e,
{
    match e.expr {
        SExpressionEnum::Primary(p) => spec_resolve_primary(p, st),
        SExpressionEnum::Unary(_, r) => spec_resolve_expr(*r, st),
        SExpressionEnum::Factor(_, l, r) => match spec_resolve_expr(*l, st) {
            Err(err) => Err(err),
            Ok(s) => spec_resolve_expr(*r, s),
        },
        SExpressionEnum::Term(_, l, r) => match spec_resolve_expr(*l, st) {
            Err(err) => Err(err),
            Ok(s) => spec_resolve_expr(*r, s),
        },
        SExpressionEnum::Comparison(_, l, r) => match spec_resolve_expr(*l, st) {
            Err(err) => Err(err),
            Ok(s) => spec_resolve_expr(*r, s),
        },
        SExpressionEnum::Equality(_, l, r) => match spec_resolve_expr(*l, st) {
            Err(err) => Err(err),
            Ok(s) => spec_resolve_expr(*r, s),
        },
        SExpressionEnum::Logical(_, l, r) => match spec_resolve_expr(*l, st) {
            Err(err) => Err(err),
            Ok(s) => spec_resolve_expr(*r, s),
        },
        SExpressionEnum::Assignment(p, v) => match spec_resolve_primary(p, st) {
            Err(err) => Err(err),
            Ok(s) => spec_resolve_expr(*v, s),
        },
        SExpressionEnum::Call(c, args, _) => match spec_resolve_expr(*c, st) {
            Err(err) => Err(err),
            Ok(s) => spec_resolve_exprs(args, s),
        },
    }
}

/// Resolves a list of expressions from first to last.
pub open spec fn spec_resolve_exprs(es: Seq<SExpression>, st: RState) -> Result<RState, SResolveError>
    decreases es,
{
    if es.len() == 0 {
        Ok(st)
    } else {
        match spec_resolve_expr(es[0], st) {
            Err(err) => Err(err),
            Ok(s) => spec_resolve_exprs(es.subrange(1, es.len() as int), s),
        }
    }
}

pub open spec fn spec_resolve_stmt(s: SStatement, st: RState) -> Result<RState, SResolveError>
    decreases s,
{
    match s {
        SStatement::ExprStmt(e, _) => spec_resolve_expr(e, st),
        SStatement::PrintStmt(e, _, _) => spec_resolve_expr(e, st),
        SStatement::ReturnStmt(v, span) => if !st.in_function {
            Err(SResolveError::TopLevelReturn(span.start.line))
        } else {
            match v {
                Some(e) => spec_resolve_expr(e, st),
                None => Ok(st),
            }
        },
        SStatement::IfStmt(c, t, e, _, _) => match spec_resolve_expr(c, st) {
            Err(err) => Err(err),
            Ok(s1) => match spec_resolve_stmt(*t, s1) {
                Err(err) => Err(err),
                Ok(s2) => match e {
                    Some(b) => spec_resolve_stmt(*b, s2),
                    None => Ok(s2),
                },
            },
        },
        SStatement::WhileStmt(c, b, _, _) => match spec_resolve_expr(c, st) {
            Err(err) => Err(err),
            Ok(s1) => spec_resolve_stmt(*b, s1),
        },
        SStatement::Block(ds) => match spec_resolve_decls(ds, spec_begin_scope(st)) {
            Err(err) => Err(err),
            Ok(s1) => Ok(spec_end_scope(s1)),
        },
    }
}

/// Resolves a list of declarations from first to last.
pub open spec fn spec_resolve_decls(ds: Seq<SDeclaration>, st: RState) -> Result<RState, SResolveError>
    decreases ds,
{
    if ds.len() == 0 {
        Ok(st)
    } else {
        match spec_resolve_decl(ds[0], st) {
            Err(err) => Err(err),
            Ok(s) => spec_resolve_decls(ds.subrange(1, ds.len() as int), s),
        }
    }
}

pub open spec fn spec_resolve_decl(d: SDeclaration, st: RState) -> Result<RState, SResolveError>
    decreases d,
{
    match d {
        SDeclaration::FunDecl(f, _) => match spec_declare(st, f.name, None) {
            Err(err) => Err(err),
            Ok(s1) => match spec_define(s1, f.name) {
                Err(err) => Err(err),
                Ok(s2) => match spec_resolve_params(f.params, spec_begin_scope(RState { in_function: true, ..s2 })) {
                    Err(err) => Err(err),
                    Ok(s3) => match (match f.body {
                        SStatement::Block(ds) => spec_resolve_decls(ds, s3),
                        _ => spec_resolve_stmt(f.body, s3),
                    }) {
                        Err(err) => Err(err),
                        Ok(s4) => Ok(RState { in_function: st.in_function, ..spec_end_scope(s4) }),
                    },
                },
            },
        },
        SDeclaration::VarDecl(v, _) => match spec_declare(st, v.name, Some(v.name_loc)) {
            Err(err) => Err(err),
            Ok(s1) => match v.initializer {
                Some(e) => match spec_resolve_expr(e, s1) {
                    Err(err) => Err(err),
                    Ok(s2) => spec_define(s2, v.name),
                },
                None => spec_define(s1, v.name),
            },
        },
        SDeclaration::Statement(s, _) => spec_resolve_stmt(s, st),
    }
}

/// The state a resolution starts from: no local scope, nothing recorded, not in a function.
pub open spec fn initial_rstate() -> RState {
    RState { scopes: seq![], locals: Map::empty(), in_function: false }
}

/// What resolving a whole program gives: the depth of every variable reference, or the first error.
pub open spec fn spec_resolve(p: SProgram) -> Result<Map<usize, usize>, SResolveError> {
    match spec_resolve_decls(p.declarations, initial_rstate()) {
        Err(err) => Err(err),
        Ok(s) => Ok(s.locals),
    }
}

// ---------------------------------------------------------------------------
// What resolution keeps
// ---------------------------------------------------------------------------

/// A successful step leaves the scopes exactly as it found them, the same
/// function context, and every depth recorded before still recorded.
pub open spec fn keeps_scopes(st: RState, r: Result<RState, SResolveError>) -> bool {
    r matches Ok(s2) ==> {
        &&& s2.scopes == st.scopes
        &&& s2.in_function == st.in_function
        &&& st.locals.dom().subset_of(s2.locals.dom())
    }
}

/// A successful step leaves as many scopes open as it found, every scope but
/// the innermost as it was, the same function context, and every depth
/// recorded before still recorded.
pub open spec fn keeps_outer_scopes(st: RState, r: Result<RState, SResolveError>) -> bool {
    r matches Ok(s2) ==> {
        &&& s2.scopes.len() == st.scopes.len()
        &&& forall|i: int| 0 <= i < st.scopes.len() - 1 ==> #[trigger] s2.scopes[i] == st.scopes[i]
        &&& s2.in_function == st.in_function
        &&& st.locals.dom().subset_of(s2.locals.dom())
    }
}

proof fn lemma_params_keep(ps: Seq<(Seq<char>, Location)>, st: RState)
    ensures
        keeps_outer_scopes(st, spec_resolve_params(ps, st)),
    decreases ps.len(),
{
    if ps.len() > 0 {
        if let Ok(s1) = spec_declare(st, ps[0].0, Some(ps[0].1)) {
            if let Ok(s2) = spec_define(s1, ps[0].0) {
                lemma_params_keep(ps.subrange(1, ps.len() as int), s2);
            }
        }
    }
}

proof fn lemma_primary_keeps(p: SPrimary, st: RState)
    ensures
        keeps_scopes(st, spec_resolve_primary(p, st)),
    decreases p,
{
    if let SPrimaryEnum::Grouping(e) = p.p {
        lemma_expr_keeps(*e, st);
    }
}

proof fn lemma_expr_keeps(e: SExpression, st: RState)
    ensures
        keeps_scopes(st, spec_resolve_expr(e, st)),
    decreases e,
{
    match e.expr {
        SExpressionEnum::Primary(p) => lemma_primary_keeps(p, st),
        SExpressionEnum::Unary(_, r) => lemma_expr_keeps(*r, st),
        SExpressionEnum::Factor(_, l, r) | SExpressionEnum::Term(_, l, r) | SExpressionEnum::Comparison(_, l, r)
        | SExpressionEnum::Equality(_, l, r) | SExpressionEnum::Logical(_, l, r) => {
            lemma_expr_keeps(*l, st);
            if let Ok(s) = spec_resolve_expr(*l, st) {
                lemma_expr_keeps(*r, s);
            }
        },
        SExpressionEnum::Assignment(p, v) => {
            lemma_primary_keeps(p, st);
            if let Ok(s) = spec_resolve_primary(p, st) {
                lemma_expr_keeps(*v, s);
            }
        },
        SExpressionEnum::Call(c, args, _) => {
            lemma_expr_keeps(*c, st);
            if let Ok(s) = spec_resolve_expr(*c, st) {
                lemma_exprs_keep(args, s);
            }
        },
    }
}

proof fn lemma_exprs_keep(es: Seq<SExpression>, st: RState)
    ensures
        keeps_scopes(st, spec_resolve_exprs(es, st)),
    decreases es,
{
    if es.len() > 0 {
        lemma_expr_keeps(es[0], st);
        if let Ok(s) = spec_resolve_expr(es[0], st) {
            lemma_exprs_keep(es.subrange(1, es.len() as int), s);
        }
    }
}

/// Resolving a statement, when it succeeds, leaves the scopes exactly as it
/// found them (a block's scope is closed again, and a statement declares
/// nothing in an enclosing scope), the same function context, and every depth
/// recorded before still recorded.
pub proof fn lemma_stmt_keeps(s: SStatement, st: RState)
    ensures
        keeps_scopes(st, spec_resolve_stmt(s, st)),
    decreases s,
{
    match s {
        SStatement::ExprStmt(e, _) => lemma_expr_keeps(e, st),
        SStatement::PrintStmt(e, _, _) => lemma_expr_keeps(e, st),
        SStatement::ReturnStmt(v, _) => {
            if let Some(e) = v {
                lemma_expr_keeps(e, st);
            }
        },
        SStatement::IfStmt(c, t, e, _, _) => {
            lemma_expr_keeps(c, st);
            if let Ok(s1) = spec_resolve_expr(c, st) {
                lemma_stmt_keeps(*t, s1);
                if let Ok(s2) = spec_resolve_stmt(*t, s1) {
                    if let Some(b) = e {
                        lemma_stmt_keeps(*b, s2);
                    }
                }
            }
        },
        SStatement::WhileStmt(c, b, _, _) => {
            lemma_expr_keeps(c, st);
            if let Ok(s1) = spec_resolve_expr(c, st) {
                lemma_stmt_keeps(*b, s1);
            }
        },
        SStatement::Block(ds) => {
            lemma_decls_keep(ds, spec_begin_scope(st));
            if let Ok(s1) = spec_resolve_decls(ds, spec_begin_scope(st)) {
                assert(s1.scopes.drop_last() =~= st.scopes);
            }
        },
    }
}

proof fn lemma_decls_keep(ds: Seq<SDeclaration>, st: RState)
    ensures
        keeps_outer_scopes(st, spec_resolve_decls(ds, st)),
    decreases ds,
{
    if ds.len() > 0 {
        lemma_decl_keeps(ds[0], st);
        if let Ok(s) = spec_resolve_decl(ds[0], st) {
            lemma_decls_keep(ds.subrange(1, ds.len() as int), s);
        }
    }
}

/// Resolving a declaration, when it succeeds, leaves the resolver with as
/// many scopes open as before, every scope but the innermost (where the
/// declared name goes) as it was, the same function context, and every depth
/// recorded before: scopes opened for blocks and function bodies are closed
/// again, and depths are only ever added or updated.
pub proof fn lemma_decl_keeps(d: SDeclaration, st: RState)
    ensures
        keeps_outer_scopes(st, spec_resolve_decl(d, st)),
    decreases d,
{
    match d {
        SDeclaration::FunDecl(f, _) => {
            if let Ok(s1) = spec_declare(st, f.name, None) {
                if let Ok(s2) = spec_define(s1, f.name) {
                    let inner = spec_begin_scope(RState { in_function: true, ..s2 });
                    lemma_params_keep(f.params, inner);
                    if let Ok(s3) = spec_resolve_params(f.params, inner) {
                        match f.body {
                            SStatement::Block(ds) => lemma_decls_keep(ds, s3),
                            _ => lemma_stmt_keeps(f.body, s3),
                        }
                        let body = match f.body {
                            SStatement::Block(ds) => spec_resolve_decls(ds, s3),
                            _ => spec_resolve_stmt(f.body, s3),
                        };
                        if let Ok(s4) = body {
                            assert(s4.scopes.drop_last() =~= s2.scopes);
                        }
                    }
                }
            }
        },
        SDeclaration::VarDecl(v, _) => {
            if let Ok(s1) = spec_declare(st, v.name, Some(v.name_loc)) {
                if let Some(e) = v.initializer {
                    lemma_expr_keeps(e, s1);
                }
            }
        },
        SDeclaration::Statement(s, _) => lemma_stmt_keeps(s, st),
    }
}

// ---------------------------------------------------------------------------
// The depth of a variable reference
// ---------------------------------------------------------------------------

proof fn lemma_lookup_innermost(scopes: Seq<ScopeMap>, name: Seq<char>, hops: nat, j: int)
    requires
        0 <= j < scopes.len(),
        scopes[j].contains_key(name),
        forall|k: int| j < k < scopes.len() ==> !(#[trigger] scopes[k]).contains_key(name),
        hops <= scopes.len() - 1 - j,
    ensures
        spec_lookup(scopes, name, hops) == Some(((scopes.len() - 1 - j) as nat, scopes[j][name])),
    decreases scopes.len() - 1 - j - hops,
{
    if hops < scopes.len() - 1 - j {
        let k = scopes.len() - 1 - hops;
        assert(!scopes[k].contains_key(name));
        lemma_lookup_innermost(scopes, name, hops + 1, j);
    }
}

proof fn lemma_lookup_absent(scopes: Seq<ScopeMap>, name: Seq<char>, hops: nat)
    requires
        forall|k: int| 0 <= k < scopes.len() ==> !(#[trigger] scopes[k]).contains_key(name),
    ensures
        spec_lookup(scopes, name, hops) is None,
    decreases scopes.len() - hops,
{
    if hops < scopes.len() {
        let k = scopes.len() - 1 - hops;
        assert(!scopes[k].contains_key(name));
        lemma_lookup_absent(scopes, name, hops + 1);
    }
}

/// The depth of a variable reference: with `j` the innermost open scope that
/// declares the name, the reference records how many scopes lie between it
/// and `j` (0 for the innermost scope itself), or fails if the name is
/// declared there but its initializer is still being resolved; with no open
/// scope declaring the name (a global), it records the number of open scopes.
/// Nothing else changes.
pub proof fn lemma_reference_depth(name: Seq<char>, id: usize, span: Span, st: RState, j: int)
    ensures
        (forall|k: int| 0 <= k < st.scopes.len() ==> !(#[trigger] st.scopes[k]).contains_key(name))
            ==> spec_resolve_primary(SPrimary { p: SPrimaryEnum::Identifier(name, id), span }, st)
            == Ok::<_, SResolveError>(RState { locals: st.locals.insert(id, st.scopes.len() as usize), ..st }),
        0 <= j < st.scopes.len() && st.scopes[j].contains_key(name)
            && (forall|k: int| j < k < st.scopes.len() ==> !(#[trigger] st.scopes[k]).contains_key(name))
            ==> spec_resolve_primary(SPrimary { p: SPrimaryEnum::Identifier(name, id), span }, st) == (if st.scopes[j][name] {
            Ok::<_, SResolveError>(RState { locals: st.locals.insert(id, (st.scopes.len() - 1 - j) as usize), ..st })
        } else {
            Err(SResolveError::OwnInitializer(name, span.start))
        }),
{
    if forall|k: int| 0 <= k < st.scopes.len() ==> !(#[trigger] st.scopes[k]).contains_key(name) {
        lemma_lookup_absent(st.scopes, name, 0);
    }
    if 0 <= j < st.scopes.len() && st.scopes[j].contains_key(name)
        && (forall|k: int| j < k < st.scopes.len() ==> !(#[trigger] st.scopes[k]).contains_key(name)) {
        lemma_lookup_innermost(st.scopes, name, 0, j);
    }
}

// ---------------------------------------------------------------------------
// Every variable reference gets a depth
// ---------------------------------------------------------------------------

/// The identifier IDs of the variable references (and assignment targets) in
/// a primary expression.
pub open spec fn primary_ids(p: SPrimary) -> Set<usize>
    decreases p,
{
    match p.p {
        SPrimaryEnum::Literal(_) => Set::empty(),
        SPrimaryEnum::Grouping(e) => expr_ids(*e),
        SPrimaryEnum::Identifier(_, id) => set![id],
    }
}

/// The identifier IDs of the variable references in an expression.
pub open spec fn expr_ids(e: SExpression) -> Set<usize>
    decreases e,
{
    match e.expr {
        SExpressionEnum::Primary(p) => primary_ids(p),
        SExpressionEnum::Unary(_, r) => expr_ids(*r),
        SExpressionEnum::Factor(_, l, r) => expr_ids(*l).union(expr_ids(*r)),
        SExpressionEnum::Term(_, l, r) => expr_ids(*l).union(expr_ids(*r)),
        SExpressionEnum::Comparison(_, l, r) => expr_ids(*l).union(expr_ids(*r)),
        SExpressionEnum::Equality(_, l, r) => expr_ids(*l).union(expr_ids(*r)),
        SExpressionEnum::Logical(_, l, r) => expr_ids(*l).union(expr_ids(*r)),
        SExpressionEnum::Assignment(p, v) => primary_ids(p).union(expr_ids(*v)),
        SExpressionEnum::Call(c, args, _) => expr_ids(*c).union(exprs_ids(args)),
    }
}

/// The identifier IDs of the variable references in a list of expressions.
pub open spec fn exprs_ids(es: Seq<SExpression>) -> Set<usize>
    decreases es,
{
    if es.len() == 0 {
        Set::empty()
    } else {
        expr_ids(es[0]).union(exprs_ids(es.subrange(1, es.len() as int)))
    }
}

/// The identifier IDs of the variable references anywhere in a statement,
/// both branches of an `if` included.
pub open spec fn stmt_ids(s: SStatement) -> Set<usize>
    decreases s,
{
    match s {
        SStatement::ExprStmt(e, _) => expr_ids(e),
        SStatement::PrintStmt(e, _, _) => expr_ids(e),
        SStatement::ReturnStmt(v, _) => match v {
            Some(e) => expr_ids(e),
            None => Set::empty(),
        },
        SStatement::IfStmt(c, t, e, _, _) => expr_ids(c).union(stmt_ids(*t)).union(
            match e {
                Some(b) => stmt_ids(*b),
                None => Set::empty(),
            },
        ),
        SStatement::WhileStmt(c, b, _, _) => expr_ids(c).union(stmt_ids(*b)),
        SStatement::Block(ds) => decls_ids(ds),
    }
}

/// The identifier IDs of the variable references in a list of declarations.
pub open spec fn decls_ids(ds: Seq<SDeclaration>) -> Set<usize>
    decreases ds,
{
    if ds.len() == 0 {
        Set::empty()
    } else {
        decl_ids(ds[0]).union(decls_ids(ds.subrange(1, ds.len() as int)))
    }
}

/// The identifier IDs of the variable references in a declaration: in a
/// function's body, in a variable's initializer, or in a statement.
pub open spec fn decl_ids(d: SDeclaration) -> Set<usize>
    decreases d,
{
    match d {
        SDeclaration::FunDecl(f, _) => stmt_ids(f.body),
        SDeclaration::VarDecl(v, _) => match v.initializer {
            Some(e) => expr_ids(e),
            None => Set::empty(),
        },
        SDeclaration::Statement(s, _) => stmt_ids(s),
    }
}

proof fn lemma_primary_records(p: SPrimary, st: RState)
    ensures
        spec_resolve_primary(p, st) matches Ok(s2) ==> primary_ids(p).subset_of(s2.locals.dom()),
    decreases p,
{
    if let SPrimaryEnum::Grouping(e) = p.p {
        lemma_expr_records(*e, st);
    }
}

proof fn lemma_expr_records(e: SExpression, st: RState)
    ensures
        spec_resolve_expr(e, st) matches Ok(s2) ==> expr_ids(e).subset_of(s2.locals.dom()),
    decreases e,
{
    match e.expr {
        SExpressionEnum::Primary(p) => lemma_primary_records(p, st),
        SExpressionEnum::Unary(_, r) => lemma_expr_records(*r, st),
        SExpressionEnum::Factor(_, l, r) | SExpressionEnum::Term(_, l, r) | SExpressionEnum::Comparison(_, l, r)
        | SExpressionEnum::Equality(_, l, r) | SExpressionEnum::Logical(_, l, r) => {
            lemma_expr_records(*l, st);
            if let Ok(s) = spec_resolve_expr(*l, st) {
                lemma_expr_records(*r, s);
                lemma_expr_keeps(*r, s);
            }
        },
        SExpressionEnum::Assignment(p, v) => {
            lemma_primary_records(p, st);
            if let Ok(s) = spec_resolve_primary(p, st) {
                lemma_expr_records(*v, s);
                lemma_expr_keeps(*v, s);
            }
        },
        SExpressionEnum::Call(c, args, _) => {
            lemma_expr_records(*c, st);
            if let Ok(s) = spec_resolve_expr(*c, st) {
                lemma_exprs_records(args, s);
                lemma_exprs_keep(args, s);
            }
        },
    }
}

proof fn lemma_exprs_records(es: Seq<SExpression>, st: RState)
    ensures
        spec_resolve_exprs(es, st) matches Ok(s2) ==> exprs_ids(es).subset_of(s2.locals.dom()),
    decreases es,
{
    if es.len() > 0 {
        lemma_expr_records(es[0], st);
        if let Ok(s) = spec_resolve_expr(es[0], st) {
            lemma_exprs_records(es.subrange(1, es.len() as int), s);
            lemma_exprs_keep(es.subrange(1, es.len() as int), s);
        }
    }
}

/// Resolving a statement, when it succeeds, records a depth for every
/// variable reference in it, wherever it stands (both branches of an `if`,
/// loop bodies, nested blocks and calls included).
pub proof fn lemma_stmt_records_every_reference(s: SStatement, st: RState)
    ensures
        spec_resolve_stmt(s, st) matches Ok(s2) ==> stmt_ids(s).subset_of(s2.locals.dom()),
    decreases s,
{
    match s {
        SStatement::ExprStmt(e, _) => lemma_expr_records(e, st),
        SStatement::PrintStmt(e, _, _) => lemma_expr_records(e, st),
        SStatement::ReturnStmt(v, _) => {
            if let Some(e) = v {
                lemma_expr_records(e, st);
            }
        },
        SStatement::IfStmt(c, t, e, _, _) => {
            lemma_expr_records(c, st);
            if let Ok(s1) = spec_resolve_expr(c, st) {
                lemma_stmt_records_every_reference(*t, s1);
                lemma_stmt_keeps(*t, s1);
                if let Ok(s2) = spec_resolve_stmt(*t, s1) {
                    if let Some(b) = e {
                        lemma_stmt_records_every_reference(*b, s2);
                        lemma_stmt_keeps(*b, s2);
                    }
                }
            }
        },
        SStatement::WhileStmt(c, b, _, _) => {
            lemma_expr_records(c, st);
            if let Ok(s1) = spec_resolve_expr(c, st) {
                lemma_stmt_records_every_reference(*b, s1);
                lemma_stmt_keeps(*b, s1);
            }
        },
        SStatement::Block(ds) => {
            lemma_decls_records(ds, spec_begin_scope(st));
        },
    }
}

proof fn lemma_decls_records(ds: Seq<SDeclaration>, st: RState)
    ensures
        spec_resolve_decls(ds, st) matches Ok(s2) ==> decls_ids(ds).subset_of(s2.locals.dom()),
    decreases ds,
{
    if ds.len() > 0 {
        lemma_decl_records_every_reference(ds[0], st);
        if let Ok(s) = spec_resolve_decl(ds[0], st) {
            lemma_decls_records(ds.subrange(1, ds.len() as int), s);
            lemma_decls_keep(ds.subrange(1, ds.len() as int), s);
        }
    }
}

/// Resolving a declaration, when it succeeds, records a depth for every
/// variable reference in it, a function's body included.
pub proof fn lemma_decl_records_every_reference(d: SDeclaration, st: RState)
    ensures
        spec_resolve_decl(d, st) matches Ok(s2) ==> decl_ids(d).subset_of(s2.locals.dom()),
    decreases d,
{
    match d {
        SDeclaration::FunDecl(f, _) => {
            if let Ok(s1) = spec_declare(st, f.name, None) {
                if let Ok(s2) = spec_define(s1, f.name) {
                    let inner = spec_begin_scope(RState { in_function: true, ..s2 });
                    if let Ok(s3) = spec_resolve_params(f.params, inner) {
                        match f.body {
                            SStatement::Block(ds) => lemma_decls_records(ds, s3),
                            _ => lemma_stmt_records_every_reference(f.body, s3),
                        }
                    }
                }
            }
        },
        SDeclaration::VarDecl(v, _) => {
            if let Ok(s1) = spec_declare(st, v.name, Some(v.name_loc)) {
                if let Some(e) = v.initializer {
                    lemma_expr_records(e, s1);
                }
            }
        },
        SDeclaration::Statement(s, _) => lemma_stmt_records_every_reference(s, st),
    }
}

/// Resolving a program, when it succeeds, gives a depth for every variable
/// reference anywhere in it.
pub proof fn lemma_resolve_records_every_reference(p: SProgram)
    ensures
        spec_resolve(p) matches Ok(m) ==> decls_ids(p.declarations).subset_of(m.dom()),
{
    lemma_decls_records(p.declarations, initial_rstate());
}

// ---------------------------------------------------------------------------
// Error messages
// ---------------------------------------------------------------------------

/// The text reported for a resolution error.
pub open spec fn resolve_error_message(e: SResolveError) -> Seq<char> {
    match e {
        SResolveError::AlreadyDeclared(name, Some(l)) => "[line "@ + decimal(l.line as nat) + ":"@ + decimal(l.col as nat)
            + "] Syntax error: variable '"@ + name + "' already declared in this scope."@,
        SResolveError::AlreadyDeclared(name, None) => "Syntax error: variable '"@ + name
            + "' already declared in this scope."@,
        SResolveError::NotDeclared(name) => "Syntax error: variable '"@ + name + "' not declared in this scope."@,
        SResolveError::TopLevelReturn(line) => "[line "@ + decimal(line as nat)
            + "] Error at 'return': Can't return from top-level code."@,
        SResolveError::OwnInitializer(name, l) => "[line "@ + decimal(l.line as nat) + ":"@ + decimal(l.col as nat)
            + "] Syntax error: can't read local variable '"@ + name + "' in its own initializer."@,
    }
}

impl ResolveError {
    /// The message reported for this error.
    pub fn message(&self) -> (s: String)
        ensures
            s@ == resolve_error_message(self@),
    {
        let mut out: Vec<char> = Vec::new();
        match self {
            ResolveError::AlreadyDeclared { name, loc } => {
                match loc {
                    Some(l) => {
                        push_str_chars(&mut out, "[line ");
                        push_decimal(&mut out, l.line);
                        push_str_chars(&mut out, ":");
                        push_decimal(&mut out, l.col);
                        push_str_chars(&mut out, "] Syntax error: variable '");
                    },
                    None => {
                        push_str_chars(&mut out, "Syntax error: variable '");
                    },
                }
                push_str_chars(&mut out, name.as_str());
                push_str_chars(&mut out, "' already declared in this scope.");
            },
            ResolveError::NotDeclared { name } => {
                push_str_chars(&mut out, "Syntax error: variable '");
                push_str_chars(&mut out, name.as_str());
                push_str_chars(&mut out, "' not declared in this scope.");
            },
            ResolveError::TopLevelReturn { line } => {
                push_str_chars(&mut out, "[line ");
                push_decimal(&mut out, *line);
                push_str_chars(&mut out, "] Error at 'return': Can't return from top-level code.");
            },
            ResolveError::OwnInitializer { name, loc } => {
                push_str_chars(&mut out, "[line ");
                push_decimal(&mut out, loc.line);
                push_str_chars(&mut out, ":");
                push_decimal(&mut out, loc.col);
                push_str_chars(&mut out, "] Syntax error: can't read local variable '");
                push_str_chars(&mut out, name.as_str());
                push_str_chars(&mut out, "' in its own initializer.");
            },
        }
        chars_to_string(&out)
    }
}

// ---------------------------------------------------------------------------
// The executable resolver
// ---------------------------------------------------------------------------

/// Whether the resolver is inside a function body.
#[derive(Clone, Copy, PartialEq, Eq, Debug, Structural)]
pub enum FunctionType {
    NoFunction,
    Function,
}

/// The names of one scope, in order of declaration; a later entry for a name
/// overrides an earlier one.
pub open spec fn scope_view(s: Seq<(String, bool)>) -> ScopeMap
    decreases s.len(),
{
    if s.len() == 0 {
        Map::empty()
    } else {
        scope_view(s.drop_last()).insert(s.last().0@, s.last().1)
    }
}

/// A scope's names are the bindings of its entries.
proof fn lemma_scope_view_is_bindings(s: Seq<(String, bool)>)
    ensures
        scope_view(s) == bindings_view(s),
    decreases s.len(),
{
    if s.len() > 0 {
        lemma_scope_view_is_bindings(s.drop_last());
    }
}

pub open spec fn scopes_view(ss: Seq<Vec<(String, bool)>>) -> Seq<ScopeMap> {
    ss.map_values(|s: Vec<(String, bool)>| scope_view(s@))
}

/// Resolves variable references: the stack of local scopes, the depths
/// recorded so far, and the kind of function being resolved.
pub struct Resolver {
    scopes: Vec<Vec<(String, bool)>>,
    locals: HashMap<usize, usize>,
    current_function: FunctionType,
}

impl View for Resolver {
    type V = RState;

    closed spec fn view(&self) -> RState {
        RState {
            scopes: scopes_view(self.scopes@),
            locals: self.locals@,
            in_function: self.current_function == FunctionType::Function,
        }
    }
}

/// The outcome of a step that changes the resolver in place: its new state, or its error.
pub open spec fn outcome(r: Result<(), ResolveError>, st: RState) -> Result<RState, SResolveError> {
    match r {
        Ok(()) => Ok(st),
        Err(e) => Err(e@),
    }
}

/// Looks `name` up in one scope: whether it is there, and if so whether it is defined.
fn lookup_in_scope(scope: &Vec<(String, bool)>, name: &String) -> (r: Option<bool>)
    ensures
        r == (if scope_view(scope@).contains_key(name@) { Some(scope_view(scope@)[name@]) } else { None::<bool> }),
{
    let mut i = scope.len();
    assert(scope@.take(scope@.len() as int) =~= scope@);
    while i > 0
        invariant
            i <= scope@.len(),
            scope_view(scope@).contains_key(name@) == scope_view(scope@.take(i as int)).contains_key(name@),
            scope_view(scope@).contains_key(name@) ==> scope_view(scope@)[name@] == scope_view(scope@.take(i as int))[name@],
        decreases i,
    {
        assert(scope@.take(i as int).drop_last() == scope@.take(i - 1));
        if scope[i - 1].0 == *name {
            return Some(scope[i - 1].1);
        }
        i = i - 1;
    }
    None
}

impl Resolver {
    /// A resolver with the given scopes, recorded depths and function kind.
    pub fn new(scopes: Vec<Vec<(String, bool)>>, locals: HashMap<usize, usize>, current_function: FunctionType) -> (r: Self)
        ensures
            r@ == (RState {
                scopes: scopes_view(scopes@),
                locals: locals@,
                in_function: current_function == FunctionType::Function,
            }),
    {
        Resolver { scopes, locals, current_function }
    }

    /// Sets the entry for `name` in the innermost scope, of which there is one:
    /// the entry that counts is replaced in place, or a new one added.
    fn set_entry(&mut self, name: String, defined: bool)
        requires
            old(self).scopes@.len() > 0,
        ensures
            final(self)@ == (RState {
                scopes: old(self)@.scopes.update(old(self)@.scopes.len() - 1, old(self)@.scopes.last().insert(name@, defined)),
                ..old(self)@
            }),
    {
        let n = self.scopes.len();
        let ghost old_scopes = self.scopes@;
        let ghost old_last = old_scopes[n - 1]@;
        proof { lemma_scope_view_is_bindings(old_last); }
        let found = find_binding(&self.scopes[n - 1], name.as_str());
        let entry = (name, defined);
        let last = &mut self.scopes[n - 1];
        match found {
            Some(i) => {
                proof { lemma_bindings_replace_last(old_last, i as int, entry); }
                last[i] = entry;
            },
            None => {
                last.push(entry);
                assert(last@.drop_last() == old_last);
            },
        }
        proof { lemma_scope_view_is_bindings(last@); }
        assert(scope_view(last@) == scope_view(old_last).insert(name@, defined));
        assert(scopes_view(self.scopes@) =~= scopes_view(old_scopes).update(
            old_scopes.len() - 1, scope_view(old_last).insert(name@, defined)));
    }

    /// Declares a variable in the innermost scope; an error if it is already
    /// declared there. Nothing is recorded in global code.
    pub fn declare(&mut self, name: &str, loc: Option<Location>) -> (r: Result<(), ResolveError>)
        ensures
            outcome(r, final(self)@) == spec_declare(old(self)@, name@, loc),
            r is Err ==> final(self)@ == old(self)@,
    {
        let n = self.scopes.len();
        if n == 0 {
            return Ok(());
        }
        let owned = name.to_owned();
        match lookup_in_scope(&self.scopes[n - 1], &owned) {
            Some(_) => Err(ResolveError::AlreadyDeclared { name: owned, loc }),
            None => {
                self.set_entry(owned, false);
                Ok(())
            },
        }
    }

    /// Marks a declared variable of the innermost scope as defined.
    pub fn define(&mut self, name: &str) -> (r: Result<(), ResolveError>)
        ensures
            outcome(r, final(self)@) == spec_define(old(self)@, name@),
            r is Err ==> final(self)@ == old(self)@,
    {
        let n = self.scopes.len();
        if n == 0 {
            return Ok(());
        }
        let owned = name.to_owned();
        match lookup_in_scope(&self.scopes[n - 1], &owned) {
            Some(_) => {
                self.set_entry(owned, true);
                Ok(())
            },
            None => Err(ResolveError::NotDeclared { name: owned }),
        }
    }

    /// Opens a new innermost scope.
    pub fn begin_scope(&mut self)
        ensures
            final(self)@ == spec_begin_scope(old(self)@),
    {
        let ghost old_scopes = self.scopes@;
        self.scopes.push(Vec::new());
        assert(scope_view(Seq::<(String, bool)>::empty()) == Map::<Seq<char>, bool>::empty());
        assert(scopes_view(self.scopes@) =~= scopes_view(old_scopes).push(Map::empty()));
    }

    /// Closes the innermost scope.
    pub fn end_scope(&mut self)
        ensures
            final(self)@ == spec_end_scope(old(self)@),
    {
        let ghost old_scopes = self.scopes@;
        let _ = self.scopes.pop();
        proof {
            if old_scopes.len() > 0 {
                assert(scopes_view(self.scopes@) =~= scopes_view(old_scopes).drop_last());
            }
        }
    }
}

impl Resolver {
    /// Resolves a primary expression; a variable reference records the number
    /// of scopes between it and the innermost scope that holds its name, or the
    /// number of open scopes when no local scope holds it (a global).
    #[verifier::loop_isolation(false)]
    pub fn resolve_primary(&mut self, primary: &Primary) -> (r: Result<(), ResolveError>)
        ensures
            outcome(r, final(self)@) == spec_resolve_primary(primary_view(*primary), old(self)@),
            primary.p is Identifier && r is Err ==> final(self)@ == old(self)@,
        decreases primary,
    {
        match &primary.p {
            PrimaryEnum::Literal(_) => Ok(()),
            PrimaryEnum::Grouping(e) => self.resolve_expression(e),
            PrimaryEnum::Identifier(name, id) => {
                let n = self.scopes.len();
                let mut i: usize = 0;
                while i < n
                    invariant
                        n == self.scopes@.len(),
                        i <= n,
                        self@ == old(self)@,
                        spec_lookup(self@.scopes, name@, 0) == spec_lookup(self@.scopes, name@, i as nat),
                    decreases n - i,
                {
                    assert(self@.scopes[n - 1 - i] == scope_view(self.scopes@[n - 1 - i]@));
                    match lookup_in_scope(&self.scopes[n - 1 - i], name) {
                        Some(false) => {
                            return Err(ResolveError::OwnInitializer { name: name.clone(), loc: primary.span.start });
                        },
                        Some(true) => {
                            self.locals.insert(*id, i);
                            return Ok(());
                        },
                        None => {},
                    }
                    i = i + 1;
                }
                self.locals.insert(*id, n);
                Ok(())
            },
        }
    }

    /// Resolves an expression, left to right.
    #[verifier::loop_isolation(false)]
    pub fn resolve_expression(&mut self, expr: &Expression) -> (r: Result<(), ResolveError>)
        ensures
            outcome(r, final(self)@) == spec_resolve_expr(expr_view(*expr), old(self)@),
        decreases expr,
    {
        match &expr.expr {
            ExpressionEnum::Primary(p) => self.resolve_primary(p),
            ExpressionEnum::Unary(_, r) => self.resolve_expression(r),
            ExpressionEnum::Factor(_, l, r) | ExpressionEnum::Term(_, l, r) | ExpressionEnum::Comparison(_, l, r)
            | ExpressionEnum::Equality(_, l, r) | ExpressionEnum::Logical(_, l, r) => {
                match self.resolve_expression(l) {
                    Err(e) => Err(e),
                    Ok(()) => self.resolve_expression(r),
                }
            },
            ExpressionEnum::Assignment(name, value) => {
                match self.resolve_primary(name) {
                    Err(e) => Err(e),
                    Ok(()) => self.resolve_expression(value),
                }
            },
            ExpressionEnum::Call(callee, args) => {
                match self.resolve_expression(callee) {
                    Err(e) => return Err(e),
                    Ok(()) => {},
                }
                let ghost es = args.args@;
                proof {
                    lemma_exprs_view_index(es);
                    assert(exprs_view(es).subrange(0, es.len() as int) =~= exprs_view(es));
                }
                let mut i: usize = 0;
                while i < args.args.len()
                    invariant
                        i <= es.len(),
                        es == args.args@,
                        exprs_view(es).len() == es.len(),
                        forall|j: int| 0 <= j < es.len() ==> #[trigger] exprs_view(es)[j] == expr_view(es[j]),
                        expr_view(*expr).expr == SExpressionEnum::Call(Box::new(expr_view(**callee)), exprs_view(es), args.span),
                        spec_resolve_expr(expr_view(*expr), old(self)@)
                            == spec_resolve_exprs(exprs_view(es).subrange(i as int, es.len() as int), self@),
                    decreases es.len() - i,
                {
                    let ghost sub = exprs_view(es).subrange(i as int, es.len() as int);
                    assert(sub[0] == expr_view(es[i as int]));
                    assert(sub.subrange(1, sub.len() as int) =~= exprs_view(es).subrange(i + 1, es.len() as int));
                        proof { assert(decreases_to!(args.args => args.args[i as int])); }
                    match self.resolve_expression(&args.args[i]) {
                        Err(e) => return Err(e),
                        Ok(()) => {},
                    }
                    i = i + 1;
                }
                Ok(())
            },
        }
    }

    /// Declares and defines the parameters of a function, in order.
    fn resolve_params(&mut self, ps: &Vec<(String, Location)>) -> (r: Result<(), ResolveError>)
        ensures
            outcome(r, final(self)@) == spec_resolve_params(params_view(ps@), old(self)@),
    {
        let ghost pv = params_view(ps@);
        assert(pv.subrange(0, pv.len() as int) =~= pv);
        let mut i: usize = 0;
        while i < ps.len()
            invariant
                i <= ps@.len(),
                pv == params_view(ps@),
                pv.len() == ps@.len(),
                spec_resolve_params(pv, old(self)@) == spec_resolve_params(pv.subrange(i as int, pv.len() as int), self@),
            decreases ps@.len() - i,
        {
            let ghost sub = pv.subrange(i as int, pv.len() as int);
            assert(sub[0] == (ps@[i as int].0@, ps@[i as int].1));
            assert(sub.subrange(1, sub.len() as int) =~= pv.subrange(i + 1, pv.len() as int));
            let (name, loc) = &ps[i];
            match self.declare(name.as_str(), Some(*loc)) {
                Err(e) => return Err(e),
                Ok(()) => {},
            }
            match self.define(name.as_str()) {
                Err(e) => return Err(e),
                Ok(()) => {},
            }
            i = i + 1;
        }
        Ok(())
    }

    /// Resolves a list of declarations, in order.
    fn resolve_declarations(&mut self, ds: &Vec<Declaration>) -> (r: Result<(), ResolveError>)
        ensures
            outcome(r, final(self)@) == spec_resolve_decls(decls_view(ds@), old(self)@),
        decreases ds,
    {
        let ghost dv = decls_view(ds@);
        proof {
            lemma_decls_view_index(ds@);
            assert(dv.subrange(0, dv.len() as int) =~= dv);
        }
        let mut i: usize = 0;
        while i < ds.len()
            invariant
                i <= ds@.len(),
                dv == decls_view(ds@),
                dv.len() == ds@.len(),
                forall|j: int| 0 <= j < ds@.len() ==> #[trigger] dv[j] == decl_view(ds@[j]),
                spec_resolve_decls(dv, old(self)@) == spec_resolve_decls(dv.subrange(i as int, dv.len() as int), self@),
            decreases ds@.len() - i,
        {
            let ghost sub = dv.subrange(i as int, dv.len() as int);
            assert(sub[0] == decl_view(ds@[i as int]));
            assert(sub.subrange(1, sub.len() as int) =~= dv.subrange(i + 1, dv.len() as int));
            proof { assert(decreases_to!(ds => ds[i as int])); }
            match self.resolve_declaration(&ds[i]) {
                Err(e) => return Err(e),
                Ok(()) => {},
            }
            i = i + 1;
        }
        Ok(())
    }

    /// Resolves a statement.
    pub fn resolve_statement(&mut self, stmt: &Statement) -> (r: Result<(), ResolveError>)
        ensures
            outcome(r, final(self)@) == spec_resolve_stmt(stmt_view(*stmt), old(self)@),
        decreases stmt,
    {
        proof { reveal_with_fuel(stmt_view, 1); }
        match stmt {
            Statement::ExprStmt(s) => self.resolve_expression(&s.expr),
            Statement::PrintStmt(s) => self.resolve_expression(&s.expr_stmt.expr),
            Statement::ReturnStmt(s) => {
                if self.current_function == FunctionType::NoFunction {
                    return Err(ResolveError::TopLevelReturn { line: s.span.start.line });
                }
                match &s.value {
                    Some(e) => self.resolve_expression(e),
                    None => Ok(()),
                }
            },
            Statement::IfStmt(s) => {
                match self.resolve_expression(&s.condition) {
                    Err(e) => return Err(e),
                    Ok(()) => {},
                }
                match self.resolve_statement(&s.then_branch) {
                    Err(e) => return Err(e),
                    Ok(()) => {},
                }
                match &s.else_branch {
                    Some(b) => self.resolve_statement(b),
                    None => Ok(()),
                }
            },
            Statement::WhileStmt(s) => {
                match self.resolve_expression(&s.condition) {
                    Err(e) => return Err(e),
                    Ok(()) => {},
                }
                self.resolve_statement(&s.body)
            },
            Statement::Block(decls) => {
                self.begin_scope();
                match self.resolve_declarations(decls) {
                    Err(e) => return Err(e),
                    Ok(()) => {},
                }
                self.end_scope();
                Ok(())
            },
        }
    }

    /// Resolves a declaration. A function's name is bound in the current
    /// scope; its parameters and body are resolved in a new scope.
    pub fn resolve_declaration(&mut self, decl: &Declaration) -> (r: Result<(), ResolveError>)
        ensures
            outcome(r, final(self)@) == spec_resolve_decl(decl_view(*decl), old(self)@),
        decreases decl,
    {
        proof { reveal_with_fuel(decl_view, 1); reveal_with_fuel(stmt_view, 1); }
        match decl {
            Declaration::FunDecl(f, _) => {
                match self.declare(f.name.as_str(), None) {
                    Err(e) => return Err(e),
                    Ok(()) => {},
                }
                match self.define(f.name.as_str()) {
                    Err(e) => return Err(e),
                    Ok(()) => {},
                }
                let enclosing = self.current_function;
                self.current_function = FunctionType::Function;
                self.begin_scope();
                match self.resolve_params(&f.params) {
                    Err(e) => return Err(e),
                    Ok(()) => {},
                }
                let body: &Statement = &*f.body;
                match body {
                    Statement::Block(ds) => {
                        match self.resolve_declarations(ds) {
                            Err(e) => return Err(e),
                            Ok(()) => {},
                        }
                    },
                    _ => {
                        match self.resolve_statement(body) {
                            Err(e) => return Err(e),
                            Ok(()) => {},
                        }
                    },
                }
                self.end_scope();
                self.current_function = enclosing;
                Ok(())
            },
            Declaration::VarDecl(v, _) => {
                match self.declare(v.name.as_str(), Some(v.name_loc)) {
                    Err(e) => return Err(e),
                    Ok(()) => {},
                }
                match &v.initializer {
                    Some(init) => {
                        match self.resolve_expression(init) {
                            Err(e) => return Err(e),
                            Ok(()) => {},
                        }
                    },
                    None => {},
                }
                self.define(v.name.as_str())
            },
            Declaration::Statement(s, _) => self.resolve_statement(s),
        }
    }

    /// Resolves every declaration of a program and gives the recorded depths.
    pub fn resolve_program(&mut self, prog: &Program) -> (r: Result<HashMap<usize, usize>, ResolveError>)
        ensures
            match r {
                Ok(m) => spec_resolve_decls(program_view(*prog).declarations, old(self)@) == Ok::<_, SResolveError>(
                    final(self)@) && m@ == final(self)@.locals,
                Err(e) => spec_resolve_decls(program_view(*prog).declarations, old(self)@) == Err::<RState, _>(e@),
            },
    {
        match self.resolve_declarations(&prog.declarations) {
            Err(e) => Err(e),
            Ok(()) => Ok(self.locals.clone()),
        }
    }
}

/// Resolves all variable references of a program: the depth of each
/// reference by identifier ID (hops up the environment chain), or the
/// first error found.
pub fn resolve(prog: &Program) -> (r: Result<HashMap<usize, usize>, ResolveError>)
    ensures
        match r {
            Ok(m) => spec_resolve(program_view(*prog)) == Ok::<_, SResolveError>(m@),
            Err(e) => spec_resolve(program_view(*prog)) == Err::<Map<usize, usize>, _>(e@),
        },
{
    let mut resolver = Resolver::new(Vec::new(), HashMap::new(), FunctionType::NoFunction);
    assert(scopes_view(Seq::<Vec<(String, bool)>>::empty()) =~= Seq::<ScopeMap>::empty());
    assert(resolver@ == initial_rstate());
    resolver.resolve_program(prog)
}

} // verus!
