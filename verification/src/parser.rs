//! The statement and declaration rules of the Lox grammar, as spec functions
//! over token sequences, and the recursive-descent parser proved to compute
//! them. `spec_parse` is the whole grammar:
//!
//! ```text
//! program     → declaration* EOF ;
//! declaration → funDecl | varDecl | statement ;
//! statement   → exprStmt | forStmt | ifStmt | printStmt | returnStmt | whileStmt | block ;
//! ```
//!
//! A token list that is a single expression (no `;` after it) parses to
//! `ASTree::Expression`, the form the `evaluate` command uses.

use vstd::prelude::*;
use std::rc::Rc;
use crate::span::{Location, Span};
use crate::token::{Token, TokenType, SpecToken};
use crate::tokenizer::token_views;
use crate::ast::{
    Literal, PrimaryEnum, Primary, ExpressionEnum, Expression, ExprStmt, IfStmt, PrintStmt, ReturnStmt, WhileStmt, Statement, FunDecl, VarDecl, Declaration,
    Program, ASTree, SExpression, SStatement, SFunDecl, SVarDecl, SDeclaration, SProgram, SASTree, SPrimaryEnum,
    SPrimary, SExpressionEnum, SLiteral, primary_view, expr_view, decl_view, decls_view, ast_view, program_view, params_view,
    stmt_view, opt_expr_view,
};
use crate::grammar::{
    ParseError, ParseErrorKind, SParseError, Construct, SParsed, width, tokens_fit, loc, tok_start,
    tok_end, is_at, end_err, err_tok, err_lexeme, err_at, prev_tok, body_statement, desugar_for,
    without_eof, stmt_span,
};
use crate::precedence::{simple_operand, operand_at, lemma_operand_expression};
use crate::expr_parser::{
    spec_expression, lemma_expression_no_sentinel, advances, lexeme_width, token_start, token_end, end_error, error_at,
    error_lexeme, tok, type_at, prev_token, parse_expression,
};

verus! {

/// What a statement-level rule yields: a declaration, or a bare expression.
pub enum Parsed {
    Decl(Declaration),
    Expr(Expression),
}

pub open spec fn parsed_view(p: Parsed) -> SParsed {
    match p {
        Parsed::Decl(d) => SParsed::Decl(decl_view(d)),
        Parsed::Expr(e) => SParsed::Expr(expr_view(e)),
    }
}

pub open spec fn parsed_res(r: Result<(Parsed, usize), ParseError>) -> Result<(SParsed, int), SParseError> {
    match r {
        Ok((e, p)) => Ok((parsed_view(e), p as int)),
        Err(e) => Err(e@),
    }
}

// ---------------------------------------------------------------------------
// Statements and declarations
// ---------------------------------------------------------------------------

/// `exprStmt → expression ";"`; an expression without `;` is returned bare.
#[verifier::opaque]
pub open spec fn spec_expr_stmt(toks: Seq<SpecToken>, pos: int, depth: usize) -> Result<(SParsed, int), SParseError> {
    match spec_expression(toks, pos) {
        Err(e) => Err(e),
        Ok((e, p)) => if is_at(toks, p, TokenType::Semicolon) {
            let span = Span { start: e.span.start, end: tok_end(toks[p]) };
            Ok((SParsed::Decl(SDeclaration::Statement(SStatement::ExprStmt(e, span), depth)), p + 1))
        } else {
            Ok((SParsed::Expr(e), p))
        },
    }
}

/// `printStmt → "print" exprStmt`
#[verifier::opaque]
pub open spec fn spec_print_stmt(toks: Seq<SpecToken>, pos: int, depth: usize) -> Result<(SParsed, int), SParseError> {
    if !(0 <= pos < toks.len()) {
        Err(end_err())
    } else {
        let pt = toks[pos];
        match spec_expr_stmt(toks, pos + 1, depth) {
            Err(e) => Err(e),
            Ok((r, p)) => match r {
                SParsed::Decl(SDeclaration::Statement(SStatement::ExprStmt(e, es_span), d)) => Ok((
                    SParsed::Decl(SDeclaration::Statement(
                        SStatement::PrintStmt(e, es_span, Span { start: tok_start(pt), end: es_span.end }),
                        d,
                    )),
                    p,
                )),
                _ => Err(err_tok(ParseErrorKind::ExpectedExprStmtAfterPrint, pt)),
            },
        }
    }
}

/// `returnStmt → "return" expression? ";"`
#[verifier::opaque]
pub open spec fn spec_return_stmt(toks: Seq<SpecToken>, pos: int, depth: usize) -> Result<(SParsed, int), SParseError> {
    if !(0 <= pos < toks.len()) {
        Err(end_err())
    } else {
        let rt = toks[pos];
        let value: Result<(Option<SExpression>, int), SParseError> = if is_at(toks, pos + 1, TokenType::Semicolon) {
            Ok((None, pos + 1))
        } else {
            match spec_expression(toks, pos + 1) {
                Err(e) => Err(e),
                Ok((e, p)) => Ok((Some(e), p)),
            }
        };
        match value {
            Err(e) => Err(e),
            Ok((v, p)) => if !(0 <= p < toks.len()) {
                Err(end_err())
            } else if toks[p].token_type != TokenType::Semicolon {
                Err(err_tok(ParseErrorKind::ExpectedSemicolonAfterReturn, toks[p]))
            } else {
                Ok((
                    SParsed::Decl(SDeclaration::Statement(
                        SStatement::ReturnStmt(v, Span { start: tok_start(rt), end: tok_end(toks[p]) }),
                        depth,
                    )),
                    p + 1,
                ))
            },
        }
    }
}

/// `varDecl → "var" IDENTIFIER ( "=" expression )? ";"`
#[verifier::opaque]
pub open spec fn spec_var_decl(toks: Seq<SpecToken>, pos: int, depth: usize) -> Result<(SParsed, int), SParseError> {
    if !(0 <= pos < toks.len()) {
        Err(end_err())
    } else {
        let vt = toks[pos];
        let p1 = pos + 1;
        if !(p1 < toks.len()) {
            Err(err_tok(ParseErrorKind::ExpectedVariableNameAtEof, vt))
        } else if toks[p1].token_type != TokenType::Identifier {
            Err(err_lexeme(ParseErrorKind::ExpectedVariableName, toks[p1]))
        } else {
            let nt = toks[p1];
            let p2 = p1 + 1;
            let init: Result<(Option<SExpression>, int), SParseError> = if is_at(toks, p2, TokenType::Equal) {
                match spec_expression(toks, p2 + 1) {
                    Err(e) => Err(e),
                    Ok((e, p)) => Ok((Some(e), p)),
                }
            } else {
                Ok((None, p2))
            };
            match init {
                Err(e) => Err(e),
                Ok((i, p3)) => if !(0 <= p3 < toks.len()) {
                    Err(err_tok(ParseErrorKind::ExpectedSemicolonAfterVarAtEof, prev_tok(toks, p3)))
                } else if toks[p3].token_type != TokenType::Semicolon {
                    Err(err_lexeme(ParseErrorKind::ExpectedSemicolonAfterVar, toks[p3]))
                } else {
                    Ok((
                        SParsed::Decl(SDeclaration::VarDecl(
                            SVarDecl {
                                name: nt.lexeme,
                                name_loc: tok_start(nt),
                                initializer: i,
                                span: Span { start: tok_start(vt), end: tok_end(toks[p3]) },
                            },
                            depth,
                        )),
                        p3 + 1,
                    ))
                },
            }
        }
    }
}

/// `parameters → IDENTIFIER ( "," IDENTIFIER )*` up to the closing `)`, whose position is returned.
#[verifier::opaque]
pub open spec fn spec_parameters(toks: Seq<SpecToken>, pos: int, acc: Seq<(Seq<char>, Location)>) -> Result<(Seq<(Seq<char>, Location)>, int), SParseError>
    decreases toks.len() - pos,
{
    if !(0 <= pos < toks.len()) {
        Err(err_tok(ParseErrorKind::UnexpectedEofInParameters, prev_tok(toks, pos)))
    } else {
        let t = toks[pos];
        if t.token_type == TokenType::RightParen {
            Ok((acc, pos))
        } else if t.token_type == TokenType::Identifier {
            let acc2 = acc.push((t.lexeme, tok_start(t)));
            let p1 = pos + 1;
            if !(p1 < toks.len()) {
                Err(err_tok(ParseErrorKind::UnexpectedEofInParameters, t))
            } else if toks[p1].token_type == TokenType::Comma {
                let p2 = p1 + 1;
                if p2 < toks.len() && toks[p2].token_type != TokenType::Identifier {
                    Err(err_lexeme(ParseErrorKind::ExpectedParameterAfterComma, toks[p2]))
                } else {
                    spec_parameters(toks, p2, acc2)
                }
            } else if toks[p1].token_type == TokenType::RightParen {
                spec_parameters(toks, p1, acc2)
            } else {
                Err(err_lexeme(ParseErrorKind::ExpectedCommaOrRParenAfterParameter, toks[p1]))
            }
        } else {
            Err(err_lexeme(ParseErrorKind::ExpectedParameterName, t))
        }
    }
}

/// Declarations of a block, after the opening brace, up to and including the closing brace.
#[verifier::opaque]
pub open spec fn spec_block_rest(toks: Seq<SpecToken>, pos: int, depth: usize, open: SpecToken, acc: Seq<SDeclaration>) -> Result<(SParsed, int), SParseError>
    decreases toks.len() - pos, 10int,
{
    if is_at(toks, pos, TokenType::RightBrace) {
        Ok((SParsed::Decl(SDeclaration::Statement(SStatement::Block(acc), depth)), pos + 1))
    } else if !(0 <= pos < toks.len()) || toks[pos].token_type == TokenType::Eof {
        Err(err_tok(ParseErrorKind::UnmatchedBrace, open))
    } else {
        match spec_declaration(toks, pos, (depth + 1) as usize) {
            Err(e) => Err(e),
            Ok((r, p)) => match r {
                SParsed::Decl(d) => if p > pos && p <= toks.len() {
                    spec_block_rest(toks, p, depth, open, acc.push(d))
                } else {
                    Err(end_err())
                },
                SParsed::Expr(_) => if !(0 <= p < toks.len()) {
                    Err(end_err())
                } else if toks[p].token_type == TokenType::RightBrace {
                    Err(err_tok(ParseErrorKind::ExpectedSemicolonFoundBrace, toks[p]))
                } else if toks[p].token_type == TokenType::Eof {
                    Err(err_tok(ParseErrorKind::ExpectedSemicolonFoundEof, toks[p]))
                } else {
                    Err(err_lexeme(ParseErrorKind::UnexpectedLexeme, toks[p]))
                },
            },
        }
    }
}

/// `block → "{" declaration* "}"` (the token at `pos` is taken as the opening brace).
#[verifier::opaque]
pub open spec fn spec_block(toks: Seq<SpecToken>, pos: int, depth: usize) -> Result<(SParsed, int), SParseError>
    decreases toks.len() - pos, 7int,
{
    if !(0 <= pos < toks.len()) {
        Err(end_err())
    } else {
        spec_block_rest(toks, pos + 1, depth, toks[pos], seq![])
    }
}

/// `ifStmt → "if" "(" expression ")" statement ( "else" statement )?`
#[verifier::opaque]
pub open spec fn spec_if_stmt(toks: Seq<SpecToken>, pos: int, depth: usize) -> Result<(SParsed, int), SParseError>
    decreases toks.len() - pos, 7int,
{
    let p1 = pos + 1;
    if !(0 <= pos && p1 < toks.len()) {
        Err(end_err())
    } else if toks[p1].token_type != TokenType::LeftParen {
        Err(err_lexeme(ParseErrorKind::ExpectedLParenAfter(Construct::If), toks[p1]))
    } else {
        match spec_expression(toks, p1 + 1) {
            Err(e) => Err(e),
            Ok((cond, p2)) => if !(0 <= p2 < toks.len()) {
                Err(end_err())
            } else if toks[p2].token_type != TokenType::RightParen {
                Err(err_lexeme(ParseErrorKind::ExpectedRParenAfterCondition(Construct::If), toks[p2]))
            } else if !(p2 + 1 > pos) {
                Err(end_err())
            } else {
                match spec_statement(toks, p2 + 1, (depth + 1) as usize) {
                    Err(e) => Err(e),
                    Ok((r, p3)) => match body_statement(toks, r, p3, Construct::If) {
                        Err(e) => Err(e),
                        Ok(then_s) => if is_at(toks, p3, TokenType::Else) {
                            if !(p3 + 1 > pos && p3 + 1 <= toks.len()) {
                                Err(end_err())
                            } else {
                                match spec_statement(toks, p3 + 1, (depth + 1) as usize) {
                                    Err(e) => Err(e),
                                    Ok((r2, p4)) => match body_statement(toks, r2, p4, Construct::Else) {
                                        Err(e) => Err(e),
                                        Ok(else_s) => Ok((
                                            SParsed::Decl(SDeclaration::Statement(
                                                SStatement::IfStmt(cond, Box::new(then_s), Some(Box::new(else_s)), stmt_span(toks, pos, p4), depth),
                                                depth,
                                            )),
                                            p4,
                                        )),
                                    },
                                }
                            }
                        } else {
                            Ok((
                                SParsed::Decl(SDeclaration::Statement(
                                    SStatement::IfStmt(cond, Box::new(then_s), None, stmt_span(toks, pos, p3), depth),
                                    depth,
                                )),
                                p3,
                            ))
                        },
                    },
                }
            },
        }
    }
}

/// `whileStmt → "while" "(" expression ")" statement`
#[verifier::opaque]
pub open spec fn spec_while_stmt(toks: Seq<SpecToken>, pos: int, depth: usize) -> Result<(SParsed, int), SParseError>
    decreases toks.len() - pos, 7int,
{
    let p1 = pos + 1;
    if !(0 <= pos && p1 < toks.len()) {
        Err(end_err())
    } else if toks[p1].token_type != TokenType::LeftParen {
        Err(err_lexeme(ParseErrorKind::ExpectedLParenAfter(Construct::While), toks[p1]))
    } else {
        match spec_expression(toks, p1 + 1) {
            Err(e) => Err(e),
            Ok((cond, p2)) => if !(0 <= p2 < toks.len()) {
                Err(end_err())
            } else if toks[p2].token_type != TokenType::RightParen {
                Err(err_lexeme(ParseErrorKind::ExpectedRParenAfterCondition(Construct::While), toks[p2]))
            } else if !(p2 + 1 > pos) {
                Err(end_err())
            } else {
                match spec_statement(toks, p2 + 1, (depth + 1) as usize) {
                    Err(e) => Err(e),
                    Ok((r, p3)) => match body_statement(toks, r, p3, Construct::While) {
                        Err(e) => Err(e),
                        Ok(body) => Ok((
                            SParsed::Decl(SDeclaration::Statement(
                                SStatement::WhileStmt(cond, Box::new(body), stmt_span(toks, pos, p3), depth),
                                depth,
                            )),
                            p3,
                        )),
                    },
                }
            },
        }
    }
}

/// `forStmt → "for" "(" ( varDecl | exprStmt | ";" ) expression? ";" expression? ")" statement`
#[verifier::opaque]
pub open spec fn spec_for_stmt(toks: Seq<SpecToken>, pos: int, depth: usize) -> Result<(SParsed, int), SParseError>
    decreases toks.len() - pos, 7int,
{
    let p1 = pos + 1;
    let inner = (depth + 1) as usize;
    if !(0 <= pos && p1 < toks.len()) {
        Err(end_err())
    } else if toks[p1].token_type != TokenType::LeftParen {
        Err(err_lexeme(ParseErrorKind::ExpectedLParenAfter(Construct::For), toks[p1]))
    } else {
        let p2 = p1 + 1;
        let init: Result<(Option<SParsed>, int), SParseError> = if !(p2 < toks.len()) {
            Err(end_err())
        } else if toks[p2].token_type == TokenType::Semicolon {
            Ok((None, p2 + 1))
        } else if toks[p2].token_type == TokenType::Var {
            match spec_var_decl(toks, p2, inner) {
                Err(e) => Err(e),
                Ok((r, p)) => Ok((Some(r), p)),
            }
        } else {
            match spec_expr_stmt(toks, p2, inner) {
                Err(e) => Err(e),
                Ok((r, p)) => Ok((Some(r), p)),
            }
        };
        match init {
            Err(e) => Err(e),
            Ok((i, p3)) => {
                let init_decl: Result<Option<SDeclaration>, SParseError> = match i {
                    Some(SParsed::Decl(d)) => Ok(Some(d)),
                    Some(SParsed::Expr(_)) => Err(err_tok(ParseErrorKind::BadForInitializer, prev_tok(toks, p3))),
                    None => Ok(None),
                };
                match init_decl {
                    Err(e) => Err(e),
                    Ok(init_d) => {
                        let cond: Result<(Option<SExpression>, int), SParseError> = if !(0 <= p3 < toks.len()) {
                            Err(end_err())
                        } else if toks[p3].token_type == TokenType::Semicolon {
                            Ok((None, p3))
                        } else {
                            match spec_expression(toks, p3) {
                                Err(e) => Err(e),
                                Ok((e, p)) => Ok((Some(e), p)),
                            }
                        };
                        match cond {
                            Err(e) => Err(e),
                            Ok((c, p4)) => if !(0 <= p4 < toks.len()) {
                                Err(end_err())
                            } else if toks[p4].token_type != TokenType::Semicolon {
                                Err(err_lexeme(ParseErrorKind::ExpectedSemicolonAfterForCondition, toks[p4]))
                            } else {
                                let p5 = p4 + 1;
                                let inc: Result<(Option<SExpression>, int), SParseError> = if !(p5 < toks.len()) {
                                    Err(end_err())
                                } else if toks[p5].token_type == TokenType::RightParen {
                                    Ok((None, p5))
                                } else {
                                    match spec_expression(toks, p5) {
                                        Err(e) => Err(e),
                                        Ok((e, p)) => Ok((Some(e), p)),
                                    }
                                };
                                match inc {
                                    Err(e) => Err(e),
                                    Ok((ie, p6)) => if !(0 <= p6 < toks.len()) {
                                        Err(end_err())
                                    } else if toks[p6].token_type != TokenType::RightParen {
                                        Err(err_lexeme(ParseErrorKind::ExpectedRParenAfterForIncrement, toks[p6]))
                                    } else if !(p6 + 1 > pos) {
                                        Err(end_err())
                                    } else {
                                        match spec_statement(toks, p6 + 1, inner) {
                                            Err(e) => Err(e),
                                            Ok((r, p7)) => match body_statement(toks, r, p7, Construct::For) {
                                                Err(e) => Err(e),
                                                Ok(body) => Ok((
                                                    SParsed::Decl(SDeclaration::Statement(
                                                        desugar_for(init_d, c, ie, body, stmt_span(toks, pos, p7), depth),
                                                        depth,
                                                    )),
                                                    p7,
                                                )),
                                            },
                                        }
                                    },
                                }
                            },
                        }
                    },
                }
            },
        }
    }
}

/// `statement → block | ifStmt | whileStmt | forStmt | printStmt | returnStmt | exprStmt`
#[verifier::opaque]
pub open spec fn spec_statement(toks: Seq<SpecToken>, pos: int, depth: usize) -> Result<(SParsed, int), SParseError>
    decreases toks.len() - pos, 8int,
{
    if !(0 <= pos < toks.len()) {
        Err(end_err())
    } else {
        let t = toks[pos].token_type;
        if t == TokenType::LeftBrace {
            spec_block(toks, pos, depth)
        } else if t == TokenType::If {
            spec_if_stmt(toks, pos, depth)
        } else if t == TokenType::While {
            spec_while_stmt(toks, pos, depth)
        } else if t == TokenType::For {
            spec_for_stmt(toks, pos, depth)
        } else if t == TokenType::Print {
            spec_print_stmt(toks, pos, depth)
        } else if t == TokenType::Return {
            spec_return_stmt(toks, pos, depth)
        } else {
            spec_expr_stmt(toks, pos, depth)
        }
    }
}

/// `funDecl → "fun" IDENTIFIER "(" parameters? ")" block`
#[verifier::opaque]
pub open spec fn spec_fun_decl(toks: Seq<SpecToken>, pos: int, depth: usize) -> Result<(SParsed, int), SParseError>
    decreases toks.len() - pos, 8int,
{
    let p1 = pos + 1;
    if !(0 <= pos < toks.len()) {
        Err(end_err())
    } else if !(p1 < toks.len()) {
        Err(err_tok(ParseErrorKind::ExpectedFunctionNameAtEof, toks[pos]))
    } else if toks[p1].token_type != TokenType::Identifier {
        Err(err_lexeme(ParseErrorKind::ExpectedFunctionName, toks[p1]))
    } else {
        let name = toks[p1].lexeme;
        let p2 = p1 + 1;
        if !(p2 < toks.len()) {
            Err(end_err())
        } else if toks[p2].token_type != TokenType::LeftParen {
            Err(err_lexeme(ParseErrorKind::ExpectedLParenAfterFunctionName, toks[p2]))
        } else {
            match spec_parameters(toks, p2 + 1, seq![]) {
                Err(e) => Err(e),
                Ok((params, p3)) => if !(p3 + 1 > pos && p3 + 1 <= toks.len()) {
                    Err(end_err())
                } else {
                    match spec_block(toks, p3 + 1, (depth + 1) as usize) {
                        Err(e) => Err(e),
                        Ok((r, p4)) => match r {
                            SParsed::Decl(SDeclaration::Statement(body, _)) => match body {
                                SStatement::Block(_) => Ok((
                                    SParsed::Decl(SDeclaration::FunDecl(
                                        SFunDecl { name, params, body, span: stmt_span(toks, pos, p4) },
                                        depth,
                                    )),
                                    p4,
                                )),
                                _ => Err(err_tok(ParseErrorKind::NonBlockFunctionBody, prev_tok(toks, p4))),
                            },
                            SParsed::Decl(SDeclaration::VarDecl(_, _)) =>
                                Err(err_tok(ParseErrorKind::FunctionBodyIsVarDecl, prev_tok(toks, p4))),
                            SParsed::Decl(SDeclaration::FunDecl(_, _)) =>
                                Err(err_tok(ParseErrorKind::FunctionBodyIsFunDecl, prev_tok(toks, p4))),
                            SParsed::Expr(_) => Err(err_tok(ParseErrorKind::FunctionBodyIsExpression, prev_tok(toks, p4))),
                        },
                    }
                },
            }
        }
    }
}

/// `declaration → funDecl | varDecl | statement`
#[verifier::opaque]
pub open spec fn spec_declaration(toks: Seq<SpecToken>, pos: int, depth: usize) -> Result<(SParsed, int), SParseError>
    decreases toks.len() - pos, 9int,
{
    if !(0 <= pos < toks.len()) {
        Err(end_err())
    } else if toks[pos].token_type == TokenType::Var {
        spec_var_decl(toks, pos, depth)
    } else if toks[pos].token_type == TokenType::Fun {
        spec_fun_decl(toks, pos, depth)
    } else {
        spec_statement(toks, pos, depth)
    }
}

/// `program → declaration* EOF`, continuing after the declarations in `acc`.
#[verifier::opaque]
pub open spec fn spec_program_rest(toks: Seq<SpecToken>, pos: int, acc: Seq<SDeclaration>) -> Result<(SProgram, int), SParseError>
    decreases toks.len() - pos,
{
    if !(0 <= pos < toks.len()) {
        Err(end_err())
    } else {
        let t = toks[pos];
        if t.token_type == TokenType::Eof {
            Ok((SProgram { declarations: acc, span: Span { start: loc(1, 1), end: tok_end(t) } }, pos + 1))
        } else {
            match spec_declaration(toks, pos, 1) {
                Err(e) => Err(e),
                Ok((r, p)) => match r {
                    SParsed::Decl(d) => if p > pos && p <= toks.len() {
                        spec_program_rest(toks, p, acc.push(d))
                    } else {
                        Err(end_err())
                    },
                    SParsed::Expr(_) => if acc.len() == 0 {
                        Err(err_at(ParseErrorKind::NotAProgram, 0, 0))
                    } else {
                        Err(err_tok(ParseErrorKind::ExpectedDeclarationAtTopLevel, t))
                    },
                },
            }
        }
    }
}

/// The result of parsing a token list: a program if it is one, else a single bare expression.
#[verifier::opaque]
pub open spec fn spec_parse(toks: Seq<SpecToken>) -> Result<SASTree, SParseError> {
    match spec_program_rest(toks, 0, seq![]) {
        Ok((prog, _)) => Ok(SASTree::Program(prog)),
        Err(e) => if e.kind == ParseErrorKind::NotAProgram {
            let ts = without_eof(toks);
            match spec_expression(ts, 0) {
                Err(e2) => Err(e2),
                Ok((ex, p)) => if 0 <= p < ts.len() {
                    Err(err_lexeme(ParseErrorKind::UnexpectedToken, ts[p]))
                } else {
                    Ok(SASTree::Expr(ex))
                },
            }
        } else {
            Err(e)
        },
    }
}


// ---------------------------------------------------------------------------
// Statements and declarations
// ---------------------------------------------------------------------------

/// The requirements shared by the statement-level rules: the token list leaves room for
/// positions after it and its columns fit, and nesting depth is bounded by the position.
pub open spec fn statement_ready(tokens: Seq<Token>, pos: usize, depth: usize) -> bool {
    &&& pos <= tokens.len()
    &&& tokens.len() < usize::MAX - 2
    &&& tokens_fit(token_views(tokens))
    &&& 1 <= depth <= pos + 1
}

/// `exprStmt → expression ";"`; an expression without `;` is returned bare.
fn parse_expr_stmt(tokens: &[Token], pos: usize, depth: usize) -> (r: Result<(Parsed, usize), ParseError>)
    requires
        pos <= tokens@.len(),
        tokens_fit(token_views(tokens@)),
    ensures
        parsed_res(r) == spec_expr_stmt(token_views(tokens@), pos as int, depth),
        advances(r, pos, tokens@.len()),
{
    proof { reveal(spec_expr_stmt); }
    proof { reveal_with_fuel(stmt_view, 1); reveal_with_fuel(decl_view, 1); }
    match parse_expression(tokens, pos) {
        Err(e) => Err(e),
        Ok((e, p)) => {
            if type_at(tokens, p, TokenType::Semicolon) {
                let t = tok(tokens, p);
                let span = Span::new(e.span.start, token_end(t));
                let stmt = Statement::ExprStmt(ExprStmt { expr: e, span });
                Ok((Parsed::Decl(Declaration::Statement(stmt, depth)), p + 1))
            } else {
                Ok((Parsed::Expr(e), p))
            }
        },
    }
}

/// `printStmt → "print" exprStmt`
fn parse_print_stmt(tokens: &[Token], pos: usize, depth: usize) -> (r: Result<(Parsed, usize), ParseError>)
    requires
        pos < tokens.len(),
        tokens_fit(token_views(tokens@)),
    ensures
        parsed_res(r) == spec_print_stmt(token_views(tokens@), pos as int, depth),
        advances(r, pos, tokens@.len()),
{
    proof { reveal(spec_print_stmt); }
    proof { reveal_with_fuel(stmt_view, 1); reveal_with_fuel(decl_view, 1); }
    let pt = tok(tokens, pos);
    match parse_expr_stmt(tokens, pos + 1, depth) {
        Err(e) => Err(e),
        Ok((r, p)) => match r {
            Parsed::Decl(Declaration::Statement(Statement::ExprStmt(es), d)) => {
                let span = Span::new(token_start(pt), es.span.end);
                let stmt = Statement::PrintStmt(PrintStmt { expr_stmt: es, span });
                Ok((Parsed::Decl(Declaration::Statement(stmt, d)), p))
            },
            _ => Err(error_at(ParseErrorKind::ExpectedExprStmtAfterPrint, pt)),
        },
    }
}

/// `returnStmt → "return" expression? ";"`
fn parse_return_stmt(tokens: &[Token], pos: usize, depth: usize) -> (r: Result<(Parsed, usize), ParseError>)
    requires
        pos < tokens.len(),
        tokens_fit(token_views(tokens@)),
    ensures
        parsed_res(r) == spec_return_stmt(token_views(tokens@), pos as int, depth),
        advances(r, pos, tokens@.len()),
{
    proof { reveal(spec_return_stmt); }
    proof { reveal_with_fuel(stmt_view, 1); reveal_with_fuel(decl_view, 1); }
    let rt = tok(tokens, pos);
    let value: Option<Expression>;
    let p: usize;
    if type_at(tokens, pos + 1, TokenType::Semicolon) {
        value = None;
        p = pos + 1;
    } else {
        match parse_expression(tokens, pos + 1) {
            Err(e) => return Err(e),
            Ok((e, q)) => {
                value = Some(e);
                p = q;
            },
        }
    }
    if p >= tokens.len() {
        return Err(end_error());
    }
    let st = tok(tokens, p);
    if st.token_type != TokenType::Semicolon {
        return Err(error_at(ParseErrorKind::ExpectedSemicolonAfterReturn, st));
    }
    let span = Span::new(token_start(rt), token_end(st));
    let stmt = Statement::ReturnStmt(ReturnStmt { value, span });
    Ok((Parsed::Decl(Declaration::Statement(stmt, depth)), p + 1))
}

/// `varDecl → "var" IDENTIFIER ( "=" expression )? ";"`
fn parse_var_decl(tokens: &[Token], pos: usize, depth: usize) -> (r: Result<(Parsed, usize), ParseError>)
    requires
        pos < tokens.len(),
        tokens_fit(token_views(tokens@)),
    ensures
        parsed_res(r) == spec_var_decl(token_views(tokens@), pos as int, depth),
        advances(r, pos, tokens@.len()),
{
    proof { reveal(spec_var_decl); }
    proof { reveal_with_fuel(stmt_view, 1); reveal_with_fuel(decl_view, 1); }
    let vt = tok(tokens, pos);
    let p1 = pos + 1;
    if p1 >= tokens.len() {
        return Err(error_at(ParseErrorKind::ExpectedVariableNameAtEof, vt));
    }
    let nt = tok(tokens, p1);
    if nt.token_type != TokenType::Identifier {
        return Err(error_lexeme(ParseErrorKind::ExpectedVariableName, nt));
    }
    let p2 = p1 + 1;
    let initializer: Option<Expression>;
    let p3: usize;
    if type_at(tokens, p2, TokenType::Equal) {
        match parse_expression(tokens, p2 + 1) {
            Err(e) => return Err(e),
            Ok((e, q)) => {
                initializer = Some(e);
                p3 = q;
            },
        }
    } else {
        initializer = None;
        p3 = p2;
    }
    if p3 >= tokens.len() {
        return Err(error_at(ParseErrorKind::ExpectedSemicolonAfterVarAtEof, prev_token(tokens, p3)));
    }
    let st = tok(tokens, p3);
    if st.token_type != TokenType::Semicolon {
        return Err(error_lexeme(ParseErrorKind::ExpectedSemicolonAfterVar, st));
    }
    let span = Span::new(token_start(vt), token_end(st));
    let decl = VarDecl { name: nt.lexeme.clone(), name_loc: token_start(nt), initializer, span };
    Ok((Parsed::Decl(Declaration::VarDecl(decl, depth)), p3 + 1))
}

/// Function parameters up to the closing `)`, whose position is returned.
fn parse_parameters(tokens: &[Token], pos: usize) -> (r: Result<(Vec<(String, Location)>, usize), ParseError>)
    requires
        1 <= pos <= tokens@.len(),
    ensures
        match r {
            Ok((ps, p)) => spec_parameters(token_views(tokens@), pos as int, seq![])
                == Ok::<_, SParseError>((params_view(ps@), p as int)),
            Err(e) => spec_parameters(token_views(tokens@), pos as int, seq![])
                == Err::<(Seq<(Seq<char>, Location)>, int), _>(e@),
        },
        r matches Ok((_, p)) ==> pos <= p < tokens@.len() && tokens@[p as int].token_type == TokenType::RightParen,
{
    proof { reveal_with_fuel(spec_parameters, 1); }
    let ghost toks = token_views(tokens@);
    let mut params: Vec<(String, Location)> = Vec::new();
    let mut p = pos;
    assert(params_view(params@) =~= seq![]);
    loop
        invariant
            1 <= pos <= p <= tokens@.len(),
            toks == token_views(tokens@),
            spec_parameters(toks, pos as int, seq![]) == spec_parameters(toks, p as int, params_view(params@)),
        decreases tokens@.len() - p,
    {
        proof { reveal_with_fuel(spec_parameters, 1); }
        if p >= tokens.len() {
            return Err(error_at(ParseErrorKind::UnexpectedEofInParameters, prev_token(tokens, p)));
        }
        let t = tok(tokens, p);
        if t.token_type == TokenType::RightParen {
            return Ok((params, p));
        } else if t.token_type == TokenType::Identifier {
            let ghost old_params = params@;
            params.push((t.lexeme.clone(), token_start(t)));
            assert(params_view(params@) =~= params_view(old_params).push((t@.lexeme, tok_start(t@))));
            let p1 = p + 1;
            if p1 >= tokens.len() {
                return Err(error_at(ParseErrorKind::UnexpectedEofInParameters, t));
            }
            let nt = tok(tokens, p1);
            if nt.token_type == TokenType::Comma {
                let p2 = p1 + 1;
                if p2 < tokens.len() && tokens[p2].token_type != TokenType::Identifier {
                    return Err(error_lexeme(ParseErrorKind::ExpectedParameterAfterComma, tok(tokens, p2)));
                }
                p = p2;
            } else if nt.token_type == TokenType::RightParen {
                p = p1;
            } else {
                return Err(error_lexeme(ParseErrorKind::ExpectedCommaOrRParenAfterParameter, nt));
            }
        } else {
            return Err(error_lexeme(ParseErrorKind::ExpectedParameterName, t));
        }
    }
}

/// The statement forming the body of an `if`, `else`, `while` or `for`.
fn body_statement_of(tokens: &[Token], r: Parsed, p: usize, c: Construct) -> (res: Result<Statement, ParseError>)
    requires
        1 <= p <= tokens@.len(),
    ensures
        match res {
            Ok(s) => body_statement(token_views(tokens@), parsed_view(r), p as int, c) == Ok::<_, SParseError>(stmt_view(s)),
            Err(e) => body_statement(token_views(tokens@), parsed_view(r), p as int, c)
                == Err::<SStatement, _>(e@),
        },
{
    proof { reveal_with_fuel(stmt_view, 1); reveal_with_fuel(decl_view, 1); }
    match r {
        Parsed::Decl(Declaration::Statement(s, _)) => Ok(s),
        Parsed::Decl(Declaration::VarDecl(_, _)) => Err(error_at(ParseErrorKind::VarDeclInBody(c), prev_token(tokens, p))),
        Parsed::Decl(Declaration::FunDecl(_, _)) => Err(error_at(ParseErrorKind::FunDeclInBody(c), prev_token(tokens, p))),
        Parsed::Expr(_) => Err(error_at(ParseErrorKind::ExpectedStatementInBody(c), prev_token(tokens, p))),
    }
}

/// The span from the start of the token at `first` to the start of the last token consumed.
fn statement_span(tokens: &[Token], first: usize, p: usize) -> (s: Span)
    requires
        first < tokens@.len(),
        1 <= p <= tokens@.len(),
    ensures
        s == stmt_span(token_views(tokens@), first as int, p as int),
{
    Span::new(token_start(tok(tokens, first)), token_start(prev_token(tokens, p)))
}

/// `block → "{" declaration* "}"`; the token at `pos` is taken as the opening brace.
fn parse_block(tokens: &[Token], pos: usize, depth: usize) -> (r: Result<(Parsed, usize), ParseError>)
    requires
        statement_ready(tokens@, pos, depth),
        pos < tokens@.len(),
    ensures
        parsed_res(r) == spec_block(token_views(tokens@), pos as int, depth),
        advances(r, pos, tokens@.len()),
    decreases tokens@.len() - pos, 7int,
{
    proof { reveal_with_fuel(spec_block, 1); reveal_with_fuel(spec_block_rest, 1); reveal_with_fuel(spec_declaration, 1); }
    proof { reveal_with_fuel(stmt_view, 1); reveal_with_fuel(decl_view, 1); }
    let ghost toks = token_views(tokens@);
    let open = tok(tokens, pos);
    let mut decls: Vec<Declaration> = Vec::new();
    let mut p = pos + 1;
    assert(decls_view(decls@) =~= seq![]);
    loop
        invariant
            statement_ready(tokens@, pos, depth),
            pos < p <= tokens@.len(),
            toks == token_views(tokens@),
            open@ == toks[pos as int],
            spec_block(toks, pos as int, depth) == spec_block_rest(toks, p as int, depth, open@, decls_view(decls@)),
        decreases tokens@.len() - p,
    {
        proof {
            reveal_with_fuel(spec_block_rest, 1);
            reveal_with_fuel(spec_declaration, 1);
            reveal_with_fuel(stmt_view, 1);
            reveal_with_fuel(decl_view, 1);
        }
        if type_at(tokens, p, TokenType::RightBrace) {
            return Ok((Parsed::Decl(Declaration::Statement(Statement::Block(decls), depth)), p + 1));
        }
        if p >= tokens.len() || tokens[p].token_type == TokenType::Eof {
            return Err(error_at(ParseErrorKind::UnmatchedBrace, open));
        }
        match parse_declaration(tokens, p, depth + 1) {
            Err(e) => return Err(e),
            Ok((r, p2)) => match r {
                Parsed::Decl(d) => {
                    let ghost old_decls = decls@;
                    decls.push(d);
                    assert(decls@.drop_last() == old_decls);
                    p = p2;
                },
                Parsed::Expr(_) => {
                    if p2 >= tokens.len() {
                        return Err(end_error());
                    }
                    let nt = tok(tokens, p2);
                    if nt.token_type == TokenType::RightBrace {
                        return Err(error_at(ParseErrorKind::ExpectedSemicolonFoundBrace, nt));
                    } else if nt.token_type == TokenType::Eof {
                        return Err(error_at(ParseErrorKind::ExpectedSemicolonFoundEof, nt));
                    } else {
                        return Err(error_lexeme(ParseErrorKind::UnexpectedLexeme, nt));
                    }
                },
            },
        }
    }
}

/// `ifStmt → "if" "(" expression ")" statement ( "else" statement )?`
fn parse_if_stmt(tokens: &[Token], pos: usize, depth: usize) -> (r: Result<(Parsed, usize), ParseError>)
    requires
        statement_ready(tokens@, pos, depth),
        pos < tokens@.len(),
    ensures
        parsed_res(r) == spec_if_stmt(token_views(tokens@), pos as int, depth),
        advances(r, pos, tokens@.len()),
    decreases tokens@.len() - pos, 7int,
{
    proof { reveal_with_fuel(spec_if_stmt, 1); reveal_with_fuel(spec_statement, 1); }
    proof { reveal_with_fuel(stmt_view, 1); reveal_with_fuel(decl_view, 1); }
    let p1 = pos + 1;
    if p1 >= tokens.len() {
        return Err(end_error());
    }
    let lp = tok(tokens, p1);
    if lp.token_type != TokenType::LeftParen {
        return Err(error_lexeme(ParseErrorKind::ExpectedLParenAfter(Construct::If), lp));
    }
    let (condition, p2) = match parse_expression(tokens, p1 + 1) {
        Err(e) => return Err(e),
        Ok(x) => x,
    };
    if p2 >= tokens.len() {
        return Err(end_error());
    }
    let rp = tok(tokens, p2);
    if rp.token_type != TokenType::RightParen {
        return Err(error_lexeme(ParseErrorKind::ExpectedRParenAfterCondition(Construct::If), rp));
    }
    let (r, p3) = match parse_statement(tokens, p2 + 1, depth + 1) {
        Err(e) => return Err(e),
        Ok(x) => x,
    };
    let then_branch = match body_statement_of(tokens, r, p3, Construct::If) {
        Err(e) => return Err(e),
        Ok(s) => s,
    };
    if type_at(tokens, p3, TokenType::Else) {
        let (r2, p4) = match parse_statement(tokens, p3 + 1, depth + 1) {
            Err(e) => return Err(e),
            Ok(x) => x,
        };
        let else_branch = match body_statement_of(tokens, r2, p4, Construct::Else) {
            Err(e) => return Err(e),
            Ok(s) => s,
        };
        let span = statement_span(tokens, pos, p4);
        let stmt = Statement::IfStmt(IfStmt {
            condition,
            then_branch: Box::new(then_branch),
            else_branch: Some(Box::new(else_branch)),
            span,
            depth,
        });
        Ok((Parsed::Decl(Declaration::Statement(stmt, depth)), p4))
    } else {
        let span = statement_span(tokens, pos, p3);
        let stmt = Statement::IfStmt(IfStmt { condition, then_branch: Box::new(then_branch), else_branch: None, span, depth });
        Ok((Parsed::Decl(Declaration::Statement(stmt, depth)), p3))
    }
}

/// `whileStmt → "while" "(" expression ")" statement`
fn parse_while_stmt(tokens: &[Token], pos: usize, depth: usize) -> (r: Result<(Parsed, usize), ParseError>)
    requires
        statement_ready(tokens@, pos, depth),
        pos < tokens@.len(),
    ensures
        parsed_res(r) == spec_while_stmt(token_views(tokens@), pos as int, depth),
        advances(r, pos, tokens@.len()),
    decreases tokens@.len() - pos, 7int,
{
    proof { reveal_with_fuel(spec_while_stmt, 1); reveal_with_fuel(spec_statement, 1); }
    proof { reveal_with_fuel(stmt_view, 1); reveal_with_fuel(decl_view, 1); }
    let p1 = pos + 1;
    if p1 >= tokens.len() {
        return Err(end_error());
    }
    let lp = tok(tokens, p1);
    if lp.token_type != TokenType::LeftParen {
        return Err(error_lexeme(ParseErrorKind::ExpectedLParenAfter(Construct::While), lp));
    }
    let (condition, p2) = match parse_expression(tokens, p1 + 1) {
        Err(e) => return Err(e),
        Ok(x) => x,
    };
    if p2 >= tokens.len() {
        return Err(end_error());
    }
    let rp = tok(tokens, p2);
    if rp.token_type != TokenType::RightParen {
        return Err(error_lexeme(ParseErrorKind::ExpectedRParenAfterCondition(Construct::While), rp));
    }
    let (r, p3) = match parse_statement(tokens, p2 + 1, depth + 1) {
        Err(e) => return Err(e),
        Ok(x) => x,
    };
    let body = match body_statement_of(tokens, r, p3, Construct::While) {
        Err(e) => return Err(e),
        Ok(s) => s,
    };
    let span = statement_span(tokens, pos, p3);
    let stmt = Statement::WhileStmt(WhileStmt { condition, body: Box::new(body), span, depth });
    Ok((Parsed::Decl(Declaration::Statement(stmt, depth)), p3))
}

pub open spec fn opt_decl_view(d: Option<Declaration>) -> Option<SDeclaration> {
    match d {
        Some(x) => Some(decl_view(x)),
        None => None,
    }
}

/// A vector of one declaration.
fn one_decl(a: Declaration) -> (v: Vec<Declaration>)
    ensures
        decls_view(v@) == seq![decl_view(a)],
{
    proof { reveal_with_fuel(stmt_view, 1); reveal_with_fuel(decl_view, 1); }
    let mut v: Vec<Declaration> = Vec::new();
    v.push(a);
    proof {
        reveal_with_fuel(decls_view, 2);
        assert(v@.drop_last() =~= seq![]);
        assert(decls_view(v@) =~= seq![decl_view(a)]);
    }
    v
}

/// A vector of two declarations.
fn two_decls(a: Declaration, b: Declaration) -> (v: Vec<Declaration>)
    ensures
        decls_view(v@) == seq![decl_view(a), decl_view(b)],
{
    proof { reveal_with_fuel(stmt_view, 1); reveal_with_fuel(decl_view, 1); }
    let mut v: Vec<Declaration> = Vec::new();
    v.push(a);
    v.push(b);
    proof {
        reveal_with_fuel(decls_view, 3);
        assert(v@.drop_last() =~= seq![a]);
        assert(v@.drop_last().drop_last() =~= seq![]);
        assert(decls_view(v@) =~= seq![decl_view(a), decl_view(b)]);
    }
    v
}

/// A statement as a declaration at the given depth.
fn statement_decl(s: Statement, depth: usize) -> (d: Declaration)
    ensures
        decl_view(d) == SDeclaration::Statement(stmt_view(s), depth),
{
    proof { reveal_with_fuel(decl_view, 1); reveal_with_fuel(stmt_view, 1); }
    Declaration::Statement(s, depth)
}

/// An expression statement spanning its expression.
fn expression_statement(e: Expression) -> (s: Statement)
    ensures
        stmt_view(s) == SStatement::ExprStmt(expr_view(e), e.span),
{
    proof { reveal_with_fuel(stmt_view, 1); }
    let span = e.span;
    Statement::ExprStmt(ExprStmt { expr: e, span })
}

fn block_statement(v: Vec<Declaration>) -> (s: Statement)
    ensures
        stmt_view(s) == SStatement::Block(decls_view(v@)),
{
    proof { reveal_with_fuel(stmt_view, 1); }
    Statement::Block(v)
}

fn while_statement(c: Expression, b: Statement, span: Span, depth: usize) -> (s: Statement)
    ensures
        stmt_view(s) == SStatement::WhileStmt(expr_view(c), Box::new(stmt_view(b)), span, depth),
{
    proof { reveal_with_fuel(stmt_view, 1); }
    Statement::WhileStmt(WhileStmt { condition: c, body: Box::new(b), span, depth })
}

fn true_literal(span: Span) -> (e: Expression)
    ensures
        expr_view(e) == (SExpression {
            expr: SExpressionEnum::Primary(SPrimary { p: SPrimaryEnum::Literal(SLiteral::True), span }),
            span,
        }),
{
    let p = Primary { p: PrimaryEnum::Literal(Literal::True), span };
    assert(primary_view(p) == SPrimary { p: SPrimaryEnum::Literal(SLiteral::True), span });
    Expression { expr: ExpressionEnum::Primary(p), span }
}

/// Builds the `while` loop (in a block with the initializer) that a `for` loop stands for.
fn desugar_for_loop(
    init: Option<Declaration>,
    cond: Option<Expression>,
    inc: Option<Expression>,
    body: Statement,
    span: Span,
    depth: usize,
) -> (s: Statement)
    requires
        depth < usize::MAX - 1,
    ensures
        stmt_view(s) == desugar_for(opt_decl_view(init), opt_expr_view(cond), opt_expr_view(inc), stmt_view(body), span, depth),
{
    let inner = depth + 1;
    let ghost bv = stmt_view(body);
    let body_block = block_statement(one_decl(statement_decl(body, depth + 2)));
    assert(stmt_view(body_block) == SStatement::Block(seq![SDeclaration::Statement(bv, (depth + 2) as usize)]));
    let ghost bbv = stmt_view(body_block);
    let loop_body = match inc {
        Some(ie) => {
            let ghost iv = expr_view(ie);
            let first = statement_decl(body_block, inner);
            let second = statement_decl(expression_statement(ie), inner);
            let v = two_decls(first, second);
            let b = block_statement(v);
            assert(stmt_view(b) == SStatement::Block(seq![
                SDeclaration::Statement(bbv, inner),
                SDeclaration::Statement(SStatement::ExprStmt(iv, iv.span), inner),
            ]));
            b
        },
        None => {
            let b = block_statement(one_decl(statement_decl(body_block, inner)));
            assert(stmt_view(b) == SStatement::Block(seq![SDeclaration::Statement(bbv, inner)]));
            b
        },
    };
    let c = match cond {
        Some(c) => c,
        None => true_literal(span),
    };
    let w = while_statement(c, loop_body, span, inner);
    let v = match init {
        Some(d) => two_decls(d, statement_decl(w, inner)),
        None => one_decl(statement_decl(w, inner)),
    };
    block_statement(v)
}

/// `forStmt → "for" "(" ( varDecl | exprStmt | ";" ) expression? ";" expression? ")" statement`,
/// desugared into a `while` loop.
fn parse_for_stmt(tokens: &[Token], pos: usize, depth: usize) -> (r: Result<(Parsed, usize), ParseError>)
    requires
        statement_ready(tokens@, pos, depth),
        pos < tokens@.len(),
    ensures
        parsed_res(r) == spec_for_stmt(token_views(tokens@), pos as int, depth),
        advances(r, pos, tokens@.len()),
    decreases tokens@.len() - pos, 7int,
{
    proof { reveal_with_fuel(spec_for_stmt, 1); reveal_with_fuel(spec_statement, 1); }
    let ghost toks = token_views(tokens@);
    let p1 = pos + 1;
    let inner = depth + 1;
    if p1 >= tokens.len() {
        return Err(end_error());
    }
    let lp = tok(tokens, p1);
    if lp.token_type != TokenType::LeftParen {
        return Err(error_lexeme(ParseErrorKind::ExpectedLParenAfter(Construct::For), lp));
    }
    let p2 = p1 + 1;
    if p2 >= tokens.len() {
        return Err(end_error());
    }
    // The initializer: a variable declaration, an expression statement, or nothing.
    let init: Option<Parsed>;
    let p3: usize;
    let it = tok(tokens, p2);
    if it.token_type == TokenType::Semicolon {
        init = None;
        p3 = p2 + 1;
    } else if it.token_type == TokenType::Var {
        match parse_var_decl(tokens, p2, inner) {
            Err(e) => return Err(e),
            Ok((r, q)) => {
                init = Some(r);
                p3 = q;
            },
        }
    } else {
        match parse_expr_stmt(tokens, p2, inner) {
            Err(e) => return Err(e),
            Ok((r, q)) => {
                init = Some(r);
                p3 = q;
            },
        }
    }
    let init_decl: Option<Declaration> = match init {
        Some(Parsed::Decl(d)) => Some(d),
        Some(Parsed::Expr(_)) => {
            return Err(error_at(ParseErrorKind::BadForInitializer, prev_token(tokens, p3)));
        },
        None => None,
    };
    // The condition.
    if p3 >= tokens.len() {
        return Err(end_error());
    }
    let cond: Option<Expression>;
    let p4: usize;
    if tokens[p3].token_type == TokenType::Semicolon {
        cond = None;
        p4 = p3;
    } else {
        match parse_expression(tokens, p3) {
            Err(e) => return Err(e),
            Ok((e, q)) => {
                cond = Some(e);
                p4 = q;
            },
        }
    }
    if p4 >= tokens.len() {
        return Err(end_error());
    }
    let st = tok(tokens, p4);
    if st.token_type != TokenType::Semicolon {
        return Err(error_lexeme(ParseErrorKind::ExpectedSemicolonAfterForCondition, st));
    }
    // The increment.
    let p5 = p4 + 1;
    if p5 >= tokens.len() {
        return Err(end_error());
    }
    let inc: Option<Expression>;
    let p6: usize;
    if tokens[p5].token_type == TokenType::RightParen {
        inc = None;
        p6 = p5;
    } else {
        match parse_expression(tokens, p5) {
            Err(e) => return Err(e),
            Ok((e, q)) => {
                inc = Some(e);
                p6 = q;
            },
        }
    }
    if p6 >= tokens.len() {
        return Err(end_error());
    }
    let rp = tok(tokens, p6);
    if rp.token_type != TokenType::RightParen {
        return Err(error_lexeme(ParseErrorKind::ExpectedRParenAfterForIncrement, rp));
    }
    // The body.
    let (r, p7) = match parse_statement(tokens, p6 + 1, inner) {
        Err(e) => return Err(e),
        Ok(x) => x,
    };
    let body = match body_statement_of(tokens, r, p7, Construct::For) {
        Err(e) => return Err(e),
        Ok(s) => s,
    };
    let span = statement_span(tokens, pos, p7);
    let stmt = desugar_for_loop(init_decl, cond, inc, body, span, depth);
    Ok((Parsed::Decl(statement_decl(stmt, depth)), p7))
}

/// `statement → block | ifStmt | whileStmt | forStmt | printStmt | returnStmt | exprStmt`
fn parse_statement(tokens: &[Token], pos: usize, depth: usize) -> (r: Result<(Parsed, usize), ParseError>)
    requires
        statement_ready(tokens@, pos, depth),
    ensures
        parsed_res(r) == spec_statement(token_views(tokens@), pos as int, depth),
        advances(r, pos, tokens@.len()),
    decreases tokens@.len() - pos, 8int,
{
    proof { reveal_with_fuel(spec_statement, 1); reveal_with_fuel(spec_block, 1); reveal_with_fuel(spec_if_stmt, 1); reveal_with_fuel(spec_while_stmt, 1); reveal_with_fuel(spec_for_stmt, 1); }
    if pos >= tokens.len() {
        return Err(end_error());
    }
    let t = tok(tokens, pos).token_type;
    if t == TokenType::LeftBrace {
        parse_block(tokens, pos, depth)
    } else if t == TokenType::If {
        parse_if_stmt(tokens, pos, depth)
    } else if t == TokenType::While {
        parse_while_stmt(tokens, pos, depth)
    } else if t == TokenType::For {
        parse_for_stmt(tokens, pos, depth)
    } else if t == TokenType::Print {
        parse_print_stmt(tokens, pos, depth)
    } else if t == TokenType::Return {
        parse_return_stmt(tokens, pos, depth)
    } else {
        parse_expr_stmt(tokens, pos, depth)
    }
}

/// `funDecl → "fun" IDENTIFIER "(" parameters? ")" block`
fn parse_fun_decl(tokens: &[Token], pos: usize, depth: usize) -> (r: Result<(Parsed, usize), ParseError>)
    requires
        statement_ready(tokens@, pos, depth),
        pos < tokens@.len(),
    ensures
        parsed_res(r) == spec_fun_decl(token_views(tokens@), pos as int, depth),
        advances(r, pos, tokens@.len()),
    decreases tokens@.len() - pos, 8int,
{
    proof { reveal_with_fuel(spec_fun_decl, 1); reveal_with_fuel(spec_block, 1); reveal_with_fuel(spec_parameters, 1); }
    proof { reveal_with_fuel(stmt_view, 1); reveal_with_fuel(decl_view, 1); }
    let ghost toks = token_views(tokens@);
    let p1 = pos + 1;
    if p1 >= tokens.len() {
        return Err(error_at(ParseErrorKind::ExpectedFunctionNameAtEof, tok(tokens, pos)));
    }
    let nt = tok(tokens, p1);
    if nt.token_type != TokenType::Identifier {
        return Err(error_lexeme(ParseErrorKind::ExpectedFunctionName, nt));
    }
    let name = nt.lexeme.clone();
    let p2 = p1 + 1;
    if p2 >= tokens.len() {
        return Err(end_error());
    }
    let lp = tok(tokens, p2);
    if lp.token_type != TokenType::LeftParen {
        return Err(error_lexeme(ParseErrorKind::ExpectedLParenAfterFunctionName, lp));
    }
    let (params, p3) = match parse_parameters(tokens, p2 + 1) {
        Err(e) => return Err(e),
        Ok(x) => x,
    };
    if p3 + 1 >= tokens.len() {
        return Err(end_error());
    }
    let (r, p4) = match parse_block(tokens, p3 + 1, depth + 1) {
        Err(e) => return Err(e),
        Ok(x) => x,
    };
    match r {
        Parsed::Decl(Declaration::Statement(body, _)) => {
            let is_block = match &body {
                Statement::Block(_) => true,
                _ => false,
            };
            if is_block {
                let span = statement_span(tokens, pos, p4);
                let decl = FunDecl { name, params, body: Rc::new(body), span };
                Ok((Parsed::Decl(Declaration::FunDecl(decl, depth)), p4))
            } else {
                Err(error_at(ParseErrorKind::NonBlockFunctionBody, prev_token(tokens, p4)))
            }
        },
        Parsed::Decl(Declaration::VarDecl(_, _)) => Err(error_at(ParseErrorKind::FunctionBodyIsVarDecl, prev_token(tokens, p4))),
        Parsed::Decl(Declaration::FunDecl(_, _)) => Err(error_at(ParseErrorKind::FunctionBodyIsFunDecl, prev_token(tokens, p4))),
        Parsed::Expr(_) => Err(error_at(ParseErrorKind::FunctionBodyIsExpression, prev_token(tokens, p4))),
    }
}

/// `declaration → funDecl | varDecl | statement`
fn parse_declaration(tokens: &[Token], pos: usize, depth: usize) -> (r: Result<(Parsed, usize), ParseError>)
    requires
        statement_ready(tokens@, pos, depth),
    ensures
        parsed_res(r) == spec_declaration(token_views(tokens@), pos as int, depth),
        advances(r, pos, tokens@.len()),
    decreases tokens@.len() - pos, 9int,
{
    proof { reveal_with_fuel(spec_declaration, 1); reveal_with_fuel(spec_fun_decl, 1); reveal_with_fuel(spec_statement, 1); }
    if pos >= tokens.len() {
        return Err(end_error());
    }
    let t = tok(tokens, pos).token_type;
    if t == TokenType::Var {
        parse_var_decl(tokens, pos, depth)
    } else if t == TokenType::Fun {
        parse_fun_decl(tokens, pos, depth)
    } else {
        parse_statement(tokens, pos, depth)
    }
}

/// `program → declaration* EOF`
fn parse_program(tokens: &[Token]) -> (r: Result<Program, ParseError>)
    requires
        tokens@.len() < usize::MAX - 2,
        tokens_fit(token_views(tokens@)),
    ensures
        match r {
            Ok(prog) => spec_program_rest(token_views(tokens@), 0, seq![]) matches Ok((sp, _)) && sp == program_view(prog),
            Err(e) => spec_program_rest(token_views(tokens@), 0, seq![]) == Err::<(SProgram, int), _>(e@),
        },
{
    proof { reveal_with_fuel(spec_program_rest, 1); reveal_with_fuel(spec_declaration, 1); }
    let ghost toks = token_views(tokens@);
    let mut decls: Vec<Declaration> = Vec::new();
    let mut p: usize = 0;
    assert(decls_view(decls@) =~= seq![]);
    loop
        invariant
            p <= tokens@.len(),
            tokens@.len() < usize::MAX - 2,
            tokens_fit(toks),
            toks == token_views(tokens@),
            spec_program_rest(toks, 0, seq![]) == spec_program_rest(toks, p as int, decls_view(decls@)),
        decreases tokens@.len() - p,
    {
        proof {
            reveal_with_fuel(spec_program_rest, 1);
            reveal_with_fuel(spec_declaration, 1);
            reveal_with_fuel(stmt_view, 1);
            reveal_with_fuel(decl_view, 1);
        }
        if p >= tokens.len() {
            return Err(end_error());
        }
        let t = tok(tokens, p);
        if t.token_type == TokenType::Eof {
            let span = Span::new(Location::new(1, 1), token_end(t));
            return Ok(Program { declarations: decls, span });
        }
        match parse_declaration(tokens, p, 1) {
            Err(e) => return Err(e),
            Ok((r, p2)) => match r {
                Parsed::Decl(d) => {
                    let ghost old_decls = decls@;
                    decls.push(d);
                    assert(decls@.drop_last() == old_decls);
                    p = p2;
                },
                Parsed::Expr(_) => {
                    if decls.len() == 0 {
                        return Err(ParseError { kind: ParseErrorKind::NotAProgram, line: 0, col: 0, text: String::new() });
                    } else {
                        return Err(error_at(ParseErrorKind::ExpectedDeclarationAtTopLevel, t));
                    }
                },
            },
        }
    }
}

/// The tokens without a final `EOF` token.
fn tokens_without_eof(tokens: &[Token]) -> (ts: &[Token])
    ensures
        token_views(ts@) == without_eof(token_views(tokens@)),
{
    let n = tokens.len();
    if n > 0 && tokens[n - 1].token_type == TokenType::Eof {
        let ts = vstd::slice::slice_subrange(tokens, 0, n - 1);
        assert(token_views(ts@) =~= token_views(tokens@).drop_last());
        ts
    } else {
        tokens
    }
}

/// Parses a token list: as a program if it is one, else as a single bare expression.
pub fn parse(tokens: &[Token]) -> (r: Result<ASTree, ParseError>)
    requires
        tokens@.len() < usize::MAX - 2,
        tokens_fit(token_views(tokens@)),
    ensures
        match r {
            Ok(t) => spec_parse(token_views(tokens@)) == Ok::<_, SParseError>(ast_view(t)),
            Err(e) => spec_parse(token_views(tokens@)) == Err::<SASTree, _>(e@),
        },
{
    proof { reveal(spec_parse); reveal_with_fuel(spec_program_rest, 1); }
    match parse_program(tokens) {
        Ok(prog) => Ok(ASTree::Program(prog)),
        Err(e) => {
            if e.kind == ParseErrorKind::NotAProgram {
                let ts = tokens_without_eof(tokens);
                assert(tokens_fit(token_views(ts@))) by {
                    assert forall|i: int| 0 <= i < token_views(ts@).len() implies
                        (#[trigger] token_views(ts@)[i]).col + width(token_views(ts@)[i].lexeme) <= usize::MAX by {
                        assert(token_views(ts@)[i] == token_views(tokens@)[i]);
                    }
                }
                match parse_expression(ts, 0) {
                    Err(e2) => Err(e2),
                    Ok((ex, p)) => {
                        if p < ts.len() {
                            Err(error_lexeme(ParseErrorKind::UnexpectedToken, tok(ts, p)))
                        } else {
                            Ok(ASTree::Expr(ex))
                        }
                    },
                }
            } else {
                Err(e)
            }
        },
    }
}

/// Whether a token list meets what `parse` asks of it: its length leaves room
/// for positions after it, and every token's end column fits in a machine
/// word. The tokenizer's output meets both for any input of fewer than
/// `usize::MAX / 8` characters.
pub fn parse_ready(tokens: &[Token]) -> (r: bool)
    ensures
        r == (tokens@.len() < usize::MAX - 2 && tokens_fit(token_views(tokens@))),
{
    let ghost toks = token_views(tokens@);
    if tokens.len() >= usize::MAX - 2 {
        return false;
    }
    let mut i: usize = 0;
    while i < tokens.len()
        invariant
            i <= tokens@.len(),
            toks == token_views(tokens@),
            forall|j: int| 0 <= j < i ==> (#[trigger] toks[j]).col + width(toks[j].lexeme) <= usize::MAX,
        decreases tokens@.len() - i,
    {
        let t = tok(tokens, i);
        let w = lexeme_width(t);
        if t.col > usize::MAX - w {
            return false;
        }
        i = i + 1;
    }
    true
}

/// `returnStmt → "return" expression? ";"`: a `return` directly followed by
/// `;` is a return statement without a value, and one followed by a single
/// operand and `;` returns that operand; either spans from `return` to `;`.
pub proof fn lemma_return_statement(toks: Seq<SpecToken>, pos: int, depth: usize)
    requires
        0 <= pos,
        pos + 1 < toks.len(),
        toks[pos].token_type == TokenType::Return,
    ensures
        toks[pos + 1].token_type == TokenType::Semicolon ==> spec_declaration(toks, pos, depth) == Ok::<_, SParseError>((
            SParsed::Decl(SDeclaration::Statement(
                SStatement::ReturnStmt(None, Span { start: tok_start(toks[pos]), end: tok_end(toks[pos + 1]) }),
                depth,
            )),
            pos + 2,
        )),
        pos + 2 < toks.len() && simple_operand(toks[pos + 1]) && toks[pos + 2].token_type == TokenType::Semicolon
            ==> spec_declaration(toks, pos, depth) == Ok::<_, SParseError>((
            SParsed::Decl(SDeclaration::Statement(
                SStatement::ReturnStmt(
                    Some(operand_at(toks, pos + 1)),
                    Span { start: tok_start(toks[pos]), end: tok_end(toks[pos + 2]) },
                ),
                depth,
            )),
            pos + 3,
        )),
{
    reveal_with_fuel(spec_declaration, 1);
    reveal_with_fuel(spec_statement, 1);
    reveal(spec_return_stmt);
    if pos + 2 < toks.len() && simple_operand(toks[pos + 1]) && toks[pos + 2].token_type == TokenType::Semicolon {
        lemma_operand_expression(toks, pos + 1);
    }
}

/// `varDecl → "var" IDENTIFIER ( "=" expression )? ";"`: a declaration
/// without an initializer names the variable and binds nothing, one with a
/// single operand as initializer binds that operand; either spans from `var`
/// to `;`.
pub proof fn lemma_var_declaration(toks: Seq<SpecToken>, pos: int, depth: usize)
    requires
        0 <= pos,
        pos + 2 < toks.len(),
        toks[pos].token_type == TokenType::Var,
        toks[pos + 1].token_type == TokenType::Identifier,
    ensures
        toks[pos + 2].token_type == TokenType::Semicolon ==> spec_declaration(toks, pos, depth) == Ok::<_, SParseError>((
            SParsed::Decl(SDeclaration::VarDecl(
                SVarDecl {
                    name: toks[pos + 1].lexeme,
                    name_loc: tok_start(toks[pos + 1]),
                    initializer: None,
                    span: Span { start: tok_start(toks[pos]), end: tok_end(toks[pos + 2]) },
                },
                depth,
            )),
            pos + 3,
        )),
        pos + 4 < toks.len() && toks[pos + 2].token_type == TokenType::Equal && simple_operand(toks[pos + 3])
            && toks[pos + 4].token_type == TokenType::Semicolon ==> spec_declaration(toks, pos, depth) == Ok::<_, SParseError>((
            SParsed::Decl(SDeclaration::VarDecl(
                SVarDecl {
                    name: toks[pos + 1].lexeme,
                    name_loc: tok_start(toks[pos + 1]),
                    initializer: Some(operand_at(toks, pos + 3)),
                    span: Span { start: tok_start(toks[pos]), end: tok_end(toks[pos + 4]) },
                },
                depth,
            )),
            pos + 5,
        )),
{
    reveal_with_fuel(spec_declaration, 1);
    reveal(spec_var_decl);
    if pos + 4 < toks.len() && toks[pos + 2].token_type == TokenType::Equal && simple_operand(toks[pos + 3])
        && toks[pos + 4].token_type == TokenType::Semicolon {
        lemma_operand_expression(toks, pos + 3);
    }
}

/// `printStmt → "print" expression ";"`: printing a single operand gives a
/// print statement of that operand, spanning from `print` to `;`.
pub proof fn lemma_print_statement(toks: Seq<SpecToken>, pos: int, depth: usize)
    requires
        0 <= pos,
        pos + 2 < toks.len(),
        toks[pos].token_type == TokenType::Print,
        simple_operand(toks[pos + 1]),
        toks[pos + 2].token_type == TokenType::Semicolon,
    ensures
        spec_declaration(toks, pos, depth) == Ok::<_, SParseError>((
            SParsed::Decl(SDeclaration::Statement(
                SStatement::PrintStmt(
                    operand_at(toks, pos + 1),
                    Span { start: tok_start(toks[pos + 1]), end: tok_end(toks[pos + 2]) },
                    Span { start: tok_start(toks[pos]), end: tok_end(toks[pos + 2]) },
                ),
                depth,
            )),
            pos + 3,
        )),
{
    reveal_with_fuel(spec_declaration, 1);
    reveal_with_fuel(spec_statement, 1);
    reveal(spec_print_stmt);
    reveal(spec_expr_stmt);
    lemma_operand_expression(toks, pos + 1);
}

/// `parse` never answers with the `NotAProgram` signal: tokens that do not
/// start a program are parsed again as one expression, and any error found
/// then is a syntax error of that expression.
pub proof fn lemma_parse_never_answers_not_a_program(toks: Seq<SpecToken>)
    ensures
        spec_parse(toks) matches Err(e) ==> e.kind != ParseErrorKind::NotAProgram,
{
    reveal(spec_parse);
    lemma_expression_no_sentinel(without_eof(toks), 0);
}

} // verus!
