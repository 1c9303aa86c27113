//! The grammar layer of the parser: tokens to the syntax tree.
//!
//! The grammar is specified by a family of recursive-descent spec functions
//! over the token sequence; the executable parser mirrors them and each of
//! its results is proved equal to the specified one.  Every function takes
//! the position of the next token and returns the node together with the
//! position just after it, or the index of the offending token.
//!
//! Expressions use the precedence ladder comparison < additive <
//! multiplicative < power (right-associative) < unary minus < postfix
//! factorial, with numbers, strings, booleans, identifiers, calls,
//! parenthesised expressions, array literals and indexed reads as primaries.
//! Statements are assignments, function definitions, conditionals, loops and
//! bare expressions, separated by semicolons.
//!
//! A fuel parameter bounds the recursion depth; the entry point supplies one
//! more than the token count, which every grammar derivation stays within,
//! since each fuel-consuming descent first consumes at least one token.

use vstd::prelude::*;
use vstd::string::StringExecFns;
use crate::num::{Num, NumV};
use crate::ast::{Ast, AstV, ast_view, ast_views, lemma_ast_views_len, opt_ast_view, lemma_opt_ast_view_some};
use crate::eval::{ast_wf, ast_wf_all};
use crate::errors::{Error, ErrV};
use crate::lexer::{TokKind, TokKindV, Token, TokV, tok_views, toks_wf, tok_kind_wf, sp_lex, lex_chars};
use crate::strutil::{str_to_chars, str_is};

verus! {

/// The token at position `p`, if any.
pub open spec fn sp_tok(t: Seq<TokV>, p: nat) -> Option<TokKindV> {
    if p < t.len() {
        Some(t[p as int].kind)
    } else {
        None
    }
}

/// The operator text of a comparison token.
pub open spec fn cmp_op_str(k: TokKindV) -> Option<Seq<char>> {
    match k {
        TokKindV::EqEq => Some("=="@),
        TokKindV::Ne => Some("!="@),
        TokKindV::Lt => Some("<"@),
        TokKindV::Gt => Some(">"@),
        TokKindV::Le => Some("<="@),
        TokKindV::Ge => Some(">="@),
        _ => None,
    }
}

/// The operator text of an additive token.
pub open spec fn add_op_str(k: TokKindV) -> Option<Seq<char>> {
    match k {
        TokKindV::Plus => Some("+"@),
        TokKindV::Minus => Some("-"@),
        _ => None,
    }
}

/// The operator text of a multiplicative token.
pub open spec fn mul_op_str(k: TokKindV) -> Option<Seq<char>> {
    match k {
        TokKindV::Star => Some("*"@),
        TokKindV::Slash => Some("/"@),
        _ => None,
    }
}

/// A primary expression: a literal, an identifier, a call, an indexed read,
/// a parenthesised expression or an array literal.
pub open spec fn sp_p_primary(t: Seq<TokV>, p: nat, f: nat) -> Result<(AstV, nat), nat>
    decreases f, t.len() - p, 11int,
{
    match sp_tok(t, p) {
        None => Err(p),
        Some(k) => match k {
            TokKindV::Num(n) => Ok((AstV::Int(n), (p + 1) as nat)),
            TokKindV::Str(s) => Ok((AstV::Str(s), (p + 1) as nat)),
            TokKindV::Bool(b) => Ok((AstV::Bool(b), (p + 1) as nat)),
            TokKindV::Ident(w) => {
                if sp_tok(t, (p + 1) as nat) == Some(TokKindV::LParen) {
                    match sp_p_args(t, (p + 2) as nat, f) {
                        Ok((args, q)) => Ok((AstV::Call { id: w, args }, q)),
                        Err(e) => Err(e),
                    }
                } else if sp_tok(t, (p + 1) as nat) == Some(TokKindV::LBracket) {
                    match sp_p_index(t, (p + 2) as nat, f) {
                        Ok((ix, q)) => Ok(
                            (
                                AstV::Access {
                                    arr: Box::new(AstV::Ident(w)),
                                    idx: Box::new(ix),
                                },
                                q,
                            ),
                        ),
                        Err(e) => Err(e),
                    }
                } else {
                    Ok((AstV::Ident(w), (p + 1) as nat))
                }
            },
            TokKindV::LParen => match sp_p_expr(t, (p + 1) as nat, f) {
                Ok((a, q)) => {
                    if sp_tok(t, q) == Some(TokKindV::RParen) {
                        Ok((a, (q + 1) as nat))
                    } else {
                        Err(q)
                    }
                },
                Err(e) => Err(e),
            },
            TokKindV::LBracket => match sp_p_items(t, (p + 1) as nat, f) {
                Ok((es, q)) => Ok((AstV::Arr(es), q)),
                Err(e) => Err(e),
            },
            _ => Err(p),
        },
    }
}

/// A parenthesis-terminated argument list, consumed through the closing
/// parenthesis.
pub open spec fn sp_p_args(t: Seq<TokV>, p: nat, f: nat) -> Result<(Seq<AstV>, nat), nat>
    decreases f, t.len() - p, 10int,
{
    if sp_tok(t, p) == Some(TokKindV::RParen) {
        Ok((Seq::empty(), (p + 1) as nat))
    } else if f == 0 {
        Err(p)
    } else {
        match sp_p_expr(t, p, (f - 1) as nat) {
            Ok((a, q)) => match sp_p_args_rest(t, q, (f - 1) as nat) {
                Ok((es, q2)) => Ok((seq![a] + es, q2)),
                Err(e) => Err(e),
            },
            Err(e) => Err(e),
        }
    }
}

/// The remainder of an argument list: comma-led elements up to the closing
/// parenthesis.
pub open spec fn sp_p_args_rest(t: Seq<TokV>, p: nat, f: nat) -> Result<(Seq<AstV>, nat), nat>
    decreases f, t.len() - p, 9int,
{
    if sp_tok(t, p) == Some(TokKindV::RParen) {
        Ok((Seq::empty(), (p + 1) as nat))
    } else if sp_tok(t, p) == Some(TokKindV::Comma) {
        if f == 0 {
            Err(p)
        } else {
            match sp_p_expr(t, (p + 1) as nat, (f - 1) as nat) {
                Ok((a, q)) => match sp_p_args_rest(t, q, (f - 1) as nat) {
                    Ok((es, q2)) => Ok((seq![a] + es, q2)),
                    Err(e) => Err(e),
                },
                Err(e) => Err(e),
            }
        }
    } else {
        Err(p)
    }
}

/// A bracket-terminated element list, consumed through the closing bracket.
pub open spec fn sp_p_items(t: Seq<TokV>, p: nat, f: nat) -> Result<(Seq<AstV>, nat), nat>
    decreases f, t.len() - p, 10int,
{
    if sp_tok(t, p) == Some(TokKindV::RBracket) {
        Ok((Seq::empty(), (p + 1) as nat))
    } else if f == 0 {
        Err(p)
    } else {
        match sp_p_expr(t, p, (f - 1) as nat) {
            Ok((a, q)) => match sp_p_items_rest(t, q, (f - 1) as nat) {
                Ok((es, q2)) => Ok((seq![a] + es, q2)),
                Err(e) => Err(e),
            },
            Err(e) => Err(e),
        }
    }
}

/// The remainder of an element list: comma-led elements up to the closing
/// bracket.
pub open spec fn sp_p_items_rest(t: Seq<TokV>, p: nat, f: nat) -> Result<(Seq<AstV>, nat), nat>
    decreases f, t.len() - p, 9int,
{
    if sp_tok(t, p) == Some(TokKindV::RBracket) {
        Ok((Seq::empty(), (p + 1) as nat))
    } else if sp_tok(t, p) == Some(TokKindV::Comma) {
        if f == 0 {
            Err(p)
        } else {
            match sp_p_expr(t, (p + 1) as nat, (f - 1) as nat) {
                Ok((a, q)) => match sp_p_items_rest(t, q, (f - 1) as nat) {
                    Ok((es, q2)) => Ok((seq![a] + es, q2)),
                    Err(e) => Err(e),
                },
                Err(e) => Err(e),
            }
        }
    } else {
        Err(p)
    }
}

/// An index clause after the opening bracket: a single index expression, an
/// inclusive range, or a half-open range; consumed through the closing
/// bracket.
pub open spec fn sp_p_index(t: Seq<TokV>, p: nat, f: nat) -> Result<(AstV, nat), nat>
    decreases f, t.len() - p, 8int,
{
    if sp_tok(t, p) == Some(TokKindV::DotDot) {
        match sp_p_expr(t, (p + 1) as nat, f) {
            Ok((hi, q)) => {
                if sp_tok(t, q) == Some(TokKindV::RBracket) {
                    Ok((AstV::SliceRange { from: None, to: Some(Box::new(hi)) }, (q + 1) as nat))
                } else {
                    Err(q)
                }
            },
            Err(e) => Err(e),
        }
    } else if f == 0 {
        Err(p)
    } else {
        match sp_p_expr(t, p, (f - 1) as nat) {
            Ok((e1, q)) => {
                if sp_tok(t, q) == Some(TokKindV::RBracket) {
                    Ok((e1, (q + 1) as nat))
                } else if sp_tok(t, q) == Some(TokKindV::DotDot) {
                    if sp_tok(t, (q + 1) as nat) == Some(TokKindV::RBracket) {
                        Ok(
                            (
                                AstV::SliceRange { from: Some(Box::new(e1)), to: None },
                                (q + 2) as nat,
                            ),
                        )
                    } else {
                        match sp_p_expr(t, (q + 1) as nat, (f - 1) as nat) {
                            Ok((e2, q2)) => {
                                if sp_tok(t, q2) == Some(TokKindV::RBracket) {
                                    Ok(
                                        (
                                            AstV::SliceRange {
                                                from: Some(Box::new(e1)),
                                                to: Some(Box::new(e2)),
                                            },
                                            (q2 + 1) as nat,
                                        ),
                                    )
                                } else {
                                    Err(q2)
                                }
                            },
                            Err(e) => Err(e),
                        }
                    }
                } else {
                    Err(q)
                }
            },
            Err(e) => Err(e),
        }
    }
}

/// Fold postfix factorial marks onto a parsed operand.
pub open spec fn sp_p_bang(t: Seq<TokV>, lhs: AstV, p: nat, f: nat) -> Result<(AstV, nat), nat>
    decreases f, t.len() - p, 12int,
{
    if sp_tok(t, p) == Some(TokKindV::Bang) {
        sp_p_bang(
            t,
            AstV::BinOp {
                op: "!"@,
                left: Box::new(lhs),
                right: Box::new(AstV::Int(NumV { m: 0, s: 0 })),
            },
            (p + 1) as nat,
            f,
        )
    } else {
        Ok((lhs, p))
    }
}

/// A primary followed by postfix factorial marks.
pub open spec fn sp_p_postfix(t: Seq<TokV>, p: nat, f: nat) -> Result<(AstV, nat), nat>
    decreases f, t.len() - p, 13int,
{
    match sp_p_primary(t, p, f) {
        Ok((a, q)) => {
            if f == 0 {
                Err(q)
            } else {
                sp_p_bang(t, a, q, (f - 1) as nat)
            }
        },
        Err(e) => Err(e),
    }
}

/// A unary-minus chain over a postfix expression; negation is written as
/// subtraction from zero.
pub open spec fn sp_p_unary(t: Seq<TokV>, p: nat, f: nat) -> Result<(AstV, nat), nat>
    decreases f, t.len() - p, 14int,
{
    if sp_tok(t, p) == Some(TokKindV::Minus) {
        match sp_p_unary(t, (p + 1) as nat, f) {
            Ok((a, q)) => Ok(
                (
                    AstV::BinOp {
                        op: "-"@,
                        left: Box::new(AstV::Int(NumV { m: 0, s: 0 })),
                        right: Box::new(a),
                    },
                    q,
                ),
            ),
            Err(e) => Err(e),
        }
    } else {
        sp_p_postfix(t, p, f)
    }
}

/// A right-associative power chain.
pub open spec fn sp_p_pow(t: Seq<TokV>, p: nat, f: nat) -> Result<(AstV, nat), nat>
    decreases f, t.len() - p, 15int,
{
    match sp_p_unary(t, p, f) {
        Ok((l, q)) => {
            if sp_tok(t, q) == Some(TokKindV::Caret) {
                if f == 0 {
                    Err(q)
                } else {
                    match sp_p_pow(t, (q + 1) as nat, (f - 1) as nat) {
                        Ok((r0, q2)) => Ok(
                            (AstV::BinOp { op: "^"@, left: Box::new(l), right: Box::new(r0) }, q2),
                        ),
                        Err(e) => Err(e),
                    }
                }
            } else {
                Ok((l, q))
            }
        },
        Err(e) => Err(e),
    }
}

/// Fold further multiplicative operators onto a parsed operand,
/// left-associatively.
pub open spec fn sp_p_mul_more(t: Seq<TokV>, lhs: AstV, p: nat, f: nat) -> Result<
    (AstV, nat),
    nat,
>
    decreases f, t.len() - p, 16int,
{
    match sp_tok(t, p) {
        Some(k) => match mul_op_str(k) {
            Some(op) => {
                if f == 0 {
                    Err(p)
                } else {
                    match sp_p_pow(t, (p + 1) as nat, f) {
                        Ok((r0, q)) => sp_p_mul_more(
                            t,
                            AstV::BinOp { op, left: Box::new(lhs), right: Box::new(r0) },
                            q,
                            (f - 1) as nat,
                        ),
                        Err(e) => Err(e),
                    }
                }
            },
            None => Ok((lhs, p)),
        },
        None => Ok((lhs, p)),
    }
}

/// A left-associative multiplicative chain.
pub open spec fn sp_p_mul(t: Seq<TokV>, p: nat, f: nat) -> Result<(AstV, nat), nat>
    decreases f, t.len() - p, 17int,
{
    match sp_p_pow(t, p, f) {
        Ok((l, q)) => {
            if f == 0 {
                Err(q)
            } else {
                sp_p_mul_more(t, l, q, (f - 1) as nat)
            }
        },
        Err(e) => Err(e),
    }
}

/// Fold further additive operators onto a parsed operand,
/// left-associatively.
pub open spec fn sp_p_add_more(t: Seq<TokV>, lhs: AstV, p: nat, f: nat) -> Result<
    (AstV, nat),
    nat,
>
    decreases f, t.len() - p, 18int,
{
    match sp_tok(t, p) {
        Some(k) => match add_op_str(k) {
            Some(op) => {
                if f == 0 {
                    Err(p)
                } else {
                    match sp_p_mul(t, (p + 1) as nat, f) {
                        Ok((r0, q)) => sp_p_add_more(
                            t,
                            AstV::BinOp { op, left: Box::new(lhs), right: Box::new(r0) },
                            q,
                            (f - 1) as nat,
                        ),
                        Err(e) => Err(e),
                    }
                }
            },
            None => Ok((lhs, p)),
        },
        None => Ok((lhs, p)),
    }
}

/// A left-associative additive chain.
pub open spec fn sp_p_add(t: Seq<TokV>, p: nat, f: nat) -> Result<(AstV, nat), nat>
    decreases f, t.len() - p, 19int,
{
    match sp_p_mul(t, p, f) {
        Ok((l, q)) => {
            if f == 0 {
                Err(q)
            } else {
                sp_p_add_more(t, l, q, (f - 1) as nat)
            }
        },
        Err(e) => Err(e),
    }
}

/// Fold further comparison operators onto a parsed operand,
/// left-associatively.
pub open spec fn sp_p_cmp_more(t: Seq<TokV>, lhs: AstV, p: nat, f: nat) -> Result<
    (AstV, nat),
    nat,
>
    decreases f, t.len() - p, 20int,
{
    match sp_tok(t, p) {
        Some(k) => match cmp_op_str(k) {
            Some(op) => {
                if f == 0 {
                    Err(p)
                } else {
                    match sp_p_add(t, (p + 1) as nat, f) {
                        Ok((r0, q)) => sp_p_cmp_more(
                            t,
                            AstV::BinOp { op, left: Box::new(lhs), right: Box::new(r0) },
                            q,
                            (f - 1) as nat,
                        ),
                        Err(e) => Err(e),
                    }
                }
            },
            None => Ok((lhs, p)),
        },
        None => Ok((lhs, p)),
    }
}

/// A left-associative comparison chain.
pub open spec fn sp_p_cmp(t: Seq<TokV>, p: nat, f: nat) -> Result<(AstV, nat), nat>
    decreases f, t.len() - p, 21int,
{
    match sp_p_add(t, p, f) {
        Ok((l, q)) => {
            if f == 0 {
                Err(q)
            } else {
                sp_p_cmp_more(t, l, q, (f - 1) as nat)
            }
        },
        Err(e) => Err(e),
    }
}

/// A full expression: the comparison level of the precedence ladder.
pub open spec fn sp_p_expr(t: Seq<TokV>, p: nat, f: nat) -> Result<(AstV, nat), nat>
    decreases f, t.len() - p, 22int,
{
    sp_p_cmp(t, p, f)
}

/// A typed parameter list after the opening parenthesis, consumed through
/// the closing parenthesis.
pub open spec fn sp_p_params(t: Seq<TokV>, p: nat, f: nat) -> Result<
    (Seq<(Seq<char>, Seq<char>)>, nat),
    nat,
>
    decreases f, t.len() - p, 7int,
{
    match sp_tok(t, p) {
        Some(TokKindV::RParen) => Ok((Seq::empty(), (p + 1) as nat)),
        Some(TokKindV::Ident(nm)) => {
            if sp_tok(t, (p + 1) as nat) == Some(TokKindV::Colon) {
                match sp_tok(t, (p + 2) as nat) {
                    Some(TokKindV::Ident(ty)) => match sp_p_params_rest(t, (p + 3) as nat, f) {
                        Ok((ps, q)) => Ok((seq![(nm, ty)] + ps, q)),
                        Err(e) => Err(e),
                    },
                    _ => Err((p + 2) as nat),
                }
            } else {
                Err((p + 1) as nat)
            }
        },
        _ => Err(p),
    }
}

/// The remainder of a parameter list: comma-led `name: Type` pairs up to the
/// closing parenthesis.
pub open spec fn sp_p_params_rest(t: Seq<TokV>, p: nat, f: nat) -> Result<
    (Seq<(Seq<char>, Seq<char>)>, nat),
    nat,
>
    decreases f, t.len() - p, 6int,
{
    match sp_tok(t, p) {
        Some(TokKindV::RParen) => Ok((Seq::empty(), (p + 1) as nat)),
        Some(TokKindV::Comma) => match sp_tok(t, (p + 1) as nat) {
            Some(TokKindV::Ident(nm)) => {
                if sp_tok(t, (p + 2) as nat) == Some(TokKindV::Colon) {
                    match sp_tok(t, (p + 3) as nat) {
                        Some(TokKindV::Ident(ty)) => match sp_p_params_rest(
                            t,
                            (p + 4) as nat,
                            f,
                        ) {
                            Ok((ps, q)) => Ok((seq![(nm, ty)] + ps, q)),
                            Err(e) => Err(e),
                        },
                        _ => Err((p + 3) as nat),
                    }
                } else {
                    Err((p + 2) as nat)
                }
            },
            _ => Err((p + 1) as nat),
        },
        _ => Err(p),
    }
}

/// An assignment when an equals sign follows a parsed identifier or indexed
/// read; otherwise the bare expression.
pub open spec fn sp_p_assign_or_expr(t: Seq<TokV>, p: nat, f: nat) -> Result<(AstV, nat), nat>
    decreases f, t.len() - p, 24int,
{
    match sp_p_expr(t, p, f) {
        Err(e) => Err(e),
        Ok((a, q)) => {
            if sp_tok(t, q) == Some(TokKindV::Equals) {
                if !(a is Ident || a is Access) {
                    Err(q)
                } else if f == 0 {
                    Err(q)
                } else {
                    match sp_p_expr(t, (q + 1) as nat, (f - 1) as nat) {
                        Ok((rhs, q2)) => Ok(
                            (AstV::Assign { id: Box::new(a), expr: Box::new(rhs) }, q2),
                        ),
                        Err(e) => Err(e),
                    }
                }
            } else {
                Ok((a, q))
            }
        },
    }
}

/// One statement: a function definition, a conditional, a loop, an
/// assignment or a bare expression.
pub open spec fn sp_p_stmt(t: Seq<TokV>, p: nat, f: nat) -> Result<(AstV, nat), nat>
    decreases f, t.len() - p, 25int,
{
    match sp_tok(t, p) {
        Some(TokKindV::Ident(w)) => {
            if w == "def"@ {
                match sp_tok(t, (p + 1) as nat) {
                    Some(TokKindV::Ident(name)) => {
                        if sp_tok(t, (p + 2) as nat) == Some(TokKindV::LParen) {
                            match sp_p_params(t, (p + 3) as nat, f) {
                                Ok((ps, q)) => {
                                    if sp_tok(t, q) == Some(TokKindV::LBrace) {
                                        if f == 0 {
                                            Err(q)
                                        } else {
                                            match sp_p_stmts(t, (q + 1) as nat, (f - 1) as nat) {
                                                Ok((ss, q2)) => {
                                                    if sp_tok(t, q2) == Some(TokKindV::RBrace) {
                                                        Ok(
                                                            (
                                                                AstV::FnDef {
                                                                    id: name,
                                                                    params: ps,
                                                                    body: Box::new(
                                                                        AstV::Block(ss),
                                                                    ),
                                                                },
                                                                (q2 + 1) as nat,
                                                            ),
                                                        )
                                                    } else {
                                                        Err(q2)
                                                    }
                                                },
                                                Err(e) => Err(e),
                                            }
                                        }
                                    } else {
                                        Err(q)
                                    }
                                },
                                Err(e) => Err(e),
                            }
                        } else {
                            Err((p + 2) as nat)
                        }
                    },
                    _ => Err((p + 1) as nat),
                }
            } else if w == "if"@ {
                if sp_tok(t, (p + 1) as nat) == Some(TokKindV::LParen) {
                    match sp_p_expr(t, (p + 2) as nat, f) {
                        Ok((cond, q)) => {
                            if sp_tok(t, q) == Some(TokKindV::RParen) {
                                if sp_tok(t, (q + 1) as nat) == Some(TokKindV::LBrace) {
                                    if f == 0 {
                                        Err((q + 1) as nat)
                                    } else {
                                        match sp_p_stmts(t, (q + 2) as nat, (f - 1) as nat) {
                                            Ok((ss, q2)) => {
                                                if sp_tok(t, q2) == Some(TokKindV::RBrace) {
                                                    Ok(
                                                        (
                                                            AstV::If {
                                                                cond: Box::new(cond),
                                                                block: Box::new(AstV::Block(ss)),
                                                            },
                                                            (q2 + 1) as nat,
                                                        ),
                                                    )
                                                } else {
                                                    Err(q2)
                                                }
                                            },
                                            Err(e) => Err(e),
                                        }
                                    }
                                } else {
                                    Err((q + 1) as nat)
                                }
                            } else {
                                Err(q)
                            }
                        },
                        Err(e) => Err(e),
                    }
                } else {
                    Err((p + 1) as nat)
                }
            } else if w == "for"@ {
                match sp_tok(t, (p + 1) as nat) {
                    Some(TokKindV::Ident(name)) => {
                        if sp_tok(t, (p + 2) as nat) == Some(TokKindV::Ident("in"@)) {
                            match sp_p_expr(t, (p + 3) as nat, f) {
                                Ok((iter, q)) => {
                                    if sp_tok(t, q) == Some(TokKindV::LBrace) {
                                        if f == 0 {
                                            Err(q)
                                        } else {
                                            match sp_p_stmts(t, (q + 1) as nat, (f - 1) as nat) {
                                                Ok((ss, q2)) => {
                                                    if sp_tok(t, q2) == Some(TokKindV::RBrace) {
                                                        Ok(
                                                            (
                                                                AstV::For {
                                                                    elem: Box::new(
                                                                        AstV::Ident(name),
                                                                    ),
                                                                    iter: Box::new(iter),
                                                                    block: Box::new(
                                                                        AstV::Block(ss),
                                                                    ),
                                                                },
                                                                (q2 + 1) as nat,
                                                            ),
                                                        )
                                                    } else {
                                                        Err(q2)
                                                    }
                                                },
                                                Err(e) => Err(e),
                                            }
                                        }
                                    } else {
                                        Err(q)
                                    }
                                },
                                Err(e) => Err(e),
                            }
                        } else {
                            Err((p + 2) as nat)
                        }
                    },
                    _ => Err((p + 1) as nat),
                }
            } else {
                sp_p_assign_or_expr(t, p, f)
            }
        },
        _ => sp_p_assign_or_expr(t, p, f),
    }
}

/// A semicolon-separated statement list, stopping (without consuming) at a
/// closing brace or at the end of the tokens; the trailing semicolon is
/// optional.
pub open spec fn sp_p_stmts(t: Seq<TokV>, p: nat, f: nat) -> Result<(Seq<AstV>, nat), nat>
    decreases f, t.len() - p, 26int,
{
    match sp_tok(t, p) {
        None => Ok((Seq::empty(), p)),
        Some(TokKindV::RBrace) => Ok((Seq::empty(), p)),
        Some(_) => match sp_p_stmt(t, p, f) {
            Err(e) => Err(e),
            Ok((s1, q)) => match sp_tok(t, q) {
                Some(TokKindV::Semi) => {
                    if f == 0 {
                        Err(q)
                    } else {
                        match sp_p_stmts(t, (q + 1) as nat, (f - 1) as nat) {
                            Ok((ss, q2)) => Ok((seq![s1] + ss, q2)),
                            Err(e) => Err(e),
                        }
                    }
                },
                Some(TokKindV::RBrace) => Ok((seq![s1], q)),
                None => Ok((seq![s1], q)),
                _ => Err(q),
            },
        },
    }
}

/// The whole source as a program block: lex, parse the top-level statement
/// list with ample fuel, and report errors at their character position.
pub open spec fn sp_parse_program(src: Seq<char>) -> Result<AstV, nat> {
    match sp_lex(src) {
        Err(cp) => Err(cp),
        Ok(ts) => match sp_p_stmts(ts, 0, (ts.len() + 1) as nat) {
            Ok((ss, q)) => {
                if q == ts.len() {
                    Ok(AstV::Block(ss))
                } else {
                    Err(if q < ts.len() {
                        ts[q as int].at
                    } else {
                        src.len()
                    })
                }
            },
            Err(k) => Err(
                if k < ts.len() {
                    ts[k as int].at
                } else {
                    src.len()
                },
            ),
        },
    }
}

/// The token at position `p`, if any, with its model pinned.
fn peek<'a>(t: &'a Vec<Token>, p: usize) -> (r: Option<&'a TokKind>)
    ensures
        (match r {
            Some(k) => p < t@.len() && sp_tok(tok_views(t@), p as nat) == Some(k@),
            None => p >= t@.len() && sp_tok(tok_views(t@), p as nat) is None,
        }),
{
    if p < t.len() {
        let tr: &Token = &t[p];
        Some(&tr.kind)
    } else {
        None
    }
}

/// The models of a node prepended to a node sequence.
proof fn lemma_views_prepend(a: Ast, s: Seq<Ast>)
    ensures
        ast_views(s.insert(0, a)) == seq![ast_view(a)] + ast_views(s),
{
    lemma_ast_views_len(s.insert(0, a));
    lemma_ast_views_len(s);
    assert(ast_views(s.insert(0, a)) =~= seq![ast_view(a)] + ast_views(s));
}

/// A well-formed node prepended to a well-formed sequence.
proof fn lemma_wf_prepend(x: AstV, s: Seq<AstV>)
    requires
        ast_wf(x),
        ast_wf_all(s),
    ensures
        ast_wf_all(seq![x] + s),
{
    assert forall|i: int| 0 <= i < (seq![x] + s).len() implies ast_wf(#[trigger] (seq![x] + s)[i]) by {
        if i == 0 {
            assert((seq![x] + s)[0] == x);
        } else {
            assert((seq![x] + s)[i] == s[i - 1]);
        }
    }
}

/// Parse a primary expression, as `sp_p_primary` describes.
#[verifier::spinoff_prover]
#[verifier::rlimit(100)]
pub fn p_primary(t: &Vec<Token>, p: usize, f: u128) -> (r: Result<(Ast, usize), usize>)
    requires
        p <= t@.len(),
        toks_wf(tok_views(t@)),
    ensures
        (match r {
            Ok((a, q)) => sp_p_primary(tok_views(t@), p as nat, f as nat) == Ok::<
                (AstV, nat),
                nat,
            >((a@, q as nat)) && q <= t@.len() && ast_wf(a@),
            Err(k) => sp_p_primary(tok_views(t@), p as nat, f as nat) == Err::<
                (AstV, nat),
                nat,
            >(k as nat),
        }),
    decreases f, t@.len() - p, 11int,
{
    let _n = t.len();
    match peek(t, p) {
        None => Err(p),
        Some(k0) => match k0 {
            TokKind::Num(m) => {
                proof {
                    assert(tok_kind_wf(tok_views(t@)[p as int].kind));
                }
                Ok((Ast::Int(*m), p + 1))
            },
            TokKind::Str(s) => Ok((Ast::String(s.clone()), p + 1)),
            TokKind::Bool(b) => Ok((Ast::Bool(*b), p + 1)),
            TokKind::Ident(w) => match peek(t, p + 1) {
                Some(TokKind::LParen) => match p_args(t, p + 2, f) {
                    Ok((args, q)) => Ok((Ast::FunctionCall { id: w.clone(), args }, q)),
                    Err(e) => Err(e),
                },
                Some(TokKind::LBracket) => match p_index(t, p + 2, f) {
                    Ok((ix, q)) => {
                        let idn = Ast::Identifier(w.clone());
                        proof {
                            assert(idn@ == AstV::Ident(w@));
                            assert(ast_wf(AstV::Ident(w@)));
                        }
                        let node = Ast::ArrayAccess {
                            expr: Box::new(idn),
                            whereto: Box::new(ix),
                        };
                        proof {
                            assert(ast_wf(node@));
                        }
                        Ok((node, q))
                    },
                    Err(e) => Err(e),
                },
                _ => Ok((Ast::Identifier(w.clone()), p + 1)),
            },
            TokKind::LParen => match p_expr(t, p + 1, f) {
                Ok((a, q)) => match peek(t, q) {
                    Some(TokKind::RParen) => Ok((a, q + 1)),
                    _ => Err(q),
                },
                Err(e) => Err(e),
            },
            TokKind::LBracket => match p_items(t, p + 1, f) {
                Ok((es, q)) => Ok((Ast::Array(es), q)),
                Err(e) => Err(e),
            },
            _ => Err(p),
        },
    }
}

/// Parse an argument list, as `sp_p_args` describes.
#[verifier::spinoff_prover]
#[verifier::rlimit(100)]
pub fn p_args(t: &Vec<Token>, p: usize, f: u128) -> (r: Result<(Vec<Ast>, usize), usize>)
    requires
        p <= t@.len(),
        toks_wf(tok_views(t@)),
    ensures
        (match r {
            Ok((es, q)) => sp_p_args(tok_views(t@), p as nat, f as nat) == Ok::<
                (Seq<AstV>, nat),
                nat,
            >((ast_views(es@), q as nat)) && q <= t@.len() && ast_wf_all(ast_views(es@)),
            Err(k) => sp_p_args(tok_views(t@), p as nat, f as nat) == Err::<
                (Seq<AstV>, nat),
                nat,
            >(k as nat),
        }),
    decreases f, t@.len() - p, 10int,
{
    let _n = t.len();
    match peek(t, p) {
        Some(TokKind::RParen) => {
            let es: Vec<Ast> = Vec::new();
            proof {
                assert(ast_views(es@) =~= Seq::<AstV>::empty());
            }
            Ok((es, p + 1))
        },
        _ => {
            if f == 0 {
                return Err(p);
            }
            match p_expr(t, p, f - 1) {
                Ok((a, q)) => match p_args_rest(t, q, f - 1) {
                    Ok((es0, q2)) => {
                        let mut es = es0;
                        proof {
                            lemma_views_prepend(a, es@);
                            lemma_wf_prepend(a@, ast_views(es@));
                        }
                        es.insert(0, a);
                        Ok((es, q2))
                    },
                    Err(e) => Err(e),
                },
                Err(e) => Err(e),
            }
        },
    }
}

/// Parse the remainder of an argument list, as `sp_p_args_rest` describes.
#[verifier::spinoff_prover]
#[verifier::rlimit(100)]
pub fn p_args_rest(t: &Vec<Token>, p: usize, f: u128) -> (r: Result<(Vec<Ast>, usize), usize>)
    requires
        p <= t@.len(),
        toks_wf(tok_views(t@)),
    ensures
        (match r {
            Ok((es, q)) => sp_p_args_rest(tok_views(t@), p as nat, f as nat) == Ok::<
                (Seq<AstV>, nat),
                nat,
            >((ast_views(es@), q as nat)) && q <= t@.len() && ast_wf_all(ast_views(es@)),
            Err(k) => sp_p_args_rest(tok_views(t@), p as nat, f as nat) == Err::<
                (Seq<AstV>, nat),
                nat,
            >(k as nat),
        }),
    decreases f, t@.len() - p, 9int,
{
    let _n = t.len();
    match peek(t, p) {
        Some(TokKind::RParen) => {
            let es: Vec<Ast> = Vec::new();
            proof {
                assert(ast_views(es@) =~= Seq::<AstV>::empty());
            }
            Ok((es, p + 1))
        },
        Some(TokKind::Comma) => {
            if f == 0 {
                return Err(p);
            }
            match p_expr(t, p + 1, f - 1) {
                Ok((a, q)) => match p_args_rest(t, q, f - 1) {
                    Ok((es0, q2)) => {
                        let mut es = es0;
                        proof {
                            lemma_views_prepend(a, es@);
                            lemma_wf_prepend(a@, ast_views(es@));
                        }
                        es.insert(0, a);
                        Ok((es, q2))
                    },
                    Err(e) => Err(e),
                },
                Err(e) => Err(e),
            }
        },
        _ => Err(p),
    }
}

/// Parse an array-literal element list, as `sp_p_items` describes.
#[verifier::spinoff_prover]
#[verifier::rlimit(100)]
pub fn p_items(t: &Vec<Token>, p: usize, f: u128) -> (r: Result<(Vec<Ast>, usize), usize>)
    requires
        p <= t@.len(),
        toks_wf(tok_views(t@)),
    ensures
        (match r {
            Ok((es, q)) => sp_p_items(tok_views(t@), p as nat, f as nat) == Ok::<
                (Seq<AstV>, nat),
                nat,
            >((ast_views(es@), q as nat)) && q <= t@.len() && ast_wf_all(ast_views(es@)),
            Err(k) => sp_p_items(tok_views(t@), p as nat, f as nat) == Err::<
                (Seq<AstV>, nat),
                nat,
            >(k as nat),
        }),
    decreases f, t@.len() - p, 10int,
{
    let _n = t.len();
    match peek(t, p) {
        Some(TokKind::RBracket) => {
            let es: Vec<Ast> = Vec::new();
            proof {
                assert(ast_views(es@) =~= Seq::<AstV>::empty());
            }
            Ok((es, p + 1))
        },
        _ => {
            if f == 0 {
                return Err(p);
            }
            match p_expr(t, p, f - 1) {
                Ok((a, q)) => match p_items_rest(t, q, f - 1) {
                    Ok((es0, q2)) => {
                        let mut es = es0;
                        proof {
                            lemma_views_prepend(a, es@);
                            lemma_wf_prepend(a@, ast_views(es@));
                        }
                        es.insert(0, a);
                        Ok((es, q2))
                    },
                    Err(e) => Err(e),
                },
                Err(e) => Err(e),
            }
        },
    }
}

/// Parse the remainder of an element list, as `sp_p_items_rest` describes.
#[verifier::spinoff_prover]
#[verifier::rlimit(100)]
pub fn p_items_rest(t: &Vec<Token>, p: usize, f: u128) -> (r: Result<(Vec<Ast>, usize), usize>)
    requires
        p <= t@.len(),
        toks_wf(tok_views(t@)),
    ensures
        (match r {
            Ok((es, q)) => sp_p_items_rest(tok_views(t@), p as nat, f as nat) == Ok::<
                (Seq<AstV>, nat),
                nat,
            >((ast_views(es@), q as nat)) && q <= t@.len() && ast_wf_all(ast_views(es@)),
            Err(k) => sp_p_items_rest(tok_views(t@), p as nat, f as nat) == Err::<
                (Seq<AstV>, nat),
                nat,
            >(k as nat),
        }),
    decreases f, t@.len() - p, 9int,
{
    let _n = t.len();
    match peek(t, p) {
        Some(TokKind::RBracket) => {
            let es: Vec<Ast> = Vec::new();
            proof {
                assert(ast_views(es@) =~= Seq::<AstV>::empty());
            }
            Ok((es, p + 1))
        },
        Some(TokKind::Comma) => {
            if f == 0 {
                return Err(p);
            }
            match p_expr(t, p + 1, f - 1) {
                Ok((a, q)) => match p_items_rest(t, q, f - 1) {
                    Ok((es0, q2)) => {
                        let mut es = es0;
                        proof {
                            lemma_views_prepend(a, es@);
                            lemma_wf_prepend(a@, ast_views(es@));
                        }
                        es.insert(0, a);
                        Ok((es, q2))
                    },
                    Err(e) => Err(e),
                },
                Err(e) => Err(e),
            }
        },
        _ => Err(p),
    }
}

/// Parse an index clause, as `sp_p_index` describes.
#[verifier::spinoff_prover]
#[verifier::rlimit(100)]
pub fn p_index(t: &Vec<Token>, p: usize, f: u128) -> (r: Result<(Ast, usize), usize>)
    requires
        p <= t@.len(),
        toks_wf(tok_views(t@)),
    ensures
        (match r {
            Ok((a, q)) => sp_p_index(tok_views(t@), p as nat, f as nat) == Ok::<
                (AstV, nat),
                nat,
            >((a@, q as nat)) && q <= t@.len() && ast_wf(a@),
            Err(k) => sp_p_index(tok_views(t@), p as nat, f as nat) == Err::<
                (AstV, nat),
                nat,
            >(k as nat),
        }),
    decreases f, t@.len() - p, 8int,
{
    let _n = t.len();
    match peek(t, p) {
        Some(TokKind::DotDot) => match p_expr(t, p + 1, f) {
            Ok((hi, q)) => match peek(t, q) {
                Some(TokKind::RBracket) => {
                    let ghost hv = hi@;
                    let bx = Box::new(hi);
                    proof {
                        lemma_opt_ast_view_some(Some(bx), bx);
                        assert(opt_ast_view(None) is None);
                    }
                    let node = Ast::AstSlice { from: None, to: Some(bx) };
                    proof {
                        assert(node@ == AstV::SliceRange { from: None, to: Some(Box::new(hv)) });
                        assert(ast_wf(node@));
                    }
                    Ok((node, q + 1))
                },
                _ => Err(q),
            },
            Err(e) => Err(e),
        },
        _ => {
            if f == 0 {
                return Err(p);
            }
            match p_expr(t, p, f - 1) {
                Ok((e1, q)) => match peek(t, q) {
                    Some(TokKind::RBracket) => Ok((e1, q + 1)),
                    Some(TokKind::DotDot) => match peek(t, q + 1) {
                        Some(TokKind::RBracket) => {
                            let ghost lv = e1@;
                            let bx = Box::new(e1);
                            proof {
                                lemma_opt_ast_view_some(Some(bx), bx);
                                assert(opt_ast_view(None) is None);
                            }
                            let node = Ast::AstSlice { from: Some(bx), to: None };
                            proof {
                                assert(node@ == AstV::SliceRange {
                                    from: Some(Box::new(lv)),
                                    to: None,
                                });
                                assert(ast_wf(node@));
                            }
                            Ok((node, q + 2))
                        },
                        _ => match p_expr(t, q + 1, f - 1) {
                            Ok((e2, q2)) => match peek(t, q2) {
                                Some(TokKind::RBracket) => {
                                    let ghost lv = e1@;
                                    let ghost rv = e2@;
                                    let bl = Box::new(e1);
                                    let br = Box::new(e2);
                                    proof {
                                        lemma_opt_ast_view_some(Some(bl), bl);
                                        lemma_opt_ast_view_some(Some(br), br);
                                    }
                                    let node = Ast::AstSlice { from: Some(bl), to: Some(br) };
                                    proof {
                                        assert(node@ == AstV::SliceRange {
                                            from: Some(Box::new(lv)),
                                            to: Some(Box::new(rv)),
                                        });
                                        assert(ast_wf(node@));
                                    }
                                    Ok((node, q2 + 1))
                                },
                                _ => Err(q2),
                            },
                            Err(e) => Err(e),
                        },
                    },
                    _ => Err(q),
                },
                Err(e) => Err(e),
            }
        },
    }
}

/// Fold postfix factorial marks, as `sp_p_bang` describes.
#[verifier::spinoff_prover]
#[verifier::rlimit(100)]
pub fn p_bang(t: &Vec<Token>, lhs: Ast, p: usize, f: u128) -> (r: Result<(Ast, usize), usize>)
    requires
        p <= t@.len(),
        toks_wf(tok_views(t@)),
        ast_wf(lhs@),
    ensures
        (match r {
            Ok((a, q)) => sp_p_bang(tok_views(t@), lhs@, p as nat, f as nat) == Ok::<
                (AstV, nat),
                nat,
            >((a@, q as nat)) && q <= t@.len() && ast_wf(a@),
            Err(k) => sp_p_bang(tok_views(t@), lhs@, p as nat, f as nat) == Err::<
                (AstV, nat),
                nat,
            >(k as nat),
        }),
    decreases f, t@.len() - p, 12int,
{
    let _n = t.len();
    match peek(t, p) {
        Some(TokKind::Bang) => {
            let z = Num::zero();
            proof {
                assert(ast_view(Ast::Int(z)) == AstV::Int(NumV { m: 0, s: 0 }));
                assert(ast_wf(AstV::Int(NumV { m: 0, s: 0 })));
            }
            let node = Ast::BinaryOp {
                op: String::from_str("!"),
                left: Box::new(lhs),
                right: Box::new(Ast::Int(z)),
            };
            proof {
                assert(ast_wf(node@));
            }
            p_bang(t, node, p + 1, f)
        },
        _ => Ok((lhs, p)),
    }
}

/// Parse a postfix expression, as `sp_p_postfix` describes.
#[verifier::spinoff_prover]
#[verifier::rlimit(100)]
pub fn p_postfix(t: &Vec<Token>, p: usize, f: u128) -> (r: Result<(Ast, usize), usize>)
    requires
        p <= t@.len(),
        toks_wf(tok_views(t@)),
    ensures
        (match r {
            Ok((a, q)) => sp_p_postfix(tok_views(t@), p as nat, f as nat) == Ok::<
                (AstV, nat),
                nat,
            >((a@, q as nat)) && q <= t@.len() && ast_wf(a@),
            Err(k) => sp_p_postfix(tok_views(t@), p as nat, f as nat) == Err::<
                (AstV, nat),
                nat,
            >(k as nat),
        }),
    decreases f, t@.len() - p, 13int,
{
    let _n = t.len();
    match p_primary(t, p, f) {
        Ok((a, q)) => {
            if f == 0 {
                return Err(q);
            }
            p_bang(t, a, q, f - 1)
        },
        Err(e) => Err(e),
    }
}

/// Parse a unary-minus chain, as `sp_p_unary` describes.
#[verifier::spinoff_prover]
#[verifier::rlimit(100)]
pub fn p_unary(t: &Vec<Token>, p: usize, f: u128) -> (r: Result<(Ast, usize), usize>)
    requires
        p <= t@.len(),
        toks_wf(tok_views(t@)),
    ensures
        (match r {
            Ok((a, q)) => sp_p_unary(tok_views(t@), p as nat, f as nat) == Ok::<
                (AstV, nat),
                nat,
            >((a@, q as nat)) && q <= t@.len() && ast_wf(a@),
            Err(k) => sp_p_unary(tok_views(t@), p as nat, f as nat) == Err::<
                (AstV, nat),
                nat,
            >(k as nat),
        }),
    decreases f, t@.len() - p, 14int,
{
    let _n = t.len();
    match peek(t, p) {
        Some(TokKind::Minus) => match p_unary(t, p + 1, f) {
            Ok((a, q)) => {
                let z = Num::zero();
                proof {
                    assert(ast_view(Ast::Int(z)) == AstV::Int(NumV { m: 0, s: 0 }));
                    assert(ast_wf(AstV::Int(NumV { m: 0, s: 0 })));
                }
                let node = Ast::BinaryOp {
                    op: String::from_str("-"),
                    left: Box::new(Ast::Int(z)),
                    right: Box::new(a),
                };
                proof {
                    assert(ast_wf(node@));
                }
                Ok((node, q))
            },
            Err(e) => Err(e),
        },
        _ => p_postfix(t, p, f),
    }
}

/// Parse a power chain, as `sp_p_pow` describes.
#[verifier::spinoff_prover]
#[verifier::rlimit(100)]
pub fn p_pow(t: &Vec<Token>, p: usize, f: u128) -> (r: Result<(Ast, usize), usize>)
    requires
        p <= t@.len(),
        toks_wf(tok_views(t@)),
    ensures
        (match r {
            Ok((a, q)) => sp_p_pow(tok_views(t@), p as nat, f as nat) == Ok::<
                (AstV, nat),
                nat,
            >((a@, q as nat)) && q <= t@.len() && ast_wf(a@),
            Err(k) => sp_p_pow(tok_views(t@), p as nat, f as nat) == Err::<
                (AstV, nat),
                nat,
            >(k as nat),
        }),
    decreases f, t@.len() - p, 15int,
{
    let _n = t.len();
    match p_unary(t, p, f) {
        Ok((l, q)) => match peek(t, q) {
            Some(TokKind::Caret) => {
                if f == 0 {
                    return Err(q);
                }
                match p_pow(t, q + 1, f - 1) {
                    Ok((r0, q2)) => Ok(
                        (
                            Ast::BinaryOp {
                                op: String::from_str("^"),
                                left: Box::new(l),
                                right: Box::new(r0),
                            },
                            q2,
                        ),
                    ),
                    Err(e) => Err(e),
                }
            },
            _ => Ok((l, q)),
        },
        Err(e) => Err(e),
    }
}

/// Fold multiplicative operators, as `sp_p_mul_more` describes.
#[verifier::spinoff_prover]
#[verifier::rlimit(100)]
pub fn p_mul_more(t: &Vec<Token>, lhs: Ast, p: usize, f: u128) -> (r: Result<
    (Ast, usize),
    usize,
>)
    requires
        p <= t@.len(),
        toks_wf(tok_views(t@)),
        ast_wf(lhs@),
    ensures
        (match r {
            Ok((a, q)) => sp_p_mul_more(tok_views(t@), lhs@, p as nat, f as nat) == Ok::<
                (AstV, nat),
                nat,
            >((a@, q as nat)) && q <= t@.len() && ast_wf(a@),
            Err(k) => sp_p_mul_more(tok_views(t@), lhs@, p as nat, f as nat) == Err::<
                (AstV, nat),
                nat,
            >(k as nat),
        }),
    decreases f, t@.len() - p, 16int,
{
    let _n = t.len();
    let op: Option<&'static str> = match peek(t, p) {
        Some(TokKind::Star) => Some("*"),
        Some(TokKind::Slash) => Some("/"),
        _ => None,
    };
    match op {
        None => Ok((lhs, p)),
        Some(ops) => {
            if f == 0 {
                return Err(p);
            }
            match p_pow(t, p + 1, f) {
                Ok((r0, q)) => {
                    let node = Ast::BinaryOp {
                        op: String::from_str(ops),
                        left: Box::new(lhs),
                        right: Box::new(r0),
                    };
                    p_mul_more(t, node, q, f - 1)
                },
                Err(e) => Err(e),
            }
        },
    }
}

/// Parse a multiplicative chain, as `sp_p_mul` describes.
#[verifier::spinoff_prover]
#[verifier::rlimit(100)]
pub fn p_mul(t: &Vec<Token>, p: usize, f: u128) -> (r: Result<(Ast, usize), usize>)
    requires
        p <= t@.len(),
        toks_wf(tok_views(t@)),
    ensures
        (match r {
            Ok((a, q)) => sp_p_mul(tok_views(t@), p as nat, f as nat) == Ok::<
                (AstV, nat),
                nat,
            >((a@, q as nat)) && q <= t@.len() && ast_wf(a@),
            Err(k) => sp_p_mul(tok_views(t@), p as nat, f as nat) == Err::<
                (AstV, nat),
                nat,
            >(k as nat),
        }),
    decreases f, t@.len() - p, 17int,
{
    let _n = t.len();
    match p_pow(t, p, f) {
        Ok((l, q)) => {
            if f == 0 {
                return Err(q);
            }
            p_mul_more(t, l, q, f - 1)
        },
        Err(e) => Err(e),
    }
}

/// Fold additive operators, as `sp_p_add_more` describes.
#[verifier::spinoff_prover]
#[verifier::rlimit(100)]
pub fn p_add_more(t: &Vec<Token>, lhs: Ast, p: usize, f: u128) -> (r: Result<
    (Ast, usize),
    usize,
>)
    requires
        p <= t@.len(),
        toks_wf(tok_views(t@)),
        ast_wf(lhs@),
    ensures
        (match r {
            Ok((a, q)) => sp_p_add_more(tok_views(t@), lhs@, p as nat, f as nat) == Ok::<
                (AstV, nat),
                nat,
            >((a@, q as nat)) && q <= t@.len() && ast_wf(a@),
            Err(k) => sp_p_add_more(tok_views(t@), lhs@, p as nat, f as nat) == Err::<
                (AstV, nat),
                nat,
            >(k as nat),
        }),
    decreases f, t@.len() - p, 18int,
{
    let _n = t.len();
    let op: Option<&'static str> = match peek(t, p) {
        Some(TokKind::Plus) => Some("+"),
        Some(TokKind::Minus) => Some("-"),
        _ => None,
    };
    match op {
        None => Ok((lhs, p)),
        Some(ops) => {
            if f == 0 {
                return Err(p);
            }
            match p_mul(t, p + 1, f) {
                Ok((r0, q)) => {
                    let node = Ast::BinaryOp {
                        op: String::from_str(ops),
                        left: Box::new(lhs),
                        right: Box::new(r0),
                    };
                    p_add_more(t, node, q, f - 1)
                },
                Err(e) => Err(e),
            }
        },
    }
}

/// Parse an additive chain, as `sp_p_add` describes.
#[verifier::spinoff_prover]
#[verifier::rlimit(100)]
pub fn p_add(t: &Vec<Token>, p: usize, f: u128) -> (r: Result<(Ast, usize), usize>)
    requires
        p <= t@.len(),
        toks_wf(tok_views(t@)),
    ensures
        (match r {
            Ok((a, q)) => sp_p_add(tok_views(t@), p as nat, f as nat) == Ok::<
                (AstV, nat),
                nat,
            >((a@, q as nat)) && q <= t@.len() && ast_wf(a@),
            Err(k) => sp_p_add(tok_views(t@), p as nat, f as nat) == Err::<
                (AstV, nat),
                nat,
            >(k as nat),
        }),
    decreases f, t@.len() - p, 19int,
{
    let _n = t.len();
    match p_mul(t, p, f) {
        Ok((l, q)) => {
            if f == 0 {
                return Err(q);
            }
            p_add_more(t, l, q, f - 1)
        },
        Err(e) => Err(e),
    }
}

/// Fold comparison operators, as `sp_p_cmp_more` describes.
#[verifier::spinoff_prover]
#[verifier::rlimit(100)]
pub fn p_cmp_more(t: &Vec<Token>, lhs: Ast, p: usize, f: u128) -> (r: Result<
    (Ast, usize),
    usize,
>)
    requires
        p <= t@.len(),
        toks_wf(tok_views(t@)),
        ast_wf(lhs@),
    ensures
        (match r {
            Ok((a, q)) => sp_p_cmp_more(tok_views(t@), lhs@, p as nat, f as nat) == Ok::<
                (AstV, nat),
                nat,
            >((a@, q as nat)) && q <= t@.len() && ast_wf(a@),
            Err(k) => sp_p_cmp_more(tok_views(t@), lhs@, p as nat, f as nat) == Err::<
                (AstV, nat),
                nat,
            >(k as nat),
        }),
    decreases f, t@.len() - p, 20int,
{
    let _n = t.len();
    let op: Option<&'static str> = match peek(t, p) {
        Some(TokKind::EqEq) => Some("=="),
        Some(TokKind::Ne) => Some("!="),
        Some(TokKind::Lt) => Some("<"),
        Some(TokKind::Gt) => Some(">"),
        Some(TokKind::Le) => Some("<="),
        Some(TokKind::Ge) => Some(">="),
        _ => None,
    };
    match op {
        None => Ok((lhs, p)),
        Some(ops) => {
            if f == 0 {
                return Err(p);
            }
            match p_add(t, p + 1, f) {
                Ok((r0, q)) => {
                    let node = Ast::BinaryOp {
                        op: String::from_str(ops),
                        left: Box::new(lhs),
                        right: Box::new(r0),
                    };
                    p_cmp_more(t, node, q, f - 1)
                },
                Err(e) => Err(e),
            }
        },
    }
}

/// Parse a comparison chain, as `sp_p_cmp` describes.
#[verifier::spinoff_prover]
#[verifier::rlimit(100)]
pub fn p_cmp(t: &Vec<Token>, p: usize, f: u128) -> (r: Result<(Ast, usize), usize>)
    requires
        p <= t@.len(),
        toks_wf(tok_views(t@)),
    ensures
        (match r {
            Ok((a, q)) => sp_p_cmp(tok_views(t@), p as nat, f as nat) == Ok::<
                (AstV, nat),
                nat,
            >((a@, q as nat)) && q <= t@.len() && ast_wf(a@),
            Err(k) => sp_p_cmp(tok_views(t@), p as nat, f as nat) == Err::<
                (AstV, nat),
                nat,
            >(k as nat),
        }),
    decreases f, t@.len() - p, 21int,
{
    let _n = t.len();
    match p_add(t, p, f) {
        Ok((l, q)) => {
            if f == 0 {
                return Err(q);
            }
            p_cmp_more(t, l, q, f - 1)
        },
        Err(e) => Err(e),
    }
}

/// Parse a full expression, as `sp_p_expr` describes.
#[verifier::spinoff_prover]
#[verifier::rlimit(100)]
pub fn p_expr(t: &Vec<Token>, p: usize, f: u128) -> (r: Result<(Ast, usize), usize>)
    requires
        p <= t@.len(),
        toks_wf(tok_views(t@)),
    ensures
        (match r {
            Ok((a, q)) => sp_p_expr(tok_views(t@), p as nat, f as nat) == Ok::<
                (AstV, nat),
                nat,
            >((a@, q as nat)) && q <= t@.len() && ast_wf(a@),
            Err(k) => sp_p_expr(tok_views(t@), p as nat, f as nat) == Err::<
                (AstV, nat),
                nat,
            >(k as nat),
        }),
    decreases f, t@.len() - p, 22int,
{
    let _n = t.len();
    p_cmp(t, p, f)
}

/// Parse a typed parameter list, as `sp_p_params` describes.
#[verifier::spinoff_prover]
#[verifier::rlimit(100)]
pub fn p_params(t: &Vec<Token>, p: usize, f: u128) -> (r: Result<
    (Vec<(String, String)>, usize),
    usize,
>)
    requires
        p <= t@.len(),
        toks_wf(tok_views(t@)),
    ensures
        (match r {
            Ok((ps, q)) => sp_p_params(tok_views(t@), p as nat, f as nat) == Ok::<
                (Seq<(Seq<char>, Seq<char>)>, nat),
                nat,
            >((ps@.map_values(|pr: (String, String)| (pr.0@, pr.1@)), q as nat)) && q <= t@.len(),
            Err(k) => sp_p_params(tok_views(t@), p as nat, f as nat) == Err::<
                (Seq<(Seq<char>, Seq<char>)>, nat),
                nat,
            >(k as nat),
        }),
    decreases f, t@.len() - p, 7int,
{
    let _n = t.len();
    match peek(t, p) {
        Some(TokKind::RParen) => {
            let ps: Vec<(String, String)> = Vec::new();
            proof {
                assert(ps@.map_values(|pr: (String, String)| (pr.0@, pr.1@)) =~= Seq::<
                    (Seq<char>, Seq<char>),
                >::empty());
            }
            Ok((ps, p + 1))
        },
        Some(TokKind::Ident(nm)) => {
            match peek(t, p + 1) {
                Some(TokKind::Colon) => {},
                _ => {
                    return Err(p + 1);
                },
            }
            let ty: String = match peek(t, p + 2) {
                Some(TokKind::Ident(ty0)) => ty0.clone(),
                _ => {
                    return Err(p + 2);
                },
            };
            let nmc = nm.clone();
            match p_params_rest(t, p + 3, f) {
                Ok((ps0, q)) => {
                    let mut ps = ps0;
                    let ghost pre = ps@;
                    ps.insert(0, (nmc, ty));
                    proof {
                        assert(ps@.map_values(|pr: (String, String)| (pr.0@, pr.1@)) =~= seq![
                            (nm@, ty@),
                        ] + pre.map_values(|pr: (String, String)| (pr.0@, pr.1@)));
                    }
                    Ok((ps, q))
                },
                Err(e) => Err(e),
            }
        },
        _ => Err(p),
    }
}

/// Parse the remainder of a parameter list, as `sp_p_params_rest` describes.
#[verifier::spinoff_prover]
#[verifier::rlimit(100)]
pub fn p_params_rest(t: &Vec<Token>, p: usize, f: u128) -> (r: Result<
    (Vec<(String, String)>, usize),
    usize,
>)
    requires
        p <= t@.len(),
        toks_wf(tok_views(t@)),
    ensures
        (match r {
            Ok((ps, q)) => sp_p_params_rest(tok_views(t@), p as nat, f as nat) == Ok::<
                (Seq<(Seq<char>, Seq<char>)>, nat),
                nat,
            >((ps@.map_values(|pr: (String, String)| (pr.0@, pr.1@)), q as nat)) && q <= t@.len(),
            Err(k) => sp_p_params_rest(tok_views(t@), p as nat, f as nat) == Err::<
                (Seq<(Seq<char>, Seq<char>)>, nat),
                nat,
            >(k as nat),
        }),
    decreases f, t@.len() - p, 6int,
{
    let _n = t.len();
    match peek(t, p) {
        Some(TokKind::RParen) => {
            let ps: Vec<(String, String)> = Vec::new();
            proof {
                assert(ps@.map_values(|pr: (String, String)| (pr.0@, pr.1@)) =~= Seq::<
                    (Seq<char>, Seq<char>),
                >::empty());
            }
            Ok((ps, p + 1))
        },
        Some(TokKind::Comma) => {
            let nmc: String = match peek(t, p + 1) {
                Some(TokKind::Ident(nm)) => nm.clone(),
                _ => {
                    return Err(p + 1);
                },
            };
            match peek(t, p + 2) {
                Some(TokKind::Colon) => {},
                _ => {
                    return Err(p + 2);
                },
            }
            let ty: String = match peek(t, p + 3) {
                Some(TokKind::Ident(ty0)) => ty0.clone(),
                _ => {
                    return Err(p + 3);
                },
            };
            let ghost nmv = nmc@;
            let ghost tyv = ty@;
            match p_params_rest(t, p + 4, f) {
                Ok((ps0, q)) => {
                    let mut ps = ps0;
                    let ghost pre = ps@;
                    ps.insert(0, (nmc, ty));
                    proof {
                        assert(ps@.map_values(|pr: (String, String)| (pr.0@, pr.1@)) =~= seq![
                            (nmv, tyv),
                        ] + pre.map_values(|pr: (String, String)| (pr.0@, pr.1@)));
                    }
                    Ok((ps, q))
                },
                Err(e) => Err(e),
            }
        },
        _ => Err(p),
    }
}

/// Parse an assignment or a bare expression, as `sp_p_assign_or_expr`
/// describes.
#[verifier::spinoff_prover]
#[verifier::rlimit(100)]
pub fn p_assign_or_expr(t: &Vec<Token>, p: usize, f: u128) -> (r: Result<(Ast, usize), usize>)
    requires
        p <= t@.len(),
        toks_wf(tok_views(t@)),
    ensures
        (match r {
            Ok((a, q)) => sp_p_assign_or_expr(tok_views(t@), p as nat, f as nat) == Ok::<
                (AstV, nat),
                nat,
            >((a@, q as nat)) && q <= t@.len() && ast_wf(a@),
            Err(k) => sp_p_assign_or_expr(tok_views(t@), p as nat, f as nat) == Err::<
                (AstV, nat),
                nat,
            >(k as nat),
        }),
    decreases f, t@.len() - p, 24int,
{
    let _n = t.len();
    match p_expr(t, p, f) {
        Err(e) => Err(e),
        Ok((a, q)) => match peek(t, q) {
            Some(TokKind::Equals) => {
                let target_ok: bool = match &a {
                    Ast::Identifier(_) => true,
                    Ast::ArrayAccess { .. } => true,
                    _ => false,
                };
                if !target_ok {
                    return Err(q);
                }
                if f == 0 {
                    return Err(q);
                }
                match p_expr(t, q + 1, f - 1) {
                    Ok((rhs, q2)) => Ok(
                        (Ast::Assign { id: Box::new(a), expr: Box::new(rhs) }, q2),
                    ),
                    Err(e) => Err(e),
                }
            },
            _ => Ok((a, q)),
        },
    }
}

/// Parse one statement, as `sp_p_stmt` describes.
#[verifier::spinoff_prover]
#[verifier::rlimit(100)]
pub fn p_stmt(t: &Vec<Token>, p: usize, f: u128) -> (r: Result<(Ast, usize), usize>)
    requires
        p <= t@.len(),
        toks_wf(tok_views(t@)),
    ensures
        (match r {
            Ok((a, q)) => sp_p_stmt(tok_views(t@), p as nat, f as nat) == Ok::<
                (AstV, nat),
                nat,
            >((a@, q as nat)) && q <= t@.len() && ast_wf(a@),
            Err(k) => sp_p_stmt(tok_views(t@), p as nat, f as nat) == Err::<
                (AstV, nat),
                nat,
            >(k as nat),
        }),
    decreases f, t@.len() - p, 25int,
{
    let _n = t.len();
    let kw: u8 = match peek(t, p) {
        Some(TokKind::Ident(w)) => {
            if str_is(w, "def") {
                1
            } else if str_is(w, "if") {
                2
            } else if str_is(w, "for") {
                3
            } else {
                0
            }
        },
        _ => 0,
    };
    if kw == 1 {
        let name: String = match peek(t, p + 1) {
            Some(TokKind::Ident(nm)) => nm.clone(),
            _ => {
                return Err(p + 1);
            },
        };
        match peek(t, p + 2) {
            Some(TokKind::LParen) => {},
            _ => {
                return Err(p + 2);
            },
        }
        match p_params(t, p + 3, f) {
            Err(e) => Err(e),
            Ok((ps, q)) => {
                match peek(t, q) {
                    Some(TokKind::LBrace) => {},
                    _ => {
                        return Err(q);
                    },
                }
                if f == 0 {
                    return Err(q);
                }
                match p_stmts(t, q + 1, f - 1) {
                    Err(e) => Err(e),
                    Ok((ss, q2)) => match peek(t, q2) {
                        Some(TokKind::RBrace) => {
                            let ghost ssv = ast_views(ss@);
                            let body = Ast::Block(ss);
                            proof {
                                assert(body@ == AstV::Block(ssv));
                                assert(ast_wf(body@));
                            }
                            let node = Ast::FunctionDefinition {
                                id: name,
                                params: ps,
                                body: Box::new(body),
                            };
                            proof {
                                assert(ast_wf(node@));
                            }
                            Ok((node, q2 + 1))
                        },
                        _ => Err(q2),
                    },
                }
            },
        }
    } else if kw == 2 {
        match peek(t, p + 1) {
            Some(TokKind::LParen) => {},
            _ => {
                return Err(p + 1);
            },
        }
        match p_expr(t, p + 2, f) {
            Err(e) => Err(e),
            Ok((cond, q)) => {
                match peek(t, q) {
                    Some(TokKind::RParen) => {},
                    _ => {
                        return Err(q);
                    },
                }
                match peek(t, q + 1) {
                    Some(TokKind::LBrace) => {},
                    _ => {
                        return Err(q + 1);
                    },
                }
                if f == 0 {
                    return Err(q + 1);
                }
                match p_stmts(t, q + 2, f - 1) {
                    Err(e) => Err(e),
                    Ok((ss, q2)) => match peek(t, q2) {
                        Some(TokKind::RBrace) => {
                            let ghost ssv = ast_views(ss@);
                            let body = Ast::Block(ss);
                            proof {
                                assert(body@ == AstV::Block(ssv));
                                assert(ast_wf(body@));
                            }
                            let node = Ast::If {
                                condition: Box::new(cond),
                                block: Box::new(body),
                            };
                            proof {
                                assert(ast_wf(node@));
                            }
                            Ok((node, q2 + 1))
                        },
                        _ => Err(q2),
                    },
                }
            },
        }
    } else if kw == 3 {
        let name: String = match peek(t, p + 1) {
            Some(TokKind::Ident(nm)) => nm.clone(),
            _ => {
                return Err(p + 1);
            },
        };
        match peek(t, p + 2) {
            Some(TokKind::Ident(w2)) => {
                if !str_is(w2, "in") {
                    return Err(p + 2);
                }
            },
            _ => {
                return Err(p + 2);
            },
        }
        match p_expr(t, p + 3, f) {
            Err(e) => Err(e),
            Ok((iter, q)) => {
                match peek(t, q) {
                    Some(TokKind::LBrace) => {},
                    _ => {
                        return Err(q);
                    },
                }
                if f == 0 {
                    return Err(q);
                }
                match p_stmts(t, q + 1, f - 1) {
                    Err(e) => Err(e),
                    Ok((ss, q2)) => match peek(t, q2) {
                        Some(TokKind::RBrace) => {
                            let ghost ssv = ast_views(ss@);
                            let ghost nv = name@;
                            let body = Ast::Block(ss);
                            let elem = Ast::Identifier(name);
                            proof {
                                assert(body@ == AstV::Block(ssv));
                                assert(ast_wf(body@));
                                assert(elem@ == AstV::Ident(nv));
                                assert(ast_wf(elem@));
                            }
                            let node = Ast::ForLoop {
                                element: Box::new(elem),
                                elements: Box::new(iter),
                                block: Box::new(body),
                            };
                            proof {
                                assert(ast_wf(node@));
                            }
                            Ok((node, q2 + 1))
                        },
                        _ => Err(q2),
                    },
                }
            },
        }
    } else {
        p_assign_or_expr(t, p, f)
    }
}

/// A vector holding one parsed statement.
fn single_stmt(s1: Ast) -> (r: Vec<Ast>)
    requires
        ast_wf(s1@),
    ensures
        ast_views(r@) == seq![ast_view(s1)],
        ast_wf_all(ast_views(r@)),
{
    let ghost sv = s1@;
    let mut ss: Vec<Ast> = Vec::new();
    ss.push(s1);
    proof {
        lemma_ast_views_len(ss@);
        assert(ast_views(ss@) =~= seq![sv]);
        assert forall|i: int| 0 <= i < ast_views(ss@).len() implies ast_wf(
            #[trigger] ast_views(ss@)[i],
        ) by {
            assert(ast_views(ss@)[i] == sv);
        }
    }
    ss
}

/// A parsed statement prepended to the statements after it.
fn prepend_stmt(s1: Ast, rest: Vec<Ast>) -> (r: Vec<Ast>)
    requires
        ast_wf(s1@),
        ast_wf_all(ast_views(rest@)),
    ensures
        ast_views(r@) == seq![ast_view(s1)] + ast_views(rest@),
        ast_wf_all(ast_views(r@)),
{
    let mut ss = rest;
    proof {
        lemma_views_prepend(s1, ss@);
        lemma_wf_prepend(s1@, ast_views(ss@));
    }
    ss.insert(0, s1);
    ss
}

/// Parse a statement list, as `sp_p_stmts` describes.
#[verifier::spinoff_prover]
#[verifier::rlimit(100)]
pub fn p_stmts(t: &Vec<Token>, p: usize, f: u128) -> (r: Result<(Vec<Ast>, usize), usize>)
    requires
        p <= t@.len(),
        toks_wf(tok_views(t@)),
    ensures
        (match r {
            Ok((ss, q)) => sp_p_stmts(tok_views(t@), p as nat, f as nat) == Ok::<
                (Seq<AstV>, nat),
                nat,
            >((ast_views(ss@), q as nat)) && q <= t@.len() && ast_wf_all(ast_views(ss@)),
            Err(k) => sp_p_stmts(tok_views(t@), p as nat, f as nat) == Err::<
                (Seq<AstV>, nat),
                nat,
            >(k as nat),
        }),
    decreases f, t@.len() - p, 26int,
{
    let _n = t.len();
    match peek(t, p) {
        None => {
            let ss: Vec<Ast> = Vec::new();
            proof {
                assert(ast_views(ss@) =~= Seq::<AstV>::empty());
            }
            Ok((ss, p))
        },
        Some(TokKind::RBrace) => {
            let ss: Vec<Ast> = Vec::new();
            proof {
                assert(ast_views(ss@) =~= Seq::<AstV>::empty());
            }
            Ok((ss, p))
        },
        Some(_) => match p_stmt(t, p, f) {
            Err(e) => Err(e),
            Ok((s1, q)) => match peek(t, q) {
                Some(TokKind::Semi) => {
                    if f == 0 {
                        return Err(q);
                    }
                    match p_stmts(t, q + 1, f - 1) {
                        Ok((ss0, q2)) => Ok((prepend_stmt(s1, ss0), q2)),
                        Err(e) => Err(e),
                    }
                },
                Some(TokKind::RBrace) => Ok((single_stmt(s1), q)),
                None => Ok((single_stmt(s1), q)),
                _ => Err(q),
            },
        },
    }
}

/// The character position a parse error at token index `k` reports: the
/// offending token's own position, or the source length at the end of input.
fn err_at(toks: &Vec<Token>, k: usize, n: usize) -> (r: usize)
    ensures
        r as nat == (if (k as nat) < tok_views(toks@).len() {
            tok_views(toks@)[k as int].at
        } else {
            n as nat
        }),
{
    if k < toks.len() {
        toks[k].at
    } else {
        n
    }
}

impl Ast {
    /// Parse source text into the program block, as `sp_parse_program`
    /// describes; a failure reports the character position at which no parse
    /// exists.
    pub fn parse_code(source: &str) -> (r: Result<Ast, Error>)
        ensures
            (match r {
                Ok(a) => sp_parse_program(source@) == Ok::<AstV, nat>(a@) && ast_wf(a@),
                Err(e) => (match sp_parse_program(source@) {
                    Ok(_) => false,
                    Err(pp) => e@ == ErrV::ParseError(pp),
                }),
            }),
    {
        let cs = str_to_chars(source);
        let toks = match lex_chars(&cs) {
            Ok(ts) => ts,
            Err(pe) => {
                return Err(Error::ParseError(pe));
            },
        };
        let f: u128 = (toks.len() as u128) + 1;
        match p_stmts(&toks, 0, f) {
            Ok((ss, q)) => {
                if q == toks.len() {
                    proof {
                        assert(tok_views(toks@).len() == toks@.len());
                    }
                    Ok(Ast::Block(ss))
                } else {
                    Err(Error::ParseError(err_at(&toks, q, cs.len())))
                }
            },
            Err(k) => Err(Error::ParseError(err_at(&toks, k, cs.len()))),
        }
    }
}

} // verus!
