//! The parser: tokens to an expression tree.
//!
//! Recursive descent with one level per binding strength, low to high:
//! addition/subtraction, then multiplication/division/modulo, then unary
//! minus/plus, then exponentiation (right-associative), then atoms (literals,
//! names, calls, parenthesized groups).  Unary minus binds looser than `**`,
//! so `-2**2` is `-(2**2)`.  All binary operators except `**` associate to
//! the left.  The specification functions `p_*` define the unique parse of
//! any token stream; each `e_*` function is proved to return exactly that.

use vstd::prelude::*;
use crate::ast::{args_wfv, expr_wfv, Args, ArgsV, BinOp, Expr, ExprV};
use crate::error::{ParseError, ParseErrorKind};
use crate::token::{toks_wf, tview, TokKindV, Token, TokView, TokenKind};

verus! {

/// Parse of a full expression: the lowest binding strength.
pub open spec fn p_expr(ts: Seq<TokView>, i: int) -> Result<(ExprV, int), ParseError>
    decreases ts.len() - i, 9int,
{
    p_addsub(ts, i)
}

/// Parse of a chain of `+` and `-`.
pub open spec fn p_addsub(ts: Seq<TokView>, i: int) -> Result<(ExprV, int), ParseError>
    decreases ts.len() - i, 8int,
{
    match p_muldiv(ts, i) {
        Err(e) => Err(e),
        Ok((e0, j)) => if i < j && j <= ts.len() {
            p_addsub_tail(ts, e0, j)
        } else {
            arbitrary()
        },
    }
}

/// Left-associative continuation of a `+`/`-` chain.
pub open spec fn p_addsub_tail(ts: Seq<TokView>, acc: ExprV, j: int) -> Result<
    (ExprV, int),
    ParseError,
>
    decreases ts.len() - j, 8int,
{
    if 0 <= j < ts.len() && (ts[j].kind is Plus || ts[j].kind is Minus) {
        let op = if ts[j].kind is Plus {
            BinOp::Add
        } else {
            BinOp::Sub
        };
        match p_muldiv(ts, j + 1) {
            Err(e) => Err(e),
            Ok((r, k)) => if j < k && k <= ts.len() {
                p_addsub_tail(ts, ExprV::Bin(op, Box::new(acc), Box::new(r)), k)
            } else {
                arbitrary()
            },
        }
    } else {
        Ok((acc, j))
    }
}

/// Parse of a chain of `*`, `/` and `%`.
pub open spec fn p_muldiv(ts: Seq<TokView>, i: int) -> Result<(ExprV, int), ParseError>
    decreases ts.len() - i, 7int,
{
    match p_unary(ts, i) {
        Err(e) => Err(e),
        Ok((e0, j)) => if i < j && j <= ts.len() {
            p_muldiv_tail(ts, e0, j)
        } else {
            arbitrary()
        },
    }
}

/// Left-associative continuation of a `*`/`/`/`%` chain.
pub open spec fn p_muldiv_tail(ts: Seq<TokView>, acc: ExprV, j: int) -> Result<
    (ExprV, int),
    ParseError,
>
    decreases ts.len() - j, 7int,
{
    if 0 <= j < ts.len() && (ts[j].kind is Star || ts[j].kind is Slash || ts[j].kind
        is Percent) {
        let op = if ts[j].kind is Star {
            BinOp::Mul
        } else if ts[j].kind is Slash {
            BinOp::Div
        } else {
            BinOp::Mod
        };
        match p_unary(ts, j + 1) {
            Err(e) => Err(e),
            Ok((r, k)) => if j < k && k <= ts.len() {
                p_muldiv_tail(ts, ExprV::Bin(op, Box::new(acc), Box::new(r)), k)
            } else {
                arbitrary()
            },
        }
    } else {
        Ok((acc, j))
    }
}

/// Parse of unary `-` and `+`, binding looser than `**`.
pub open spec fn p_unary(ts: Seq<TokView>, i: int) -> Result<(ExprV, int), ParseError>
    decreases ts.len() - i, 6int,
{
    if 0 <= i < ts.len() && ts[i].kind is Minus {
        match p_unary(ts, i + 1) {
            Err(e) => Err(e),
            Ok((e, j)) => Ok((ExprV::Neg(Box::new(e)), j)),
        }
    } else if 0 <= i < ts.len() && ts[i].kind is Plus {
        p_unary(ts, i + 1)
    } else {
        p_power(ts, i)
    }
}

/// Parse of `**`, right-associative; its right operand may again be unary.
pub open spec fn p_power(ts: Seq<TokView>, i: int) -> Result<(ExprV, int), ParseError>
    decreases ts.len() - i, 5int,
{
    match p_atom(ts, i) {
        Err(e) => Err(e),
        Ok((b, j)) => if i < j && j < ts.len() && ts[j].kind is Pow {
            match p_unary(ts, j + 1) {
                Err(e) => Err(e),
                Ok((r, k)) => Ok((ExprV::Bin(BinOp::Pow, Box::new(b), Box::new(r)), k)),
            }
        } else {
            Ok((b, j))
        },
    }
}

/// Parse of an atom: a literal, a name, a call, or a parenthesized group.
pub open spec fn p_atom(ts: Seq<TokView>, i: int) -> Result<(ExprV, int), ParseError>
    decreases ts.len() - i, 0int,
{
    if 0 <= i < ts.len() {
        match ts[i].kind {
            TokKindV::Num(v) => Ok((ExprV::Lit(v), i + 1)),
            TokKindV::Ident(n) => if i + 1 < ts.len() && ts[i + 1].kind is LParen {
                match p_args(ts, i + 2) {
                    Err(e) => Err(e),
                    Ok((args, k)) => Ok((ExprV::Call(n, Box::new(args)), k)),
                }
            } else {
                Ok((ExprV::Var(n), i + 1))
            },
            TokKindV::LParen => match p_expr(ts, i + 1) {
                Err(e) => Err(e),
                Ok((e, j)) => if 0 <= j < ts.len() && ts[j].kind is RParen {
                    Ok((e, j + 1))
                } else {
                    Err(
                        ParseError {
                            kind: ParseErrorKind::UnbalancedParen,
                            pos: if 0 <= j < ts.len() {
                                ts[j].pos
                            } else {
                                0
                            },
                        },
                    )
                },
            },
            _ => Err(ParseError { kind: ParseErrorKind::MissingOperand, pos: ts[i].pos }),
        }
    } else {
        Err(ParseError { kind: ParseErrorKind::MissingOperand, pos: 0 })
    }
}

/// Parse of a call's argument list, starting just after the `(`.
pub open spec fn p_args(ts: Seq<TokView>, i: int) -> Result<(ArgsV, int), ParseError>
    decreases ts.len() - i, 12int,
{
    if 0 <= i < ts.len() && ts[i].kind is RParen {
        Ok((ArgsV::Nil, i + 1))
    } else {
        p_args_items(ts, i)
    }
}

/// Parse of one or more comma-separated arguments, then the closing `)`.
pub open spec fn p_args_items(ts: Seq<TokView>, i: int) -> Result<(ArgsV, int), ParseError>
    decreases ts.len() - i, 10int,
{
    match p_expr(ts, i) {
        Err(e) => Err(e),
        Ok((a, j)) => if i < j && j <= ts.len() {
            if j < ts.len() && ts[j].kind is Comma {
                match p_args_items(ts, j + 1) {
                    Err(e) => Err(e),
                    Ok((rest, k)) => Ok((ArgsV::Cons(Box::new(a), Box::new(rest)), k)),
                }
            } else if j < ts.len() && ts[j].kind is RParen {
                Ok((ArgsV::Cons(Box::new(a), Box::new(ArgsV::Nil)), j + 1))
            } else {
                Err(
                    ParseError {
                        kind: ParseErrorKind::UnbalancedParen,
                        pos: if j < ts.len() {
                            ts[j].pos
                        } else {
                            0
                        },
                    },
                )
            }
        } else {
            arbitrary()
        },
    }
}

/// Parse of the whole token stream: a complete expression followed by `End`.
/// A leftover comma is a `MisplacedComma`, any other leftover token a
/// `TrailingToken`.
pub open spec fn p_top(ts: Seq<TokView>) -> Result<ExprV, ParseError> {
    match p_expr(ts, 0) {
        Err(e) => Err(e),
        Ok((e, j)) => if 0 <= j < ts.len() && ts[j].kind is End {
            Ok(e)
        } else if 0 <= j < ts.len() && ts[j].kind is Comma {
            Err(ParseError { kind: ParseErrorKind::MisplacedComma, pos: ts[j].pos })
        } else {
            Err(
                ParseError {
                    kind: ParseErrorKind::TrailingToken,
                    pos: if 0 <= j < ts.len() {
                        ts[j].pos
                    } else {
                        0
                    },
                },
            )
        },
    }
}

/// A fresh copy of a byte vector.
fn clone_bytes(v: &Vec<u8>) -> (r: Vec<u8>)
    ensures
        r@ == v@,
{
    let mut r: Vec<u8> = Vec::new();
    let mut k: usize = 0;
    proof {
        assert(r@ =~= v@.subrange(0, 0));
    }
    while k < v.len()
        invariant
            k <= v@.len(),
            r@ == v@.subrange(0, k as int),
        decreases v@.len() - k,
    {
        r.push(v[k]);
        proof {
            assert(v@.subrange(0, k as int + 1) =~= v@.subrange(0, k as int).push(v@[k as int]));
        }
        k = k + 1;
    }
    proof {
        assert(v@.subrange(0, v@.len() as int) =~= v@);
    }
    r
}

fn e_expr(toks: &Vec<Token>, i: usize) -> (r: Result<(Expr, usize), ParseError>)
    requires
        i <= toks@.len(),
    ensures
        match r {
            Ok((e, j)) => p_expr(tview(toks@), i as int) == Ok::<(ExprV, int), ParseError>(
                (e@, j as int),
            ) && i < j <= toks@.len() && (toks_wf(tview(toks@)) ==> expr_wfv(e@)),
            Err(pe) => p_expr(tview(toks@), i as int) == Err::<(ExprV, int), ParseError>(pe),
        },
    decreases toks@.len() - i, 9int,
{
    e_addsub(toks, i)
}

fn e_addsub(toks: &Vec<Token>, i: usize) -> (r: Result<(Expr, usize), ParseError>)
    requires
        i <= toks@.len(),
    ensures
        match r {
            Ok((e, j)) => p_addsub(tview(toks@), i as int) == Ok::<(ExprV, int), ParseError>(
                (e@, j as int),
            ) && i < j <= toks@.len() && (toks_wf(tview(toks@)) ==> expr_wfv(e@)),
            Err(pe) => p_addsub(tview(toks@), i as int) == Err::<(ExprV, int), ParseError>(pe),
        },
    decreases toks@.len() - i, 8int,
{
    match e_muldiv(toks, i) {
        Err(e) => Err(e),
        Ok((e0, j)) => e_addsub_tail(toks, e0, j, Ghost(i as int)),
    }
}

fn e_addsub_tail(toks: &Vec<Token>, acc: Expr, j: usize, Ghost(lo): Ghost<int>) -> (r: Result<
    (Expr, usize),
    ParseError,
>)
    requires
        lo < j <= toks@.len(),
    ensures
        match r {
            Ok((e, k)) => p_addsub_tail(tview(toks@), acc@, j as int) == Ok::<
                (ExprV, int),
                ParseError,
            >((e@, k as int)) && lo < k <= toks@.len() && ((toks_wf(tview(toks@))
                && expr_wfv(acc@)) ==> expr_wfv(e@)),
            Err(pe) => p_addsub_tail(tview(toks@), acc@, j as int) == Err::<
                (ExprV, int),
                ParseError,
            >(pe),
        },
    decreases toks@.len() - j, 8int,
{
    if j < toks.len() && (matches!(toks[j].kind, TokenKind::Plus) || matches!(
        toks[j].kind,
        TokenKind::Minus,
    )) {
        let op = if matches!(toks[j].kind, TokenKind::Plus) {
            BinOp::Add
        } else {
            BinOp::Sub
        };
        match e_muldiv(toks, j + 1) {
            Err(e) => Err(e),
            Ok((r, k)) => e_addsub_tail(
                toks,
                Expr::Bin(op, Box::new(acc), Box::new(r)),
                k,
                Ghost(lo),
            ),
        }
    } else {
        Ok((acc, j))
    }
}

fn e_muldiv(toks: &Vec<Token>, i: usize) -> (r: Result<(Expr, usize), ParseError>)
    requires
        i <= toks@.len(),
    ensures
        match r {
            Ok((e, j)) => p_muldiv(tview(toks@), i as int) == Ok::<(ExprV, int), ParseError>(
                (e@, j as int),
            ) && i < j <= toks@.len() && (toks_wf(tview(toks@)) ==> expr_wfv(e@)),
            Err(pe) => p_muldiv(tview(toks@), i as int) == Err::<(ExprV, int), ParseError>(pe),
        },
    decreases toks@.len() - i, 7int,
{
    match e_unary(toks, i) {
        Err(e) => Err(e),
        Ok((e0, j)) => e_muldiv_tail(toks, e0, j, Ghost(i as int)),
    }
}

fn e_muldiv_tail(toks: &Vec<Token>, acc: Expr, j: usize, Ghost(lo): Ghost<int>) -> (r: Result<
    (Expr, usize),
    ParseError,
>)
    requires
        lo < j <= toks@.len(),
    ensures
        match r {
            Ok((e, k)) => p_muldiv_tail(tview(toks@), acc@, j as int) == Ok::<
                (ExprV, int),
                ParseError,
            >((e@, k as int)) && lo < k <= toks@.len() && ((toks_wf(tview(toks@))
                && expr_wfv(acc@)) ==> expr_wfv(e@)),
            Err(pe) => p_muldiv_tail(tview(toks@), acc@, j as int) == Err::<
                (ExprV, int),
                ParseError,
            >(pe),
        },
    decreases toks@.len() - j, 7int,
{
    if j < toks.len() && (matches!(toks[j].kind, TokenKind::Star) || matches!(
        toks[j].kind,
        TokenKind::Slash,
    ) || matches!(toks[j].kind, TokenKind::Percent)) {
        let op = if matches!(toks[j].kind, TokenKind::Star) {
            BinOp::Mul
        } else if matches!(toks[j].kind, TokenKind::Slash) {
            BinOp::Div
        } else {
            BinOp::Mod
        };
        match e_unary(toks, j + 1) {
            Err(e) => Err(e),
            Ok((r, k)) => e_muldiv_tail(
                toks,
                Expr::Bin(op, Box::new(acc), Box::new(r)),
                k,
                Ghost(lo),
            ),
        }
    } else {
        Ok((acc, j))
    }
}

fn e_unary(toks: &Vec<Token>, i: usize) -> (r: Result<(Expr, usize), ParseError>)
    requires
        i <= toks@.len(),
    ensures
        match r {
            Ok((e, j)) => p_unary(tview(toks@), i as int) == Ok::<(ExprV, int), ParseError>(
                (e@, j as int),
            ) && i < j <= toks@.len() && (toks_wf(tview(toks@)) ==> expr_wfv(e@)),
            Err(pe) => p_unary(tview(toks@), i as int) == Err::<(ExprV, int), ParseError>(pe),
        },
    decreases toks@.len() - i, 6int,
{
    if i < toks.len() && matches!(toks[i].kind, TokenKind::Minus) {
        match e_unary(toks, i + 1) {
            Err(e) => Err(e),
            Ok((e, j)) => Ok((Expr::Neg(Box::new(e)), j)),
        }
    } else if i < toks.len() && matches!(toks[i].kind, TokenKind::Plus) {
        e_unary(toks, i + 1)
    } else {
        e_power(toks, i)
    }
}

fn e_power(toks: &Vec<Token>, i: usize) -> (r: Result<(Expr, usize), ParseError>)
    requires
        i <= toks@.len(),
    ensures
        match r {
            Ok((e, j)) => p_power(tview(toks@), i as int) == Ok::<(ExprV, int), ParseError>(
                (e@, j as int),
            ) && i < j <= toks@.len() && (toks_wf(tview(toks@)) ==> expr_wfv(e@)),
            Err(pe) => p_power(tview(toks@), i as int) == Err::<(ExprV, int), ParseError>(pe),
        },
    decreases toks@.len() - i, 5int,
{
    match e_atom(toks, i) {
        Err(e) => Err(e),
        Ok((b, j)) => {
            if j < toks.len() && matches!(toks[j].kind, TokenKind::Pow) {
                match e_unary(toks, j + 1) {
                    Err(e) => Err(e),
                    Ok((r, k)) => Ok((Expr::Bin(BinOp::Pow, Box::new(b), Box::new(r)), k)),
                }
            } else {
                Ok((b, j))
            }
        },
    }
}

#[verifier::rlimit(60)]
fn e_atom(toks: &Vec<Token>, i: usize) -> (r: Result<(Expr, usize), ParseError>)
    requires
        i <= toks@.len(),
    ensures
        match r {
            Ok((e, j)) => p_atom(tview(toks@), i as int) == Ok::<(ExprV, int), ParseError>(
                (e@, j as int),
            ) && i < j <= toks@.len() && (toks_wf(tview(toks@)) ==> expr_wfv(e@)),
            Err(pe) => p_atom(tview(toks@), i as int) == Err::<(ExprV, int), ParseError>(pe),
        },
    decreases toks@.len() - i, 0int,
{
    if i < toks.len() {
        match &toks[i].kind {
            TokenKind::Num(v) => Ok((Expr::Lit(*v), i + 1)),
            TokenKind::Ident(n) => {
                let name = clone_bytes(n);
                if i + 1 < toks.len() && matches!(toks[i + 1].kind, TokenKind::LParen) {
                    match e_args(toks, i + 2) {
                        Err(e) => Err(e),
                        Ok((args, k)) => Ok((Expr::Call(name, args), k)),
                    }
                } else {
                    Ok((Expr::Var(name), i + 1))
                }
            },
            TokenKind::LParen => {
                match e_expr(toks, i + 1) {
                    Err(e) => Err(e),
                    Ok((e, j)) => {
                        if j < toks.len() && matches!(toks[j].kind, TokenKind::RParen) {
                            Ok((e, j + 1))
                        } else {
                            Err(
                                ParseError {
                                    kind: ParseErrorKind::UnbalancedParen,
                                    pos: if j < toks.len() {
                                        toks[j].pos
                                    } else {
                                        0
                                    },
                                },
                            )
                        }
                    },
                }
            },
            _ => Err(ParseError { kind: ParseErrorKind::MissingOperand, pos: toks[i].pos }),
        }
    } else {
        Err(ParseError { kind: ParseErrorKind::MissingOperand, pos: 0 })
    }
}

fn e_args(toks: &Vec<Token>, i: usize) -> (r: Result<(Args, usize), ParseError>)
    requires
        i <= toks@.len(),
    ensures
        match r {
            Ok((a, k)) => p_args(tview(toks@), i as int) == Ok::<(ArgsV, int), ParseError>(
                (a@, k as int),
            ) && i < k <= toks@.len() && (toks_wf(tview(toks@)) ==> args_wfv(a@)),
            Err(pe) => p_args(tview(toks@), i as int) == Err::<(ArgsV, int), ParseError>(pe),
        },
    decreases toks@.len() - i, 12int,
{
    if i < toks.len() && matches!(toks[i].kind, TokenKind::RParen) {
        Ok((Args::Nil, i + 1))
    } else {
        e_args_items(toks, i)
    }
}

fn e_args_items(toks: &Vec<Token>, i: usize) -> (r: Result<(Args, usize), ParseError>)
    requires
        i <= toks@.len(),
    ensures
        match r {
            Ok((a, k)) => p_args_items(tview(toks@), i as int) == Ok::<(ArgsV, int), ParseError>(
                (a@, k as int),
            ) && i < k <= toks@.len() && (toks_wf(tview(toks@)) ==> args_wfv(a@)),
            Err(pe) => p_args_items(tview(toks@), i as int) == Err::<(ArgsV, int), ParseError>(
                pe,
            ),
        },
    decreases toks@.len() - i, 10int,
{
    match e_expr(toks, i) {
        Err(e) => Err(e),
        Ok((a, j)) => {
            if j < toks.len() && matches!(toks[j].kind, TokenKind::Comma) {
                match e_args_items(toks, j + 1) {
                    Err(e) => Err(e),
                    Ok((rest, k)) => Ok((Args::Cons(Box::new(a), Box::new(rest)), k)),
                }
            } else if j < toks.len() && matches!(toks[j].kind, TokenKind::RParen) {
                let tail = Args::Nil;
                proof {
                    assert(tail@ == ArgsV::Nil);
                    assert(args_wfv(ArgsV::Nil));
                }
                Ok((Args::Cons(Box::new(a), Box::new(tail)), j + 1))
            } else {
                Err(
                    ParseError {
                        kind: ParseErrorKind::UnbalancedParen,
                        pos: if j < toks.len() {
                            toks[j].pos
                        } else {
                            0
                        },
                    },
                )
            }
        },
    }
}

/// Parse the whole token stream: exactly the tree `p_top` describes.
pub fn parse(toks: &Vec<Token>) -> (r: Result<Expr, ParseError>)
    ensures
        match r {
            Ok(e) => p_top(tview(toks@)) == Ok::<ExprV, ParseError>(e@) && (toks_wf(
                tview(toks@),
            ) ==> expr_wfv(e@)),
            Err(pe) => p_top(tview(toks@)) == Err::<ExprV, ParseError>(pe),
        },
{
    match e_expr(toks, 0) {
        Err(e) => Err(e),
        Ok((e, j)) => {
            if j < toks.len() && matches!(toks[j].kind, TokenKind::End) {
                Ok(e)
            } else if j < toks.len() && matches!(toks[j].kind, TokenKind::Comma) {
                Err(ParseError { kind: ParseErrorKind::MisplacedComma, pos: toks[j].pos })
            } else {
                Err(
                    ParseError {
                        kind: ParseErrorKind::TrailingToken,
                        pos: if j < toks.len() {
                            toks[j].pos
                        } else {
                            0
                        },
                    },
                )
            }
        },
    }
}

} // verus!
