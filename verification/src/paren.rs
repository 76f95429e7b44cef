//! The parenthesization law: wrapping a valid expression in parentheses does
//! not change its value.
//!
//! The proof has three layers.  Progress lemmas show that every successful
//! parse consumes at least one token and stays inside the stream.
//! Congruence lemmas show that a parse depends only on the token kinds it
//! reads: a stream that agrees on the consumed region and ends the region
//! with any closing token (`End` or `)`) parses to the same tree, shifted.
//! Tokenizer lemmas relate the token streams of `E` and `(E)`.

use vstd::prelude::*;
use crate::ast::{ArgsV, BinOp, ExprV};
use crate::error::ParseError;
use crate::parser::{
    p_addsub, p_addsub_tail, p_args, p_args_items, p_atom, p_expr, p_muldiv, p_muldiv_tail,
    p_power, p_top, p_unary,
};
use crate::token::{
    acc_dec, digits_end, ident_end, is_alpha, is_digit, is_space, lemma_digits_end_bounds,
    lemma_ident_end_bounds, lex, scan_exp, scan_num, TokKindV, TokView,
};

verus! {

proof fn prog_expr(ts: Seq<TokView>, i: int)
    requires
        0 <= i <= ts.len(),
    ensures
        p_expr(ts, i) matches Ok((e, j)) ==> i < j <= ts.len(),
    decreases ts.len() - i, 9int,
{
    prog_addsub(ts, i);
}

proof fn prog_addsub(ts: Seq<TokView>, i: int)
    requires
        0 <= i <= ts.len(),
    ensures
        p_addsub(ts, i) matches Ok((e, j)) ==> i < j <= ts.len(),
    decreases ts.len() - i, 8int,
{
    prog_muldiv(ts, i);
    match p_muldiv(ts, i) {
        Ok((e0, j0)) => {
            prog_addsub_tail(ts, e0, j0);
        },
        Err(_) => {},
    }
}

proof fn prog_addsub_tail(ts: Seq<TokView>, acc: ExprV, j0: int)
    requires
        0 <= j0 <= ts.len(),
    ensures
        p_addsub_tail(ts, acc, j0) matches Ok((e, j)) ==> j0 <= j <= ts.len(),
    decreases ts.len() - j0, 8int,
{
    if 0 <= j0 < ts.len() && (ts[j0].kind is Plus || ts[j0].kind is Minus) {
        let op = if ts[j0].kind is Plus {
            BinOp::Add
        } else {
            BinOp::Sub
        };
        prog_muldiv(ts, j0 + 1);
        match p_muldiv(ts, j0 + 1) {
            Ok((r, k)) => {
                prog_addsub_tail(ts, ExprV::Bin(op, Box::new(acc), Box::new(r)), k);
            },
            Err(_) => {},
        }
    }
}

proof fn prog_muldiv(ts: Seq<TokView>, i: int)
    requires
        0 <= i <= ts.len(),
    ensures
        p_muldiv(ts, i) matches Ok((e, j)) ==> i < j <= ts.len(),
    decreases ts.len() - i, 7int,
{
    prog_unary(ts, i);
    match p_unary(ts, i) {
        Ok((e0, j0)) => {
            prog_muldiv_tail(ts, e0, j0);
        },
        Err(_) => {},
    }
}

proof fn prog_muldiv_tail(ts: Seq<TokView>, acc: ExprV, j0: int)
    requires
        0 <= j0 <= ts.len(),
    ensures
        p_muldiv_tail(ts, acc, j0) matches Ok((e, j)) ==> j0 <= j <= ts.len(),
    decreases ts.len() - j0, 7int,
{
    if 0 <= j0 < ts.len() && (ts[j0].kind is Star || ts[j0].kind is Slash || ts[j0].kind
        is Percent) {
        let op = if ts[j0].kind is Star {
            BinOp::Mul
        } else if ts[j0].kind is Slash {
            BinOp::Div
        } else {
            BinOp::Mod
        };
        prog_unary(ts, j0 + 1);
        match p_unary(ts, j0 + 1) {
            Ok((r, k)) => {
                prog_muldiv_tail(ts, ExprV::Bin(op, Box::new(acc), Box::new(r)), k);
            },
            Err(_) => {},
        }
    }
}

proof fn prog_unary(ts: Seq<TokView>, i: int)
    requires
        0 <= i <= ts.len(),
    ensures
        p_unary(ts, i) matches Ok((e, j)) ==> i < j <= ts.len(),
    decreases ts.len() - i, 6int,
{
    if 0 <= i < ts.len() && (ts[i].kind is Minus || ts[i].kind is Plus) {
        prog_unary(ts, i + 1);
    } else {
        prog_power(ts, i);
    }
}

proof fn prog_power(ts: Seq<TokView>, i: int)
    requires
        0 <= i <= ts.len(),
    ensures
        p_power(ts, i) matches Ok((e, j)) ==> i < j <= ts.len(),
    decreases ts.len() - i, 5int,
{
    prog_atom(ts, i);
    match p_atom(ts, i) {
        Ok((b, j0)) => {
            if i < j0 && j0 < ts.len() && ts[j0].kind is Pow {
                prog_unary(ts, j0 + 1);
            }
        },
        Err(_) => {},
    }
}

proof fn prog_atom(ts: Seq<TokView>, i: int)
    requires
        0 <= i <= ts.len(),
    ensures
        p_atom(ts, i) matches Ok((e, j)) ==> i < j <= ts.len(),
    decreases ts.len() - i, 0int,
{
    if 0 <= i < ts.len() {
        match ts[i].kind {
            TokKindV::Ident(_) => {
                if i + 1 < ts.len() && ts[i + 1].kind is LParen {
                    prog_args(ts, i + 2);
                }
            },
            TokKindV::LParen => {
                prog_expr(ts, i + 1);
            },
            _ => {},
        }
    }
}

proof fn prog_args(ts: Seq<TokView>, i: int)
    requires
        0 <= i <= ts.len(),
    ensures
        p_args(ts, i) matches Ok((a, k)) ==> i < k <= ts.len(),
    decreases ts.len() - i, 12int,
{
    if !(0 <= i < ts.len() && ts[i].kind is RParen) {
        prog_args_items(ts, i);
    }
}

proof fn prog_args_items(ts: Seq<TokView>, i: int)
    requires
        0 <= i <= ts.len(),
    ensures
        p_args_items(ts, i) matches Ok((a, k)) ==> i < k <= ts.len(),
    decreases ts.len() - i, 10int,
{
    prog_expr(ts, i);
    match p_expr(ts, i) {
        Ok((a, j)) => {
            if i < j && j <= ts.len() {
                if j < ts.len() && ts[j].kind is Comma {
                    prog_args_items(ts, j + 1);
                }
            }
        },
        Err(_) => {},
    }
}

/// The streams agree in kind on the region `[lo, hi)` of `ts1`, shifted by
/// `d` in `ts2`.
pub open spec fn kinds_eq(ts1: Seq<TokView>, ts2: Seq<TokView>, d: int, lo: int, hi: int) -> bool {
    forall|m: int| lo <= m < hi ==> (#[trigger] ts1[m]).kind == ts2[m + d].kind
}

/// A token kind that never continues nor starts anything: the parse stops on
/// it at every level.
pub open spec fn stopper(k: TokKindV) -> bool {
    k is End || k is RParen
}

/// At position `j` the streams either agree in kind, or both hold a stopper.
pub open spec fn stop_w(ts1: Seq<TokView>, ts2: Seq<TokView>, d: int, j: int) -> bool {
    0 <= j < ts1.len() && 0 <= j + d < ts2.len() && (ts1[j].kind == ts2[j + d].kind || (stopper(
        ts1[j].kind,
    ) && stopper(ts2[j + d].kind)))
}

proof fn cong_expr(ts1: Seq<TokView>, ts2: Seq<TokView>, d: int, i: int, e: ExprV, j: int)
    requires
        0 <= i <= ts1.len(),
        0 <= i + d,
        p_expr(ts1, i) == Ok::<(ExprV, int), ParseError>((e, j)),
        kinds_eq(ts1, ts2, d, i, j),
        stop_w(ts1, ts2, d, j),
    ensures
        p_expr(ts2, i + d) == Ok::<(ExprV, int), ParseError>((e, j + d)),
    decreases ts1.len() - i, 9int,
{
    cong_addsub(ts1, ts2, d, i, e, j);
}

proof fn cong_addsub(ts1: Seq<TokView>, ts2: Seq<TokView>, d: int, i: int, e: ExprV, j: int)
    requires
        0 <= i <= ts1.len(),
        0 <= i + d,
        p_addsub(ts1, i) == Ok::<(ExprV, int), ParseError>((e, j)),
        kinds_eq(ts1, ts2, d, i, j),
        stop_w(ts1, ts2, d, j),
    ensures
        p_addsub(ts2, i + d) == Ok::<(ExprV, int), ParseError>((e, j + d)),
    decreases ts1.len() - i, 8int,
{
    prog_muldiv(ts1, i);
    match p_muldiv(ts1, i) {
        Ok((e0, j0)) => {
            prog_addsub_tail(ts1, e0, j0);
            cong_muldiv(ts1, ts2, d, i, e0, j0);
            cong_addsub_tail(ts1, ts2, d, e0, j0, e, j);
        },
        Err(_) => {
            assert(false);
        },
    }
}

proof fn cong_addsub_tail(
    ts1: Seq<TokView>,
    ts2: Seq<TokView>,
    d: int,
    acc: ExprV,
    j0: int,
    e: ExprV,
    j: int,
)
    requires
        0 <= j0 <= ts1.len(),
        0 <= j0 + d,
        p_addsub_tail(ts1, acc, j0) == Ok::<(ExprV, int), ParseError>((e, j)),
        kinds_eq(ts1, ts2, d, j0, j),
        stop_w(ts1, ts2, d, j),
    ensures
        p_addsub_tail(ts2, acc, j0 + d) == Ok::<(ExprV, int), ParseError>((e, j + d)),
    decreases ts1.len() - j0, 8int,
{
    prog_addsub_tail(ts1, acc, j0);
    if 0 <= j0 < ts1.len() && (ts1[j0].kind is Plus || ts1[j0].kind is Minus) {
        let op = if ts1[j0].kind is Plus {
            BinOp::Add
        } else {
            BinOp::Sub
        };
        prog_muldiv(ts1, j0 + 1);
        match p_muldiv(ts1, j0 + 1) {
            Ok((r, k)) => {
                let acc2 = ExprV::Bin(op, Box::new(acc), Box::new(r));
                prog_addsub_tail(ts1, acc2, k);
                assert(ts1[j0].kind == ts2[j0 + d].kind);
                cong_muldiv(ts1, ts2, d, j0 + 1, r, k);
                cong_addsub_tail(ts1, ts2, d, acc2, k, e, j);
            },
            Err(_) => {
                assert(false);
            },
        }
    }
}

proof fn cong_muldiv(ts1: Seq<TokView>, ts2: Seq<TokView>, d: int, i: int, e: ExprV, j: int)
    requires
        0 <= i <= ts1.len(),
        0 <= i + d,
        p_muldiv(ts1, i) == Ok::<(ExprV, int), ParseError>((e, j)),
        kinds_eq(ts1, ts2, d, i, j),
        stop_w(ts1, ts2, d, j),
    ensures
        p_muldiv(ts2, i + d) == Ok::<(ExprV, int), ParseError>((e, j + d)),
    decreases ts1.len() - i, 7int,
{
    prog_unary(ts1, i);
    match p_unary(ts1, i) {
        Ok((e0, j0)) => {
            prog_muldiv_tail(ts1, e0, j0);
            cong_unary(ts1, ts2, d, i, e0, j0);
            cong_muldiv_tail(ts1, ts2, d, e0, j0, e, j);
        },
        Err(_) => {
            assert(false);
        },
    }
}

proof fn cong_muldiv_tail(
    ts1: Seq<TokView>,
    ts2: Seq<TokView>,
    d: int,
    acc: ExprV,
    j0: int,
    e: ExprV,
    j: int,
)
    requires
        0 <= j0 <= ts1.len(),
        0 <= j0 + d,
        p_muldiv_tail(ts1, acc, j0) == Ok::<(ExprV, int), ParseError>((e, j)),
        kinds_eq(ts1, ts2, d, j0, j),
        stop_w(ts1, ts2, d, j),
    ensures
        p_muldiv_tail(ts2, acc, j0 + d) == Ok::<(ExprV, int), ParseError>((e, j + d)),
    decreases ts1.len() - j0, 7int,
{
    prog_muldiv_tail(ts1, acc, j0);
    if 0 <= j0 < ts1.len() && (ts1[j0].kind is Star || ts1[j0].kind is Slash || ts1[j0].kind
        is Percent) {
        let op = if ts1[j0].kind is Star {
            BinOp::Mul
        } else if ts1[j0].kind is Slash {
            BinOp::Div
        } else {
            BinOp::Mod
        };
        prog_unary(ts1, j0 + 1);
        match p_unary(ts1, j0 + 1) {
            Ok((r, k)) => {
                let acc2 = ExprV::Bin(op, Box::new(acc), Box::new(r));
                prog_muldiv_tail(ts1, acc2, k);
                assert(ts1[j0].kind == ts2[j0 + d].kind);
                cong_unary(ts1, ts2, d, j0 + 1, r, k);
                cong_muldiv_tail(ts1, ts2, d, acc2, k, e, j);
            },
            Err(_) => {
                assert(false);
            },
        }
    }
}

proof fn cong_unary(ts1: Seq<TokView>, ts2: Seq<TokView>, d: int, i: int, e: ExprV, j: int)
    requires
        0 <= i <= ts1.len(),
        0 <= i + d,
        p_unary(ts1, i) == Ok::<(ExprV, int), ParseError>((e, j)),
        kinds_eq(ts1, ts2, d, i, j),
        stop_w(ts1, ts2, d, j),
    ensures
        p_unary(ts2, i + d) == Ok::<(ExprV, int), ParseError>((e, j + d)),
    decreases ts1.len() - i, 6int,
{
    prog_unary(ts1, i);
    if 0 <= i < ts1.len() && ts1[i].kind is Minus {
        prog_unary(ts1, i + 1);
        match p_unary(ts1, i + 1) {
            Ok((e0, j0)) => {
                cong_unary(ts1, ts2, d, i + 1, e0, j0);
            },
            Err(_) => {
                assert(false);
            },
        }
    } else if 0 <= i < ts1.len() && ts1[i].kind is Plus {
        cong_unary(ts1, ts2, d, i + 1, e, j);
    } else {
        cong_power(ts1, ts2, d, i, e, j);
    }
}

proof fn cong_power(ts1: Seq<TokView>, ts2: Seq<TokView>, d: int, i: int, e: ExprV, j: int)
    requires
        0 <= i <= ts1.len(),
        0 <= i + d,
        p_power(ts1, i) == Ok::<(ExprV, int), ParseError>((e, j)),
        kinds_eq(ts1, ts2, d, i, j),
        stop_w(ts1, ts2, d, j),
    ensures
        p_power(ts2, i + d) == Ok::<(ExprV, int), ParseError>((e, j + d)),
    decreases ts1.len() - i, 5int,
{
    prog_atom(ts1, i);
    match p_atom(ts1, i) {
        Ok((b, j0)) => {
            if i < j0 && j0 < ts1.len() && ts1[j0].kind is Pow {
                prog_unary(ts1, j0 + 1);
                match p_unary(ts1, j0 + 1) {
                    Ok((r, k)) => {
                        assert(ts1[j0].kind == ts2[j0 + d].kind);
                        cong_atom(ts1, ts2, d, i, b, j0);
                        cong_unary(ts1, ts2, d, j0 + 1, r, k);
                    },
                    Err(_) => {
                        assert(false);
                    },
                }
            } else {
                cong_atom(ts1, ts2, d, i, b, j0);
            }
        },
        Err(_) => {
            assert(false);
        },
    }
}

#[verifier::rlimit(60)]
proof fn cong_atom(ts1: Seq<TokView>, ts2: Seq<TokView>, d: int, i: int, e: ExprV, j: int)
    requires
        0 <= i <= ts1.len(),
        0 <= i + d,
        p_atom(ts1, i) == Ok::<(ExprV, int), ParseError>((e, j)),
        kinds_eq(ts1, ts2, d, i, j),
        stop_w(ts1, ts2, d, j),
    ensures
        p_atom(ts2, i + d) == Ok::<(ExprV, int), ParseError>((e, j + d)),
    decreases ts1.len() - i, 0int,
{
    prog_atom(ts1, i);
    match ts1[i].kind {
        TokKindV::Num(_) => {
            assert(ts1[i].kind == ts2[i + d].kind);
        },
        TokKindV::Ident(_) => {
            assert(ts1[i].kind == ts2[i + d].kind);
            if i + 1 < ts1.len() && ts1[i + 1].kind is LParen {
                prog_args(ts1, i + 2);
                match p_args(ts1, i + 2) {
                    Ok((args, k)) => {
                        assert(ts1[i + 1].kind == ts2[i + 1 + d].kind);
                        cong_args(ts1, ts2, d, i + 2, args, k);
                    },
                    Err(_) => {
                        assert(false);
                    },
                }
            } else {
                // the decision position i + 1 equals j: covered by stop_w
                assert(j == i + 1);
            }
        },
        TokKindV::LParen => {
            assert(ts1[i].kind == ts2[i + d].kind);
            prog_expr(ts1, i + 1);
            match p_expr(ts1, i + 1) {
                Ok((e0, j0)) => {
                    assert(ts1[j0].kind == ts2[j0 + d].kind);
                    cong_expr(ts1, ts2, d, i + 1, e0, j0);
                },
                Err(_) => {
                    assert(false);
                },
            }
        },
        _ => {
            assert(false);
        },
    }
}

proof fn cong_args(ts1: Seq<TokView>, ts2: Seq<TokView>, d: int, i: int, a: ArgsV, k: int)
    requires
        0 <= i <= ts1.len(),
        0 <= i + d,
        p_args(ts1, i) == Ok::<(ArgsV, int), ParseError>((a, k)),
        kinds_eq(ts1, ts2, d, i, k),
        stop_w(ts1, ts2, d, k),
    ensures
        p_args(ts2, i + d) == Ok::<(ArgsV, int), ParseError>((a, k + d)),
    decreases ts1.len() - i, 12int,
{
    prog_args(ts1, i);
    if 0 <= i < ts1.len() && ts1[i].kind is RParen {
        assert(ts1[i].kind == ts2[i + d].kind);
    } else {
        prog_args_items(ts1, i);
        assert(ts1[i].kind == ts2[i + d].kind);
        cong_args_items(ts1, ts2, d, i, a, k);
    }
}

proof fn cong_args_items(ts1: Seq<TokView>, ts2: Seq<TokView>, d: int, i: int, a: ArgsV, k: int)
    requires
        0 <= i <= ts1.len(),
        0 <= i + d,
        p_args_items(ts1, i) == Ok::<(ArgsV, int), ParseError>((a, k)),
        kinds_eq(ts1, ts2, d, i, k),
        stop_w(ts1, ts2, d, k),
    ensures
        p_args_items(ts2, i + d) == Ok::<(ArgsV, int), ParseError>((a, k + d)),
    decreases ts1.len() - i, 10int,
{
    prog_expr(ts1, i);
    match p_expr(ts1, i) {
        Ok((a0, j)) => {
            if j < ts1.len() && ts1[j].kind is Comma {
                prog_args_items(ts1, j + 1);
                assert(ts1[j].kind == ts2[j + d].kind);
                cong_expr(ts1, ts2, d, i, a0, j);
                match p_args_items(ts1, j + 1) {
                    Ok((rest, k2)) => {
                        cong_args_items(ts1, ts2, d, j + 1, rest, k2);
                    },
                    Err(_) => {
                        assert(false);
                    },
                }
            } else if j < ts1.len() && ts1[j].kind is RParen {
                assert(ts1[j].kind == ts2[j + d].kind);
                cong_expr(ts1, ts2, d, i, a0, j);
            } else {
                assert(false);
            }
        },
        Err(_) => {
            assert(false);
        },
    }
}


/// A well-shaped token stream: nonempty, `End` last and only last.
pub open spec fn ends_ok(ts: Seq<TokView>) -> bool {
    ts.len() >= 1 && ts.last().kind is End && (forall|m: int|
        0 <= m < ts.len() - 1 ==> !((#[trigger] ts[m]).kind is End))
}

proof fn cons_ends(t: TokView, rest: Result<Seq<TokView>, crate::error::LexError>)
    requires
        !(t.kind is End),
        rest matches Ok(ts) ==> ends_ok(ts),
    ensures
        crate::token::lex_cons(t, rest) matches Ok(ts2) ==> ends_ok(ts2),
{
    match rest {
        Ok(ts) => {
            let ts2 = seq![t] + ts;
            assert(ts2.last() == ts.last());
            assert forall|m: int| 0 <= m < ts2.len() - 1 implies !((#[trigger] ts2[m]).kind
                is End) by {
                if m >= 1 {
                    assert(ts2[m] == ts[m - 1]);
                } else {
                    assert(ts2[0] == t);
                }
            }
        },
        Err(_) => {},
    }
}

proof fn lex_ends(s: Seq<u8>, i: int)
    requires
        0 <= i <= s.len(),
    ensures
        lex(s, i) matches Ok(ts) ==> ends_ok(ts),
    decreases s.len() - i,
{
    if i < s.len() {
        let c = s[i];
        if is_space(c) {
            lex_ends(s, i + 1);
        } else if is_digit(c) {
            match scan_num(s, i) {
                Ok((v, j)) => {
                    if i < j && j <= s.len() {
                        lex_ends(s, j);
                        cons_ends(
                            TokView { kind: TokKindV::Num(v), pos: i as usize },
                            lex(s, j),
                        );
                    }
                },
                Err(_) => {},
            }
        } else if is_alpha(c) {
            let j = ident_end(s, i);
            if i < j && j <= s.len() {
                lex_ends(s, j);
                cons_ends(
                    TokView { kind: TokKindV::Ident(s.subrange(i, j)), pos: i as usize },
                    lex(s, j),
                );
            }
        } else if c == 42 {
            if i + 1 < s.len() && s[i + 1] == 42 {
                lex_ends(s, i + 2);
                cons_ends(TokView { kind: TokKindV::Pow, pos: i as usize }, lex(s, i + 2));
            } else {
                lex_ends(s, i + 1);
                cons_ends(TokView { kind: TokKindV::Star, pos: i as usize }, lex(s, i + 1));
            }
        } else if c == 43 || c == 45 || c == 47 || c == 37 || c == 40 || c == 41 || c == 44 {
            lex_ends(s, i + 1);
            let k = if c == 43 {
                TokKindV::Plus
            } else if c == 45 {
                TokKindV::Minus
            } else if c == 47 {
                TokKindV::Slash
            } else if c == 37 {
                TokKindV::Percent
            } else if c == 40 {
                TokKindV::LParen
            } else if c == 41 {
                TokKindV::RParen
            } else {
                TokKindV::Comma
            };
            cons_ends(TokView { kind: k, pos: i as usize }, lex(s, i + 1));
        }
    }
}

proof fn digits_end_app(s: Seq<u8>, i: int)
    requires
        0 <= i <= s.len(),
    ensures
        digits_end(s.push(41u8), i) == digits_end(s, i),
    decreases s.len() - i,
{
    if i < s.len() && is_digit(s[i]) {
        digits_end_app(s, i + 1);
    }
}

proof fn ident_end_app(s: Seq<u8>, i: int)
    requires
        0 <= i <= s.len(),
    ensures
        ident_end(s.push(41u8), i) == ident_end(s, i),
    decreases s.len() - i,
{
    if i < s.len() && crate::token::is_ident_ch(s[i]) {
        ident_end_app(s, i + 1);
    }
}

proof fn acc_app(s: Seq<u8>, i: int, j: int, a: int)
    requires
        j <= s.len(),
    ensures
        acc_dec(s.push(41u8), i, j, a) == acc_dec(s, i, j, a),
    decreases j - i,
{
    if 0 <= i && i < j {
        acc_app(s, i + 1, j, a * 10 + (s[i] - 48));
    }
}

proof fn scan_exp_app(s: Seq<u8>, start: int, mant: int, fr: int, p: int)
    requires
        0 <= p <= s.len(),
    ensures
        scan_exp(s.push(41u8), start, mant, fr, p) == scan_exp(s, start, mant, fr, p),
{
    let s2 = s.push(41u8);
    if p < s.len() && (s[p] == 101 || s[p] == 69) {
        let q0: int = if p + 1 < s.len() && (s[p + 1] == 45 || s[p + 1] == 43) {
            p + 2
        } else {
            p + 1
        };
        lemma_digits_end_bounds(s, q0);
        digits_end_app(s, q0);
        acc_app(s, q0, digits_end(s, q0), 0);
    }
}

proof fn scan_app(s: Seq<u8>, i: int)
    requires
        0 <= i < s.len(),
        is_digit(s[i]),
    ensures
        scan_num(s.push(41u8), i) == scan_num(s, i),
{
    let s2 = s.push(41u8);
    lemma_digits_end_bounds(s, i);
    digits_end_app(s, i);
    let j1 = digits_end(s, i);
    acc_app(s, i, j1, 0);
    if j1 < s.len() && s[j1] == 46 {
        lemma_digits_end_bounds(s, j1 + 1);
        digits_end_app(s, j1 + 1);
        let j2 = digits_end(s, j1 + 1);
        acc_app(s, j1 + 1, j2, acc_dec(s, i, j1, 0));
        if j2 != j1 + 1 {
            scan_exp_app(s, i, acc_dec(s, j1 + 1, j2, acc_dec(s, i, j1, 0)), j2 - (j1 + 1), j2);
        }
    } else {
        scan_exp_app(s, i, acc_dec(s, i, j1, 0), 0, j1);
    }
}

/// The two extra tokens that closing the input with `)` appends.
pub open spec fn app_tail(s: Seq<u8>) -> Seq<TokView> {
    seq![
        TokView { kind: TokKindV::RParen, pos: s.len() as usize },
        TokView { kind: TokKindV::End, pos: (s.len() + 1) as usize },
    ]
}

proof fn lex_app_end(s: Seq<u8>, i: int)
    requires
        0 <= i <= s.len(),
    ensures
        lex(s, i) matches Ok(ts) ==> lex(s.push(41u8), i) == Ok::<
            Seq<TokView>,
            crate::error::LexError,
        >(ts.drop_last() + app_tail(s)),
    decreases s.len() - i,
{
    let s2 = s.push(41u8);
    if i == s.len() {
        let ts = seq![TokView { kind: TokKindV::End, pos: i as usize }];
        assert(lex(s2, i) == crate::token::lex_cons(
            TokView { kind: TokKindV::RParen, pos: i as usize },
            lex(s2, i + 1),
        ));
        assert(lex(s2, i + 1) == Ok::<Seq<TokView>, crate::error::LexError>(
            seq![TokView { kind: TokKindV::End, pos: (i + 1) as usize }],
        ));
        assert(seq![TokView { kind: TokKindV::RParen, pos: i as usize }] + seq![
            TokView { kind: TokKindV::End, pos: (i + 1) as usize },
        ] =~= ts.drop_last() + app_tail(s));
    } else {
        match lex(s, i) {
            Ok(_) => {
                let c = s[i];
                if is_space(c) {
                    lex_app_end(s, i + 1);
                } else if is_digit(c) {
                    scan_app(s, i);
                    match scan_num(s, i) {
                        Ok((v, j)) => {
                            if i < j && j <= s.len() {
                                lex_app_end(s, j);
                                lex_ends(s, j);
                                step_app(
                                    TokView { kind: TokKindV::Num(v), pos: i as usize },
                                    lex(s, j),
                                    lex(s2, j),
                                    s,
                                );
                            }
                        },
                        Err(_) => {},
                    }
                } else if is_alpha(c) {
                    lemma_ident_end_bounds(s, i);
                    ident_end_app(s, i);
                    let j = ident_end(s, i);
                    if i < j && j <= s.len() {
                        assert(s2.subrange(i, j) =~= s.subrange(i, j));
                        lex_app_end(s, j);
                        lex_ends(s, j);
                        step_app(
                            TokView { kind: TokKindV::Ident(s.subrange(i, j)), pos: i as usize },
                            lex(s, j),
                            lex(s2, j),
                            s,
                        );
                    }
                } else if c == 42 {
                    if i + 1 < s.len() && s[i + 1] == 42 {
                        lex_app_end(s, i + 2);
                        lex_ends(s, i + 2);
                        step_app(
                            TokView { kind: TokKindV::Pow, pos: i as usize },
                            lex(s, i + 2),
                            lex(s2, i + 2),
                            s,
                        );
                    } else {
                        lex_app_end(s, i + 1);
                        lex_ends(s, i + 1);
                        step_app(
                            TokView { kind: TokKindV::Star, pos: i as usize },
                            lex(s, i + 1),
                            lex(s2, i + 1),
                            s,
                        );
                    }
                } else if c == 43 || c == 45 || c == 47 || c == 37 || c == 40 || c == 41 || c
                    == 44 {
                    lex_app_end(s, i + 1);
                    lex_ends(s, i + 1);
                    let k = if c == 43 {
                        TokKindV::Plus
                    } else if c == 45 {
                        TokKindV::Minus
                    } else if c == 47 {
                        TokKindV::Slash
                    } else if c == 37 {
                        TokKindV::Percent
                    } else if c == 40 {
                        TokKindV::LParen
                    } else if c == 41 {
                        TokKindV::RParen
                    } else {
                        TokKindV::Comma
                    };
                    step_app(TokView { kind: k, pos: i as usize }, lex(s, i + 1), lex(s2, i + 1), s);
                }
            },
            Err(_) => {},
        }
    }
}

proof fn step_app(
    t: TokView,
    rest1: Result<Seq<TokView>, crate::error::LexError>,
    rest2: Result<Seq<TokView>, crate::error::LexError>,
    s: Seq<u8>,
)
    requires
        rest1 matches Ok(ts) ==> ends_ok(ts) && rest2 == Ok::<Seq<TokView>, crate::error::LexError>(
            ts.drop_last() + app_tail(s),
        ),
    ensures
        crate::token::lex_cons(t, rest1) matches Ok(all) ==> crate::token::lex_cons(t, rest2)
            == Ok::<Seq<TokView>, crate::error::LexError>(all.drop_last() + app_tail(s)),
{
    match rest1 {
        Ok(ts) => {
            assert((seq![t] + ts).drop_last() + app_tail(s) =~= seq![t] + (ts.drop_last()
                + app_tail(s)));
        },
        Err(_) => {},
    }
}


/// The same tokens, each one byte later.
pub open spec fn shift1(ts: Seq<TokView>) -> Seq<TokView> {
    ts.map_values(|tok: TokView| TokView { kind: tok.kind, pos: (tok.pos + 1) as usize })
}

proof fn digits_end_shift(t: Seq<u8>, i: int)
    requires
        0 <= i <= t.len(),
    ensures
        digits_end(seq![40u8] + t, i + 1) == digits_end(t, i) + 1,
    decreases t.len() - i,
{
    if i < t.len() && is_digit(t[i]) {
        digits_end_shift(t, i + 1);
    }
}

proof fn ident_end_shift(t: Seq<u8>, i: int)
    requires
        0 <= i <= t.len(),
    ensures
        ident_end(seq![40u8] + t, i + 1) == ident_end(t, i) + 1,
    decreases t.len() - i,
{
    if i < t.len() && crate::token::is_ident_ch(t[i]) {
        ident_end_shift(t, i + 1);
    }
}

proof fn acc_shift(t: Seq<u8>, i: int, j: int, a: int)
    requires
        0 <= i,
        j <= t.len(),
    ensures
        acc_dec(seq![40u8] + t, i + 1, j + 1, a) == acc_dec(t, i, j, a),
    decreases j - i,
{
    if i < j {
        acc_shift(t, i + 1, j, a * 10 + (t[i] - 48));
    }
}

proof fn scan_exp_shift(t: Seq<u8>, start: int, mant: int, fr: int, p: int)
    requires
        0 <= p <= t.len(),
    ensures
        match scan_exp(t, start, mant, fr, p) {
            Ok((v, j)) => scan_exp(seq![40u8] + t, start + 1, mant, fr, p + 1) == Ok::<
                (crate::num::Rat, int),
                crate::error::LexError,
            >((v, j + 1)),
            Err(_) => true,
        },
{
    if p < t.len() && (t[p] == 101 || t[p] == 69) {
        let q0: int = if p + 1 < t.len() && (t[p + 1] == 45 || t[p + 1] == 43) {
            p + 2
        } else {
            p + 1
        };
        lemma_digits_end_bounds(t, q0);
        digits_end_shift(t, q0);
        acc_shift(t, q0, digits_end(t, q0), 0);
    }
}

proof fn scan_shift(t: Seq<u8>, i: int)
    requires
        0 <= i < t.len(),
        is_digit(t[i]),
    ensures
        match scan_num(t, i) {
            Ok((v, j)) => scan_num(seq![40u8] + t, i + 1) == Ok::<
                (crate::num::Rat, int),
                crate::error::LexError,
            >((v, j + 1)),
            Err(_) => true,
        },
{
    lemma_digits_end_bounds(t, i);
    digits_end_shift(t, i);
    let j1 = digits_end(t, i);
    acc_shift(t, i, j1, 0);
    if j1 < t.len() && t[j1] == 46 {
        lemma_digits_end_bounds(t, j1 + 1);
        digits_end_shift(t, j1 + 1);
        let j2 = digits_end(t, j1 + 1);
        acc_shift(t, j1 + 1, j2, acc_dec(t, i, j1, 0));
        if j2 != j1 + 1 {
            scan_exp_shift(t, i, acc_dec(t, j1 + 1, j2, acc_dec(t, i, j1, 0)), j2 - (j1 + 1), j2);
        }
    } else {
        scan_exp_shift(t, i, acc_dec(t, i, j1, 0), 0, j1);
    }
}

proof fn step_shift(
    tk: TokView,
    rest1: Result<Seq<TokView>, crate::error::LexError>,
    rest2: Result<Seq<TokView>, crate::error::LexError>,
)
    requires
        rest1 matches Ok(ts) ==> rest2 == Ok::<Seq<TokView>, crate::error::LexError>(shift1(ts)),
    ensures
        crate::token::lex_cons(tk, rest1) matches Ok(all) ==> crate::token::lex_cons(
            TokView { kind: tk.kind, pos: (tk.pos + 1) as usize },
            rest2,
        ) == Ok::<Seq<TokView>, crate::error::LexError>(shift1(all)),
{
    match rest1 {
        Ok(ts) => {
            assert(shift1(seq![tk] + ts) =~= seq![
                TokView { kind: tk.kind, pos: (tk.pos + 1) as usize },
            ] + shift1(ts));
        },
        Err(_) => {},
    }
}

#[verifier::rlimit(100)]
proof fn lex_shift(t: Seq<u8>, i: int)
    requires
        0 <= i <= t.len(),
        t.len() < usize::MAX,
    ensures
        match lex(t, i) {
            Ok(ts) => lex(seq![40u8] + t, i + 1) == Ok::<Seq<TokView>, crate::error::LexError>(
                shift1(ts),
            ),
            Err(_) => true,
        },
    decreases t.len() - i,
{
    let s1 = seq![40u8] + t;
    if i == t.len() {
        assert(shift1(seq![TokView { kind: TokKindV::End, pos: i as usize }]) =~= seq![
            TokView { kind: TokKindV::End, pos: (i + 1) as usize },
        ]);
    } else {
        match lex(t, i) {
            Ok(_) => {
                let c = t[i];
                assert(s1[i + 1] == c);
                if is_space(c) {
                    lex_shift(t, i + 1);
                } else if is_digit(c) {
                    scan_shift(t, i);
                    match scan_num(t, i) {
                        Ok((v, j)) => {
                            if i < j && j <= t.len() {
                                lex_shift(t, j);
                                step_shift(
                                    TokView { kind: TokKindV::Num(v), pos: i as usize },
                                    lex(t, j),
                                    lex(s1, j + 1),
                                );
                            }
                        },
                        Err(_) => {},
                    }
                } else if is_alpha(c) {
                    lemma_ident_end_bounds(t, i);
                    ident_end_shift(t, i);
                    let j = ident_end(t, i);
                    if i < j && j <= t.len() {
                        assert(s1.subrange(i + 1, j + 1) =~= t.subrange(i, j));
                        lex_shift(t, j);
                        step_shift(
                            TokView { kind: TokKindV::Ident(t.subrange(i, j)), pos: i as usize },
                            lex(t, j),
                            lex(s1, j + 1),
                        );
                    }
                } else if c == 42 {
                    if i + 1 < t.len() && t[i + 1] == 42 {
                        assert(s1[i + 2] == t[i + 1]);
                        lex_shift(t, i + 2);
                        step_shift(
                            TokView { kind: TokKindV::Pow, pos: i as usize },
                            lex(t, i + 2),
                            lex(s1, i + 3),
                        );
                    } else {
                        if i + 2 < s1.len() {
                            assert(s1[i + 2] == t[i + 1]);
                        }
                        lex_shift(t, i + 1);
                        step_shift(
                            TokView { kind: TokKindV::Star, pos: i as usize },
                            lex(t, i + 1),
                            lex(s1, i + 2),
                        );
                    }
                } else if c == 43 || c == 45 || c == 47 || c == 37 || c == 40 || c == 41 || c
                    == 44 {
                    lex_shift(t, i + 1);
                    let k = if c == 43 {
                        TokKindV::Plus
                    } else if c == 45 {
                        TokKindV::Minus
                    } else if c == 47 {
                        TokKindV::Slash
                    } else if c == 37 {
                        TokKindV::Percent
                    } else if c == 40 {
                        TokKindV::LParen
                    } else if c == 41 {
                        TokKindV::RParen
                    } else {
                        TokKindV::Comma
                    };
                    step_shift(
                        TokView { kind: k, pos: i as usize },
                        lex(t, i + 1),
                        lex(s1, i + 2),
                    );
                }
            },
            Err(_) => {},
        }
    }
}

/// Parenthesization round trip: wrapping a valid expression in parentheses
/// evaluates to exactly the same outcome, against any context.  Valid means
/// the input tokenizes and parses; the length bound is the machine limit on
/// byte positions.
#[verifier::rlimit(100)]
pub proof fn lemma_paren_round_trip(s: Seq<u8>, ctx: crate::eval::CtxView)
    requires
        s.len() + 2 < usize::MAX,
        crate::token::lex(s, 0) matches Ok(ts) && p_top(ts) is Ok,
    ensures
        crate::spec_evaluate(seq![40u8] + s + seq![41u8], ctx) == crate::spec_evaluate(s, ctx),
{
    let wrap = seq![40u8] + s + seq![41u8];
    let s2 = s.push(41u8);
    assert(wrap =~= seq![40u8] + s2);
    match lex(s, 0) {
        Ok(ts) => {
            lex_ends(s, 0);
            lex_app_end(s, 0);
            let tsa = ts.drop_last() + app_tail(s);
            lex_shift(s2, 0);
            let lp = TokView { kind: TokKindV::LParen, pos: 0 };
            let full = seq![lp] + shift1(tsa);
            assert(lex(wrap, 1) == Ok::<Seq<TokView>, crate::error::LexError>(shift1(tsa)));
            assert(lex(wrap, 0) == crate::token::lex_cons(lp, lex(wrap, 1)));
            assert(lex(wrap, 0) == Ok::<Seq<TokView>, crate::error::LexError>(full));
            let n1 = ts.len() as int;
            match p_expr(ts, 0) {
                Ok((e0, j0)) => {
                    prog_expr(ts, 0);
                    assert(ts[j0].kind is End);
                    assert(j0 == n1 - 1);
                    assert(full.len() == n1 + 2);
                    assert(full[0].kind is LParen);
                    assert forall|m: int| 0 <= m < n1 - 1 implies (#[trigger] ts[m]).kind
                        == full[m + 1].kind by {
                        assert(full[m + 1] == shift1(tsa)[m]);
                        assert(shift1(tsa)[m].kind == tsa[m].kind);
                        assert(tsa[m] == ts.drop_last()[m]);
                    }
                    assert(full[n1].kind is RParen) by {
                        assert(full[n1] == shift1(tsa)[n1 - 1]);
                        assert(shift1(tsa)[n1 - 1].kind == tsa[n1 - 1].kind);
                        assert(tsa[n1 - 1] == app_tail(s)[0]);
                    }
                    assert(full[n1 + 1].kind is End) by {
                        assert(full[n1 + 1] == shift1(tsa)[n1]);
                        assert(shift1(tsa)[n1].kind == tsa[n1].kind);
                        assert(tsa[n1] == app_tail(s)[1]);
                    }
                    assert(kinds_eq(ts, full, 1, 0, j0));
                    assert(stop_w(ts, full, 1, j0));
                    cong_expr(ts, full, 1, 0, e0, j0);
                    assert(p_expr(full, 1) == Ok::<(ExprV, int), ParseError>((e0, n1)));
                    assert(p_atom(full, 0) == Ok::<(ExprV, int), ParseError>((e0, n1 + 1)));
                    assert(p_power(full, 0) == Ok::<(ExprV, int), ParseError>((e0, n1 + 1)));
                    assert(p_unary(full, 0) == Ok::<(ExprV, int), ParseError>((e0, n1 + 1)));
                    assert(p_muldiv_tail(full, e0, n1 + 1) == Ok::<(ExprV, int), ParseError>(
                        (e0, n1 + 1),
                    ));
                    assert(p_muldiv(full, 0) == Ok::<(ExprV, int), ParseError>((e0, n1 + 1)));
                    assert(p_addsub_tail(full, e0, n1 + 1) == Ok::<(ExprV, int), ParseError>(
                        (e0, n1 + 1),
                    ));
                    assert(p_addsub(full, 0) == Ok::<(ExprV, int), ParseError>((e0, n1 + 1)));
                    assert(p_expr(full, 0) == Ok::<(ExprV, int), ParseError>((e0, n1 + 1)));
                    assert(p_top(full) == Ok::<ExprV, ParseError>(e0));
                    assert(p_top(ts) == Ok::<ExprV, ParseError>(e0));
                },
                Err(_) => {
                    assert(false);
                },
            }
        },
        Err(_) => {
            assert(false);
        },
    }
}

} // verus!
