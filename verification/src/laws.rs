//! Laws of the evaluator, stated and proved once and for all inputs.

use vstd::prelude::*;
use crate::error::{Error, LexError};
use crate::eval::CtxView;
use crate::num::Rat;
use crate::spec_evaluate;
use crate::token::{is_digit, lex, lex_cons, scan_num, TokKindV, TokView};

verus! {

/// A numeric literal: the whole input is one number token.  Its value is the
/// rational that `scan_num` reads from it (the number `mant * 10^ex` written
/// by the digits).
pub open spec fn is_literal(s: Seq<u8>, v: Rat) -> bool {
    s.len() > 0 && is_digit(s[0]) && scan_num(s, 0) == Ok::<(Rat, int), LexError>(
        (v, s.len() as int),
    )
}

/// Evaluating a valid numeric literal returns exactly the number it writes,
/// against any context (with a nonzero depth limit): `evaluate(L)` is
/// `parse_float(L)`.
pub proof fn lemma_literal_evaluates(s: Seq<u8>, ctx: CtxView, v: Rat)
    requires
        is_literal(s, v),
        ctx.max_depth >= 1,
    ensures
        spec_evaluate(s, ctx) == Ok::<Rat, Error>(v),
{
    let n = s.len() as int;
    let t0 = TokView { kind: TokKindV::Num(v), pos: 0 };
    let t1 = TokView { kind: TokKindV::End, pos: n as usize };
    assert(lex(s, n) == Ok::<Seq<TokView>, LexError>(seq![t1]));
    assert(lex(s, 0) == lex_cons(t0, lex(s, n)));
    let ts = seq![t0] + seq![t1];
    assert(ts =~= seq![t0, t1]);
    assert(ts.len() == 2 && ts[0] == t0 && ts[1] == t1);
    assert(crate::parser::p_atom(ts, 0) == Ok::<(crate::ast::ExprV, int), crate::error::ParseError>(
        (crate::ast::ExprV::Lit(v), 1),
    ));
    assert(crate::parser::p_power(ts, 0) == Ok::<
        (crate::ast::ExprV, int),
        crate::error::ParseError,
    >((crate::ast::ExprV::Lit(v), 1)));
    assert(crate::parser::p_unary(ts, 0) == Ok::<
        (crate::ast::ExprV, int),
        crate::error::ParseError,
    >((crate::ast::ExprV::Lit(v), 1)));
    assert(crate::parser::p_muldiv_tail(ts, crate::ast::ExprV::Lit(v), 1) == Ok::<
        (crate::ast::ExprV, int),
        crate::error::ParseError,
    >((crate::ast::ExprV::Lit(v), 1)));
    assert(crate::parser::p_muldiv(ts, 0) == Ok::<
        (crate::ast::ExprV, int),
        crate::error::ParseError,
    >((crate::ast::ExprV::Lit(v), 1)));
    assert(crate::parser::p_addsub_tail(ts, crate::ast::ExprV::Lit(v), 1) == Ok::<
        (crate::ast::ExprV, int),
        crate::error::ParseError,
    >((crate::ast::ExprV::Lit(v), 1)));
    assert(crate::parser::p_addsub(ts, 0) == Ok::<
        (crate::ast::ExprV, int),
        crate::error::ParseError,
    >((crate::ast::ExprV::Lit(v), 1)));
    assert(crate::parser::p_top(ts) == Ok::<crate::ast::ExprV, crate::error::ParseError>(
        crate::ast::ExprV::Lit(v),
    ));
    assert(crate::eval::eval_expr(crate::ast::ExprV::Lit(v), ctx, ctx.max_depth) == Ok::<
        Rat,
        crate::error::EvalError,
    >(v));
}

/// Evaluation is deterministic: two evaluations of one input against one
/// context give identical outcomes.  (The contract of `evaluate` pins its
/// result to `spec_evaluate` of the input alone, so this holds of the
/// executable function as well.)
pub proof fn lemma_evaluate_deterministic(
    s: Seq<u8>,
    ctx: CtxView,
    r1: Result<Rat, Error>,
    r2: Result<Rat, Error>,
)
    requires
        r1 == spec_evaluate(s, ctx),
        r2 == spec_evaluate(s, ctx),
    ensures
        r1 == r2,
{
}

} // verus!
