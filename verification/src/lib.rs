//! An exact arithmetic expression evaluator.
//!
//! `evaluate` turns a byte string such as `b"2 + 3 * max(1, 4)"` into a
//! number or an error, in three verified stages: a tokenizer, a
//! recursive-descent parser honoring the usual precedence and associativity,
//! and a recursive evaluator over a context of named constants.  Values are
//! exact rationals on 64-bit components; an operation whose exact result does
//! not fit reports `Overflow` rather than returning a wrong value, and a
//! mathematically undefined operation (such as division by zero) reports
//! `DomainError` rather than producing an infinity.
//!
//! The whole pipeline is deterministic: the contract of `evaluate` pins its
//! result to the specification function `spec_evaluate` of the input alone.

pub mod ast;
pub mod error;
pub mod eval;
pub mod laws;
pub mod num;
pub mod paren;
pub mod parser;
pub mod token;

use vstd::prelude::*;
use crate::error::Error;
use crate::eval::{ctx_wf, eval_expr, Context, CtxView};
use crate::num::Rat;

verus! {

/// The result of evaluating the byte string `s` against the context `ctx`:
/// tokenize, parse, evaluate, each stage's failure final.
pub open spec fn spec_evaluate(s: Seq<u8>, ctx: CtxView) -> Result<Rat, Error> {
    match crate::token::lex(s, 0) {
        Err(le) => Err(Error::Lex(le)),
        Ok(ts) => match crate::parser::p_top(ts) {
            Err(pe) => Err(Error::Parse(pe)),
            Ok(e) => match eval_expr(e, ctx, ctx.max_depth) {
                Ok(v) => Ok(v),
                Err(ee) => Err(Error::Eval(ee)),
            },
        },
    }
}

/// Evaluate an expression, given as bytes, against a context: exactly the
/// value or error `spec_evaluate` describes, so two evaluations of one input
/// against one context always agree.
pub fn evaluate(src: &[u8], ctx: &Context) -> (r: Result<Rat, Error>)
    requires
        ctx_wf(ctx@),
    ensures
        r == spec_evaluate(src@, ctx@),
        r matches Ok(v) ==> v.wf(),
{
    let toks = match crate::token::tokenize(src) {
        Ok(t) => t,
        Err(le) => {
            return Err(Error::Lex(le));
        },
    };
    let tree = match crate::parser::parse(&toks) {
        Ok(e) => e,
        Err(pe) => {
            return Err(Error::Parse(pe));
        },
    };
    match crate::eval::eval_node(&tree, ctx, ctx.max_depth) {
        Ok(v) => Ok(v),
        Err(ee) => Err(Error::Eval(ee)),
    }
}

} // verus!
