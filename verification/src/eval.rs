//! The evaluator and its context.
//!
//! A `Context` holds named constants (later entries shadow earlier ones, so a
//! caller may override a default without rebuilding it) and the nesting-depth
//! limit.  The function table is the fixed builtin set `abs` (one argument),
//! `min` and `max` (two arguments each), all exact on rationals.  Evaluation
//! is a pure recursive walk: the specification function `eval_expr` defines
//! the result of any tree against any context, and `eval_node` is proved to
//! return exactly that.  A call resolves its name first (`UnknownFunction`),
//! then checks the argument count (`ArityMismatch`), then evaluates all
//! arguments left to right before applying the function.

use vstd::prelude::*;
use crate::ast::{args_len, args_wfv, expr_wfv, Args, ArgsV, BinOp, Expr, ExprV};
use crate::error::EvalError;
use crate::num::{
    abs_v, add_v, div_v, max_v, min_v, mod_v, mul_v, neg_v, pow_v, rat_abs, rat_add, rat_div,
    rat_max, rat_min, rat_mod, rat_mul, rat_neg, rat_pow, rat_sub, sub_v, Rat,
};

verus! {

/// Named constants and the nesting-depth limit of evaluation.
pub struct Context {
    pub entries: Vec<(Vec<u8>, Rat)>,
    pub max_depth: usize,
}

/// The mathematical shape of a context.
pub struct CtxView {
    pub entries: Seq<(Seq<u8>, Rat)>,
    pub max_depth: nat,
}

impl View for Context {
    type V = CtxView;

    open spec fn view(&self) -> CtxView {
        CtxView {
            entries: self.entries@.map_values(|p: (Vec<u8>, Rat)| (p.0@, p.1)),
            max_depth: self.max_depth as nat,
        }
    }
}

/// Every bound value is well-formed.
pub open spec fn entries_wf(es: Seq<(Seq<u8>, Rat)>) -> bool {
    forall|k: int| 0 <= k < es.len() ==> (#[trigger] es[k]).1.wf()
}

/// Well-formedness of a context.
pub open spec fn ctx_wf(c: CtxView) -> bool {
    entries_wf(c.entries)
}

/// The value bound to `name`, the latest binding winning.
pub open spec fn lookup(es: Seq<(Seq<u8>, Rat)>, name: Seq<u8>) -> Option<Rat>
    decreases es.len(),
{
    if es.len() == 0 {
        None
    } else if es.last().0 == name {
        Some(es.last().1)
    } else {
        lookup(es.drop_last(), name)
    }
}

proof fn lemma_lookup_wf(es: Seq<(Seq<u8>, Rat)>, name: Seq<u8>)
    requires
        entries_wf(es),
    ensures
        lookup(es, name) matches Some(v) ==> v.wf(),
    decreases es.len(),
{
    if es.len() > 0 && !(es.last().0 == name) {
        assert(entries_wf(es.drop_last())) by {
            assert(forall|k: int|
                0 <= k < es.drop_last().len() ==> #[trigger] es.drop_last()[k] == es[k]);
        }
        lemma_lookup_wf(es.drop_last(), name);
    }
}

pub open spec fn name_abs() -> Seq<u8> {
    seq![97u8, 98u8, 115u8]
}

pub open spec fn name_min() -> Seq<u8> {
    seq![109u8, 105u8, 110u8]
}

pub open spec fn name_max() -> Seq<u8> {
    seq![109u8, 97u8, 120u8]
}

/// The declared argument count of a builtin function, `None` for an unknown
/// name.  `min` and `max` are binary, `abs` unary.
pub open spec fn builtin_arity(name: Seq<u8>) -> Option<nat> {
    if name == name_abs() {
        Some(1nat)
    } else if name == name_min() || name == name_max() {
        Some(2nat)
    } else {
        None
    }
}

/// A builtin applied to its (already evaluated) argument values.
pub open spec fn apply_fn(name: Seq<u8>, vs: Seq<Rat>) -> Result<Rat, EvalError> {
    if name == name_abs() {
        abs_v(vs[0])
    } else if name == name_min() {
        Ok(min_v(vs[0], vs[1]))
    } else if name == name_max() {
        Ok(max_v(vs[0], vs[1]))
    } else {
        Err(EvalError::UnknownFunction)
    }
}

/// A binary operator applied to its operand values.
pub open spec fn apply_bin(op: BinOp, a: Rat, b: Rat) -> Result<Rat, EvalError> {
    match op {
        BinOp::Add => add_v(a, b),
        BinOp::Sub => sub_v(a, b),
        BinOp::Mul => mul_v(a, b),
        BinOp::Div => div_v(a, b),
        BinOp::Mod => mod_v(a, b),
        BinOp::Pow => pow_v(a, b),
    }
}

/// The value of a tree against a context: the meaning of evaluation.  Each
/// level of the tree consumes one unit of `depth`; at zero the evaluation
/// reports `TooComplex`.
pub open spec fn eval_expr(e: ExprV, ctx: CtxView, depth: nat) -> Result<Rat, EvalError>
    decreases e,
{
    if depth == 0 {
        Err(EvalError::TooComplex)
    } else {
        match e {
            ExprV::Lit(v) => Ok(v),
            ExprV::Var(n) => match lookup(ctx.entries, n) {
                Some(v) => Ok(v),
                None => Err(EvalError::UndefinedName),
            },
            ExprV::Neg(b) => match eval_expr(*b, ctx, (depth - 1) as nat) {
                Ok(v) => neg_v(v),
                Err(er) => Err(er),
            },
            ExprV::Bin(op, l, r) => match eval_expr(*l, ctx, (depth - 1) as nat) {
                Err(er) => Err(er),
                Ok(lv) => match eval_expr(*r, ctx, (depth - 1) as nat) {
                    Err(er) => Err(er),
                    Ok(rv) => apply_bin(op, lv, rv),
                },
            },
            ExprV::Call(n, args) => match builtin_arity(n) {
                None => Err(EvalError::UnknownFunction),
                Some(ar) => if args_len(*args) != ar {
                    Err(EvalError::ArityMismatch)
                } else {
                    match eval_args(*args, ctx, (depth - 1) as nat) {
                        Err(er) => Err(er),
                        Ok(vs) => apply_fn(n, vs),
                    }
                },
            },
        }
    }
}

/// The values of an argument list, left to right; the first failure wins.
pub open spec fn eval_args(a: ArgsV, ctx: CtxView, depth: nat) -> Result<Seq<Rat>, EvalError>
    decreases a,
{
    match a {
        ArgsV::Nil => Ok(Seq::empty()),
        ArgsV::Cons(h, t) => match eval_expr(*h, ctx, depth) {
            Err(er) => Err(er),
            Ok(v) => match eval_args(*t, ctx, depth) {
                Err(er) => Err(er),
                Ok(vs) => Ok(seq![v] + vs),
            },
        },
    }
}

proof fn lemma_eval_args_len(a: ArgsV, ctx: CtxView, depth: nat)
    ensures
        eval_args(a, ctx, depth) matches Ok(vs) ==> vs.len() == args_len(a),
    decreases a,
{
    match a {
        ArgsV::Nil => {},
        ArgsV::Cons(_, t) => {
            lemma_eval_args_len(*t, ctx, depth);
        },
    }
}

/// Are the bytes of `n` exactly `c0 c1 c2`?
fn name_is3(n: &Vec<u8>, c0: u8, c1: u8, c2: u8) -> (r: bool)
    ensures
        r == (n@ == seq![c0, c1, c2]),
{
    let r = n.len() == 3 && n[0] == c0 && n[1] == c1 && n[2] == c2;
    proof {
        if r {
            assert(n@ =~= seq![c0, c1, c2]);
        }
        if !r && n@ == seq![c0, c1, c2] {
            assert(n@.len() == 3);
            assert(n@[0] == c0 && n@[1] == c1 && n@[2] == c2);
            assert(false);
        }
    }
    r
}

/// The declared arity of a builtin, `None` for an unknown name.
pub fn builtin_arity_exec(n: &Vec<u8>) -> (r: Option<usize>)
    ensures
        r matches Some(k) ==> builtin_arity(n@) == Some(k as nat),
        r is None ==> builtin_arity(n@) is None,
{
    if name_is3(n, 97, 98, 115) {
        Some(1)
    } else if name_is3(n, 109, 105, 110) || name_is3(n, 109, 97, 120) {
        Some(2)
    } else {
        None
    }
}

fn apply_fn_exec(n: &Vec<u8>, vs: &Vec<Rat>) -> (r: Result<Rat, EvalError>)
    requires
        builtin_arity(n@) matches Some(ar) && vs@.len() == ar,
        forall|k: int| 0 <= k < vs@.len() ==> (#[trigger] vs@[k]).wf(),
    ensures
        r == apply_fn(n@, vs@),
        r matches Ok(v) ==> v.wf(),
{
    if name_is3(n, 97, 98, 115) {
        rat_abs(vs[0])
    } else if name_is3(n, 109, 105, 110) {
        Ok(rat_min(vs[0], vs[1]))
    } else if name_is3(n, 109, 97, 120) {
        Ok(rat_max(vs[0], vs[1]))
    } else {
        proof {
            assert(false);
        }
        Err(EvalError::UnknownFunction)
    }
}

fn apply_bin_exec(op: BinOp, a: Rat, b: Rat) -> (r: Result<Rat, EvalError>)
    requires
        a.wf(),
        b.wf(),
    ensures
        r == apply_bin(op, a, b),
        r matches Ok(v) ==> v.wf(),
{
    match op {
        BinOp::Add => rat_add(a, b),
        BinOp::Sub => rat_sub(a, b),
        BinOp::Mul => rat_mul(a, b),
        BinOp::Div => rat_div(a, b),
        BinOp::Mod => rat_mod(a, b),
        BinOp::Pow => rat_pow(a, b),
    }
}

/// Compare two byte strings.
fn bytes_eq(a: &Vec<u8>, b: &Vec<u8>) -> (r: bool)
    ensures
        r == (a@ == b@),
{
    if a.len() != b.len() {
        proof {
            if a@ == b@ {
                assert(a@.len() == b@.len());
            }
        }
        return false;
    }
    let mut k: usize = 0;
    while k < a.len()
        invariant
            k <= a@.len(),
            a@.len() == b@.len(),
            forall|m: int| 0 <= m < k ==> a@[m] == b@[m],
        decreases a@.len() - k,
    {
        if a[k] != b[k] {
            proof {
                if a@ == b@ {
                    assert(a@[k as int] == b@[k as int]);
                }
            }
            return false;
        }
        k = k + 1;
    }
    proof {
        assert(a@ =~= b@);
    }
    true
}

/// The number of arguments, counted no further than three.
fn args_count_capped(a: &Args) -> (n: usize)
    ensures
        n as int == if args_len(a@) >= 3 {
            3int
        } else {
            args_len(a@) as int
        },
    decreases *a,
{
    match a {
        Args::Nil => 0,
        Args::Cons(_, t) => {
            let m = args_count_capped(t);
            if m >= 3 {
                3
            } else {
                m + 1
            }
        },
    }
}

impl Context {
    /// An empty context with the given nesting-depth limit.
    pub fn new(max_depth: usize) -> (c: Context)
        ensures
            c@.entries.len() == 0,
            c@.max_depth == max_depth,
            ctx_wf(c@),
    {
        let c = Context { entries: Vec::new(), max_depth };
        proof {
            assert(c@.entries =~= Seq::<(Seq<u8>, Rat)>::empty());
        }
        c
    }

    /// Bind `name` to `value`; the new binding shadows any earlier one of the
    /// same name.
    pub fn set(&mut self, name: Vec<u8>, value: Rat)
        requires
            value.wf(),
        ensures
            final(self)@.entries == old(self)@.entries.push((name@, value)),
            final(self)@.max_depth == old(self)@.max_depth,
            ctx_wf(old(self)@) ==> ctx_wf(final(self)@),
    {
        let ghost before = self@.entries;
        self.entries.push((name, value));
        proof {
            assert(self@.entries =~= before.push((name@, value)));
        }
    }

    /// The value bound to `name`, the latest binding winning.
    pub fn get(&self, name: &Vec<u8>) -> (r: Option<Rat>)
        ensures
            r == lookup(self@.entries, name@),
    {
        let ghost es = self@.entries;
        let mut k = self.entries.len();
        proof {
            assert(es.take(es.len() as int) =~= es);
        }
        while k > 0
            invariant
                k <= self.entries@.len(),
                es == self@.entries,
                es.len() == self.entries@.len(),
                lookup(es, name@) == lookup(es.take(k as int), name@),
            decreases k,
        {
            k = k - 1;
            proof {
                assert(es.take(k as int + 1).last() == es[k as int]);
                assert(es.take(k as int + 1).drop_last() =~= es.take(k as int));
            }
            let pair = &self.entries[k];
            if bytes_eq(&pair.0, name) {
                return Some(pair.1);
            }
        }
        None
    }
}

/// The entries of the standard context: the constants `pi` and `e` as exact
/// rational approximations (correct to about sixteen decimal digits).
pub open spec fn standard_entries() -> Seq<(Seq<u8>, Rat)> {
    seq![
        (seq![112u8, 105u8], Rat { num: 245850922, den: 78256779 }),
        (seq![101u8], Rat { num: 271801, den: 99990 }),
    ]
}

/// The standard context: `pi` and `e`, and a nesting-depth limit of 256.
pub fn standard_context() -> (c: Context)
    ensures
        c@.entries == standard_entries(),
        c@.max_depth == 256,
        ctx_wf(c@),
{
    let mut c = Context::new(256);
    let mut pi_name: Vec<u8> = Vec::new();
    pi_name.push(112);
    pi_name.push(105);
    let mut e_name: Vec<u8> = Vec::new();
    e_name.push(101);
    proof {
        assert(pi_name@ =~= seq![112u8, 105u8]);
        assert(e_name@ =~= seq![101u8]);
    }
    c.set(pi_name, Rat { num: 245850922, den: 78256779 });
    c.set(e_name, Rat { num: 271801, den: 99990 });
    proof {
        assert(c@.entries =~= standard_entries());
    }
    c
}

/// Evaluate a tree against a context: exactly the value `eval_expr`
/// describes.
pub fn eval_node(e: &Expr, ctx: &Context, depth: usize) -> (r: Result<Rat, EvalError>)
    requires
        expr_wfv(e@),
        ctx_wf(ctx@),
    ensures
        r == eval_expr(e@, ctx@, depth as nat),
        r matches Ok(v) ==> v.wf(),
    decreases *e,
{
    if depth == 0 {
        return Err(EvalError::TooComplex);
    }
    match e {
        Expr::Lit(v) => Ok(*v),
        Expr::Var(n) => match ctx.get(n) {
            Some(v) => {
                proof {
                    lemma_lookup_wf(ctx@.entries, n@);
                }
                Ok(v)
            },
            None => Err(EvalError::UndefinedName),
        },
        Expr::Neg(b) => match eval_node(b, ctx, depth - 1) {
            Ok(v) => rat_neg(v),
            Err(er) => Err(er),
        },
        Expr::Bin(op, l, r) => match eval_node(l, ctx, depth - 1) {
            Err(er) => Err(er),
            Ok(lv) => match eval_node(r, ctx, depth - 1) {
                Err(er) => Err(er),
                Ok(rv) => apply_bin_exec(*op, lv, rv),
            },
        },
        Expr::Call(n, args) => {
            let ar = match builtin_arity_exec(n) {
                Some(a) => a,
                None => {
                    return Err(EvalError::UnknownFunction);
                },
            };
            let cnt = args_count_capped(args);
            if cnt != ar {
                return Err(EvalError::ArityMismatch);
            }
            match eval_args_node(args, ctx, depth - 1) {
                Err(er) => Err(er),
                Ok(vs) => {
                    proof {
                        lemma_eval_args_len(args@, ctx@, (depth - 1) as nat);
                    }
                    apply_fn_exec(n, &vs)
                },
            }
        },
    }
}

/// Evaluate an argument list, left to right.
fn eval_args_node(a: &Args, ctx: &Context, depth: usize) -> (r: Result<Vec<Rat>, EvalError>)
    requires
        args_wfv(a@),
        ctx_wf(ctx@),
    ensures
        match r {
            Ok(vs) => eval_args(a@, ctx@, depth as nat) == Ok::<Seq<Rat>, EvalError>(vs@) && (
            forall|k: int| 0 <= k < vs@.len() ==> (#[trigger] vs@[k]).wf()),
            Err(er) => eval_args(a@, ctx@, depth as nat) == Err::<Seq<Rat>, EvalError>(er),
        },
    decreases *a,
{
    match a {
        Args::Nil => {
            let out: Vec<Rat> = Vec::new();
            proof {
                assert(out@ =~= Seq::<Rat>::empty());
            }
            Ok(out)
        },
        Args::Cons(h, t) => match eval_node(h, ctx, depth) {
            Err(er) => Err(er),
            Ok(v) => match eval_args_node(t, ctx, depth) {
                Err(er) => Err(er),
                Ok(rest) => {
                    let ghost r0 = rest@;
                    let mut out = rest;
                    out.insert(0, v);
                    proof {
                        assert(out@ =~= seq![v] + r0);
                    }
                    Ok(out)
                },
            },
        },
    }
}

} // verus!
