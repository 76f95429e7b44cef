//! Expression trees.
//!
//! The parser produces these; every tree it emits is syntactically complete
//! by construction (children are owned, built downward, so no cycles and no
//! dangling operators).  Argument lists are linked lists, which keeps all
//! recursion structural.

use vstd::prelude::*;
use crate::num::Rat;

verus! {

/// A binary operator.
#[derive(Clone, Copy, Debug, PartialEq, Eq, Structural)]
pub enum BinOp {
    Add,
    Sub,
    Mul,
    Div,
    Mod,
    Pow,
}

/// An expression tree node.
#[derive(Debug)]
pub enum Expr {
    /// A numeric literal.
    Lit(Rat),
    /// A name to resolve against the context.
    Var(Vec<u8>),
    /// Unary minus.
    Neg(Box<Expr>),
    /// A binary operation.
    Bin(BinOp, Box<Expr>, Box<Expr>),
    /// A function call with its argument list.
    Call(Vec<u8>, Args),
}

/// An argument list of a call.
#[derive(Debug)]
pub enum Args {
    Nil,
    Cons(Box<Expr>, Box<Args>),
}

/// The mathematical shape of an expression tree.
pub enum ExprV {
    Lit(Rat),
    Var(Seq<u8>),
    Neg(Box<ExprV>),
    Bin(BinOp, Box<ExprV>, Box<ExprV>),
    Call(Seq<u8>, Box<ArgsV>),
}

/// The mathematical shape of an argument list.
pub enum ArgsV {
    Nil,
    Cons(Box<ExprV>, Box<ArgsV>),
}

impl View for Expr {
    type V = ExprV;

    open spec fn view(&self) -> ExprV
        decreases self,
    {
        match self {
            Expr::Lit(v) => ExprV::Lit(*v),
            Expr::Var(n) => ExprV::Var(n@),
            Expr::Neg(b) => ExprV::Neg(Box::new((**b)@)),
            Expr::Bin(op, l, r) => ExprV::Bin(*op, Box::new((**l)@), Box::new((**r)@)),
            Expr::Call(n, a) => ExprV::Call(n@, Box::new((*a)@)),
        }
    }
}

impl View for Args {
    type V = ArgsV;

    open spec fn view(&self) -> ArgsV
        decreases self,
    {
        match self {
            Args::Nil => ArgsV::Nil,
            Args::Cons(h, t) => ArgsV::Cons(Box::new((**h)@), Box::new((**t)@)),
        }
    }
}

/// The number of arguments in a list.
pub open spec fn args_len(a: ArgsV) -> nat
    decreases a,
{
    match a {
        ArgsV::Nil => 0,
        ArgsV::Cons(_, t) => 1 + args_len(*t),
    }
}

/// Every literal in the tree holds a well-formed rational.
pub open spec fn expr_wfv(e: ExprV) -> bool
    decreases e,
{
    match e {
        ExprV::Lit(v) => v.wf(),
        ExprV::Var(_) => true,
        ExprV::Neg(b) => expr_wfv(*b),
        ExprV::Bin(_, l, r) => expr_wfv(*l) && expr_wfv(*r),
        ExprV::Call(_, a) => args_wfv(*a),
    }
}

/// Every literal in the argument list holds a well-formed rational.
pub open spec fn args_wfv(a: ArgsV) -> bool
    decreases a,
{
    match a {
        ArgsV::Nil => true,
        ArgsV::Cons(h, t) => expr_wfv(*h) && args_wfv(*t),
    }
}

} // verus!
