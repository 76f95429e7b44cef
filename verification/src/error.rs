//! Error taxonomy of the evaluator.
//!
//! Every failure of an evaluation is one of three families, each terminal for
//! the call that produced it: a lexical error, a structural (parse) error, or
//! an evaluation error.  Lexical and parse errors carry the byte offset in the
//! input at which they were detected.

use vstd::prelude::*;

verus! {

/// Why the tokenizer rejected the input.
#[derive(Clone, Copy, Debug, PartialEq, Eq, Structural)]
pub enum LexErrorKind {
    /// A byte that starts no token (not a digit, identifier, operator,
    /// parenthesis, comma or whitespace).
    UnrecognizedChar,
    /// A numeric literal with a decimal point or exponent marker that is not
    /// followed by a digit.
    MalformedNumber,
    /// A numeric literal whose exact value does not fit the number
    /// representation.
    LiteralOutOfRange,
}

/// A tokenizer failure, with the byte offset at which it was detected.
#[derive(Clone, Copy, Debug, PartialEq, Eq, Structural)]
pub struct LexError {
    pub kind: LexErrorKind,
    pub pos: usize,
}

/// Why the parser rejected the token stream.
#[derive(Clone, Copy, Debug, PartialEq, Eq, Structural)]
pub enum ParseErrorKind {
    /// An operand was expected but the token there cannot start one.
    MissingOperand,
    /// A `(` has no matching `)`.
    UnbalancedParen,
    /// A complete expression was parsed but input remains.
    TrailingToken,
    /// A comma outside the argument list of a call.
    MisplacedComma,
}

/// A parser failure, with the byte offset of the offending token.
#[derive(Clone, Copy, Debug, PartialEq, Eq, Structural)]
pub struct ParseError {
    pub kind: ParseErrorKind,
    pub pos: usize,
}

/// Why evaluation of a well-formed expression tree failed.
#[derive(Clone, Copy, Debug, PartialEq, Eq, Structural)]
pub enum EvalError {
    /// A variable name with no binding in the context.
    UndefinedName,
    /// A call to a function name the context does not know.
    UnknownFunction,
    /// A call with the wrong number of arguments for the function.
    ArityMismatch,
    /// A mathematically undefined operation: division by zero, modulo with a
    /// non-integer or zero operand, or a fractional or negative-of-zero
    /// exponent.
    DomainError,
    /// The expression nests deeper than the context's depth limit.
    TooComplex,
    /// An exact result does not fit the number representation.
    Overflow,
}

/// Any failure of `evaluate`, by stage.
#[derive(Clone, Copy, Debug, PartialEq, Eq, Structural)]
pub enum Error {
    Lex(LexError),
    Parse(ParseError),
    Eval(EvalError),
}

} // verus!
