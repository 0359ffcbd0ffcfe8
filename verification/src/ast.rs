//! The abstract syntax tree and the parser's error values.

use vstd::prelude::*;

verus! {

/// One node of the abstract syntax tree: a numeric literal, a sum, or a
/// product. Every `Add`/`Mul` node owns its two children outright, so a value
/// of this type is always a strict tree, built bottom-up by the parser and
/// never mutated afterwards.
#[derive(Debug, PartialEq, Eq)]
pub enum Expr {
    /// An unsigned decimal literal.
    Num(u64),
    /// A `+` node: the sum of the two operands, in parse order.
    Add(Box<Expr>, Box<Expr>),
    /// A `*` node: the product of the two operands, in parse order.
    Mul(Box<Expr>, Box<Expr>),
}

/// The character class a failed rule was looking for.
#[derive(Debug, PartialEq, Eq, Clone, Copy)]
pub enum CharClass {
    /// An ASCII digit `0`-`9`.
    Digit,
    /// One of the operator symbols `+` or `*`.
    Operator,
}

/// Why a parse failed, and at which byte offset of the input the failure was
/// detected. A failure never advances the cursor: the reported offset is where
/// the failing rule started looking (after any leading spaces it consumed).
#[derive(Debug, PartialEq, Eq, Clone, Copy)]
pub enum ParseError {
    /// The expected character class was not found at the given offset.
    NoMatch(CharClass, usize),
    /// A digit run starting at the given offset does not fit in `u64`.
    Overflow(usize),
}

} // verus!
