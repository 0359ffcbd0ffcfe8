//! A recursive-descent parser for a prefix-notation arithmetic language:
//! the operators `+` and `*` come before their two operands, operands are
//! separated by optional spaces, and numeric literals are unsigned decimal
//! integers. Parsing produces an abstract syntax tree; nothing is evaluated.
//!
//! The grammar:
//!
//! ```text
//! expr     ::= WS* (literal | operator)
//! literal  ::= DIGIT+
//! operator ::= ('+' | '*') expr expr
//! ```
//!
//! The input is the expression text as bytes (`&[u8]`); every byte the
//! grammar accepts is ASCII, and a byte outside the grammar simply fails to
//! match, so no input can cause more than a reported parse error.
//!
//! The executable parser in [`parser`] is verified against the mathematical
//! grammar in [`grammar`]; [`laws`] proves the language-level properties
//! (digit strings parse to their numeric value, leading spaces are ignored,
//! rendering and re-parsing an expression gives it back).

pub mod ast;
pub mod grammar;
pub mod laws;
pub mod parser;
pub mod render;
