//! The grammar as mathematics: spec-level parsing rules over a `Seq<u8>` and
//! an `int` cursor. The executable parser in [`crate::parser`] is proved to
//! return exactly what these rules say.
//!
//! ```text
//! expr     ::= WS* (literal | operator)
//! literal  ::= DIGIT+
//! operator ::= ('+' | '*') expr expr
//! ```
//!
//! A rule either succeeds with the cursor just past what it consumed and the
//! node it built, or fails with the cursor it was given: failure never
//! consumes input. The alternatives of `expr` are decided by the first
//! non-space byte: a digit selects the literal rule (so an overflowing digit
//! run reports `Overflow`), anything else selects the operator rule (whose
//! `NoMatch` is then the reported failure, as with a last-alternative
//! convention).

use vstd::prelude::*;

use crate::ast::{CharClass, Expr};

verus! {

/// A parse failure in the mathematical grammar, with the cursor as an
/// unbounded `int`. [`outcome_of`] relates it to the executable
/// [`crate::ast::ParseError`], whose cursor is a `usize`.
pub enum GrammarError {
    /// The expected character class was not found at the given cursor.
    NoMatch(CharClass, int),
    /// The digit run starting at the given cursor does not fit in `u64`.
    Overflow(int),
}

/// An ASCII decimal digit `0`-`9`.
pub open spec fn is_digit(b: u8) -> bool {
    48 <= b && b <= 57  // b'0' ..= b'9'
}

/// The space character, the only whitespace the grammar skips.
pub open spec fn is_space(b: u8) -> bool {
    b == 32  // b' '
}

/// An operator symbol: `+` or `*`.
pub open spec fn is_op(b: u8) -> bool {
    b == 43 || b == 42  // b'+' or b'*'
}

/// The value of `b` as a decimal digit; meaningful when `is_digit(b)`.
pub open spec fn digit_val(b: u8) -> nat {
    (b - 48) as nat
}

/// The numeric value of a sequence of decimal digits, most significant first.
pub open spec fn val_of(digits: Seq<u8>) -> nat
    decreases digits.len(),
{
    if digits.len() == 0 {
        0
    } else {
        val_of(digits.drop_last()) * 10 + digit_val(digits.last())
    }
}

/// The end of the maximal digit run starting at `pos`: the first index at or
/// after `pos` that is past the end or holds a non-digit.
pub open spec fn digit_run_end(s: Seq<u8>, pos: int) -> int
    recommends
        0 <= pos <= s.len(),
    decreases s.len() - pos,
{
    if pos < s.len() && is_digit(s[pos]) {
        digit_run_end(s, pos + 1)
    } else {
        pos
    }
}

/// The number of unread bytes at `pos`; the termination measure of the
/// mutually recursive grammar rules.
pub open spec fn bytes_left(s: Seq<u8>, pos: int) -> int {
    if pos <= s.len() {
        s.len() - pos
    } else {
        0
    }
}

/// The literal rule: consume the maximal run of digits at `pos` (at least
/// one) and build a `Num` node from its value. Fails with `NoMatch` when no
/// digit is present and with `Overflow` when the run's value exceeds `u64`.
pub open spec fn spec_parse_num(s: Seq<u8>, pos: int) -> Result<(int, Expr), GrammarError>
    recommends
        0 <= pos <= s.len(),
{
    let end = digit_run_end(s, pos);
    if end == pos {
        Err(GrammarError::NoMatch(CharClass::Digit, pos))
    } else if val_of(s.subrange(pos, end)) > u64::MAX {
        Err(GrammarError::Overflow(pos))
    } else {
        Ok((end, Expr::Num(val_of(s.subrange(pos, end)) as u64)))
    }
}

/// The operator rule: consume one `+` or `*` at `pos`, then two expressions
/// in sequence, the second starting exactly where the first ended. Builds an
/// `Add` or `Mul` node by the operator symbol; any failure of an operand
/// propagates unchanged.
///
/// The inner bounds test only serves the termination measure: a successful
/// sub-parse always lands strictly past `pos` and at most at `s.len()`
/// ([`lemma_parse_expr_advances`]), so its failing branch is never reached.
pub open spec fn spec_parse_op(s: Seq<u8>, pos: int) -> Result<(int, Expr), GrammarError>
    recommends
        0 <= pos <= s.len(),
    decreases bytes_left(s, pos), 0int,
{
    if pos < s.len() && is_op(s[pos]) {
        match spec_parse_expr(s, pos + 1) {
            Ok((p1, e1)) => if pos < p1 <= s.len() {
                match spec_parse_expr(s, p1) {
                    Ok((p2, e2)) => Ok(
                        (
                            p2,
                            if s[pos] == 43 {  // b'+'
                                Expr::Add(Box::new(e1), Box::new(e2))
                            } else {
                                Expr::Mul(Box::new(e1), Box::new(e2))
                            },
                        ),
                    ),
                    Err(e) => Err(e),
                }
            } else {
                Err(GrammarError::NoMatch(CharClass::Operator, pos))
            },
            Err(e) => Err(e),
        }
    } else {
        Err(GrammarError::NoMatch(CharClass::Operator, pos))
    }
}

/// The expression rule and sole entry point of the grammar: skip spaces, then
/// parse a literal if a digit follows, an operator expression otherwise.
pub open spec fn spec_parse_expr(s: Seq<u8>, pos: int) -> Result<(int, Expr), GrammarError>
    recommends
        0 <= pos <= s.len(),
    decreases bytes_left(s, pos), 1int,
{
    if pos < s.len() && is_space(s[pos]) {
        spec_parse_expr(s, pos + 1)
    } else if pos < s.len() && is_digit(s[pos]) {
        spec_parse_num(s, pos)
    } else {
        spec_parse_op(s, pos)
    }
}

/// The executable parser's result, seen as a result of the mathematical
/// grammar. The mapping is one-to-one over cursors that fit in `usize`.
pub open spec fn outcome_of(r: Result<(usize, Expr), crate::ast::ParseError>) -> Result<
    (int, Expr),
    GrammarError,
> {
    match r {
        Ok((p, e)) => Ok((p as int, e)),
        Err(crate::ast::ParseError::NoMatch(c, p)) => Err(GrammarError::NoMatch(c, p as int)),
        Err(crate::ast::ParseError::Overflow(p)) => Err(GrammarError::Overflow(p as int)),
    }
}

/// `digit_run_end` stays within `[pos, s.len()]`, covers digits only, and
/// stops at the first non-digit.
pub proof fn lemma_digit_run_end(s: Seq<u8>, pos: int)
    requires
        0 <= pos <= s.len(),
    ensures
        pos <= digit_run_end(s, pos) <= s.len(),
        forall|i: int| pos <= i < digit_run_end(s, pos) ==> is_digit(s[i]),
        digit_run_end(s, pos) < s.len() ==> !is_digit(s[digit_run_end(s, pos)]),
    decreases s.len() - pos,
{
    if pos < s.len() && is_digit(s[pos]) {
        lemma_digit_run_end(s, pos + 1);
    }
}

/// Appending one digit to a run multiplies its value by ten and adds the
/// digit.
pub proof fn lemma_val_of_step(s: Seq<u8>, pos: int, j: int)
    requires
        0 <= pos <= j < s.len(),
    ensures
        val_of(s.subrange(pos, j + 1)) == val_of(s.subrange(pos, j)) * 10 + digit_val(s[j]),
{
    assert(s.subrange(pos, j + 1).drop_last() =~= s.subrange(pos, j));
    assert(s.subrange(pos, j + 1).last() == s[j]);
}

/// Extending a digit run on the right never decreases its value.
pub proof fn lemma_val_of_extend(s: Seq<u8>, pos: int, a: int, b: int)
    requires
        0 <= pos <= a <= b <= s.len(),
    ensures
        val_of(s.subrange(pos, a)) <= val_of(s.subrange(pos, b)),
    decreases b - a,
{
    if a < b {
        lemma_val_of_extend(s, pos, a, b - 1);
        assert(s.subrange(pos, b).drop_last() =~= s.subrange(pos, b - 1));
    }
}

/// A successful expression parse advances the cursor and never runs past the
/// end of the input.
pub proof fn lemma_parse_expr_advances(s: Seq<u8>, pos: int)
    requires
        0 <= pos <= s.len(),
    ensures
        spec_parse_expr(s, pos) matches Ok((p, e)) ==> pos < p <= s.len(),
    decreases bytes_left(s, pos), 1int,
{
    if pos < s.len() && is_space(s[pos]) {
        lemma_parse_expr_advances(s, pos + 1);
    } else if pos < s.len() && is_digit(s[pos]) {
        lemma_digit_run_end(s, pos + 1);
    } else {
        lemma_parse_op_advances(s, pos);
    }
}

/// A successful operator parse advances the cursor and never runs past the
/// end of the input.
pub proof fn lemma_parse_op_advances(s: Seq<u8>, pos: int)
    requires
        0 <= pos <= s.len(),
    ensures
        spec_parse_op(s, pos) matches Ok((p, e)) ==> pos < p <= s.len(),
    decreases bytes_left(s, pos), 0int,
{
    if pos < s.len() && is_op(s[pos]) {
        lemma_parse_expr_advances(s, pos + 1);
        if let Ok((p1, e1)) = spec_parse_expr(s, pos + 1) {
            lemma_parse_expr_advances(s, p1);
        }
    }
}

/// An outcome of the grammar with its every cursor moved by `d`: the result
/// of the same parse on an input whose unread part starts `d` bytes later.
pub open spec fn shift_outcome(r: Result<(int, Expr), GrammarError>, d: int) -> Result<
    (int, Expr),
    GrammarError,
> {
    match r {
        Ok((p, e)) => Ok((p + d, e)),
        Err(GrammarError::NoMatch(c, p)) => Err(GrammarError::NoMatch(c, p + d)),
        Err(GrammarError::Overflow(p)) => Err(GrammarError::Overflow(p + d)),
    }
}

/// A digit run is a property of the unread bytes alone: where `t` repeats
/// the bytes of `s` from `q` on, `d` places later, the run found in `t`
/// is the run found in `s`, moved by `d`.
proof fn lemma_digit_run_end_shift(s: Seq<u8>, t: Seq<u8>, d: int, q: int)
    requires
        0 <= q <= s.len(),
        0 <= q + d,
        s.len() + d == t.len(),
        forall|j: int| q <= j < s.len() ==> t[j + d] == s[j],
    ensures
        digit_run_end(t, q + d) == digit_run_end(s, q) + d,
    decreases s.len() - q,
{
    if q < s.len() && is_digit(s[q]) {
        lemma_digit_run_end_shift(s, t, d, q + 1);
    }
}

/// Parsing, too, is a property of the unread bytes alone: where `t` repeats
/// the bytes of `s` from `q` on, `d` places later, the expression rule in
/// `t` returns the outcome it has in `s` with every cursor moved by `d`.
pub proof fn lemma_parse_expr_shift(s: Seq<u8>, t: Seq<u8>, d: int, q: int)
    requires
        0 <= q <= s.len(),
        0 <= q + d,
        s.len() + d == t.len(),
        forall|j: int| q <= j < s.len() ==> t[j + d] == s[j],
    ensures
        spec_parse_expr(t, q + d) == shift_outcome(spec_parse_expr(s, q), d),
    decreases bytes_left(s, q), 1int,
{
    if q < s.len() && is_space(s[q]) {
        lemma_parse_expr_shift(s, t, d, q + 1);
        assert(spec_parse_expr(t, q + d) == spec_parse_expr(t, q + 1 + d));
    } else if q < s.len() && is_digit(s[q]) {
        lemma_digit_run_end_shift(s, t, d, q);
        lemma_digit_run_end(s, q);
        let end = digit_run_end(s, q);
        assert(t.subrange(q + d, end + d) =~= s.subrange(q, end)) by {
            assert forall|i: int| 0 <= i < end - q implies t.subrange(q + d, end + d)[i]
                == s.subrange(q, end)[i] by {
                assert(s.subrange(q, end)[i] == s[q + i]);
                assert(t.subrange(q + d, end + d)[i] == t[(q + i) + d]);
            }
        }
    } else {
        lemma_parse_op_shift(s, t, d, q);
    }
}

/// The operator rule's half of [`lemma_parse_expr_shift`].
proof fn lemma_parse_op_shift(s: Seq<u8>, t: Seq<u8>, d: int, q: int)
    requires
        0 <= q <= s.len(),
        0 <= q + d,
        s.len() + d == t.len(),
        forall|j: int| q <= j < s.len() ==> t[j + d] == s[j],
    ensures
        spec_parse_op(t, q + d) == shift_outcome(spec_parse_op(s, q), d),
    decreases bytes_left(s, q), 0int,
{
    if q < s.len() && is_op(s[q]) {
        lemma_parse_expr_shift(s, t, d, q + 1);
        if let Ok((p1, e1)) = spec_parse_expr(s, q + 1) {
            if q < p1 <= s.len() {
                lemma_parse_expr_shift(s, t, d, p1);
            }
        }
    }
}

} // verus!
