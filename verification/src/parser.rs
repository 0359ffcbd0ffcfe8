//! The executable recursive-descent parser. Each rule takes the input and a
//! byte cursor and returns either the cursor just past what it consumed
//! together with the node it built, or an error with the cursor it was given.
//! Every rule is proved to return exactly what the mathematical grammar in
//! [`crate::grammar`] says.

use vstd::prelude::*;

use crate::ast::{CharClass, Expr, ParseError};
use crate::grammar::{
    bytes_left, digit_run_end, is_digit, lemma_digit_run_end, lemma_parse_expr_advances,
    lemma_val_of_extend, lemma_val_of_step, outcome_of, spec_parse_expr, spec_parse_num,
    spec_parse_op, val_of,
};

verus! {

/// The literal rule: consume the maximal run of ASCII digits at `pos` (at
/// least one) and build a `Num` node from its decimal value. Fails with
/// `NoMatch` when `pos` holds no digit and with `Overflow` when the run's
/// value does not fit in `u64`; either way the cursor is not advanced.
pub fn parse_num(s: &[u8], pos: usize) -> (r: Result<(usize, Expr), ParseError>)
    requires
        pos <= s@.len(),
    ensures
        outcome_of(r) == spec_parse_num(s@, pos as int),
{
    proof {
        lemma_digit_run_end(s@, pos as int);
    }
    let mut i: usize = pos;
    while i < s.len() && 48 <= s[i] && s[i] <= 57
        invariant
            pos <= i <= s@.len(),
            digit_run_end(s@, pos as int) == digit_run_end(s@, i as int),
        decreases s@.len() - i,
    {
        i = i + 1;
    }
    assert(i as int == digit_run_end(s@, pos as int));
    if i == pos {
        return Err(ParseError::NoMatch(CharClass::Digit, pos));
    }
    proof {
        assert(s@.subrange(pos as int, pos as int) =~= Seq::<u8>::empty());
    }
    let mut val: u64 = 0;
    let mut j: usize = pos;
    while j < i
        invariant
            pos <= j <= i <= s@.len(),
            i as int == digit_run_end(s@, pos as int),
            forall|k: int| pos <= k < i ==> is_digit(s@[k]),
            val == val_of(s@.subrange(pos as int, j as int)),
        decreases i - j,
    {
        proof {
            lemma_val_of_step(s@, pos as int, j as int);
        }
        let d: u64 = (s[j] - 48) as u64;
        let next: Option<u64> = match val.checked_mul(10) {
            Some(v10) => v10.checked_add(d),
            None => None,
        };
        match next {
            Some(v) => {
                val = v;
                j = j + 1;
            },
            None => {
                proof {
                    lemma_val_of_extend(s@, pos as int, j as int + 1, i as int);
                }
                return Err(ParseError::Overflow(pos));
            },
        }
    }
    Ok((i, Expr::Num(val)))
}

/// The operator rule: consume one `+` or `*` at `pos`, then two expressions
/// in sequence, the second starting exactly where the first ended, and wrap
/// them in an `Add` or `Mul` node by the operator symbol. Fails with
/// `NoMatch` when `pos` holds neither symbol; a failing operand parse
/// propagates unchanged, and no partial node survives it.
pub fn parse_op(s: &[u8], pos: usize) -> (r: Result<(usize, Expr), ParseError>)
    requires
        pos <= s@.len(),
    ensures
        outcome_of(r) == spec_parse_op(s@, pos as int),
    decreases bytes_left(s@, pos as int), 0int,
{
    if pos < s.len() && (s[pos] == 43 || s[pos] == 42) {
        let op = s[pos];
        match parse_expr(s, pos + 1) {
            Ok((p1, e1)) => {
                proof {
                    lemma_parse_expr_advances(s@, pos as int + 1);
                }
                match parse_expr(s, p1) {
                    Ok((p2, e2)) => if op == 43 {
                        Ok((p2, Expr::Add(Box::new(e1), Box::new(e2))))
                    } else {
                        Ok((p2, Expr::Mul(Box::new(e1), Box::new(e2))))
                    },
                    Err(e) => Err(e),
                }
            },
            Err(e) => Err(e),
        }
    } else {
        Err(ParseError::NoMatch(CharClass::Operator, pos))
    }
}

/// The expression rule, the grammar's sole entry point: skip any spaces,
/// then parse a literal if a digit follows and an operator expression
/// otherwise. On failure the reported cursor is the post-whitespace
/// position.
pub fn parse_expr(s: &[u8], pos: usize) -> (r: Result<(usize, Expr), ParseError>)
    requires
        pos <= s@.len(),
    ensures
        outcome_of(r) == spec_parse_expr(s@, pos as int),
    decreases bytes_left(s@, pos as int), 1int,
{
    let mut p: usize = pos;
    while p < s.len() && s[p] == 32
        invariant
            pos <= p <= s@.len(),
            spec_parse_expr(s@, pos as int) == spec_parse_expr(s@, p as int),
        decreases s@.len() - p,
    {
        p = p + 1;
    }
    if p < s.len() && 48 <= s[p] && s[p] <= 57 {
        parse_num(s, p)
    } else {
        parse_op(s, p)
    }
}

/// Parses one expression from the start of `s`: the library's entry point.
/// On success the returned cursor marks the unconsumed remainder of the
/// input; on failure no partial tree is returned and the error names the
/// character class that was missing, or reports a literal too large for
/// `u64`.
pub fn parse(s: &[u8]) -> (r: Result<(usize, Expr), ParseError>)
    ensures
        outcome_of(r) == spec_parse_expr(s@, 0),
{
    parse_expr(s, 0)
}

} // verus!
