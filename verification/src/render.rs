//! Rendering an expression back to prefix notation: the inverse of parsing.
//! A literal becomes its decimal digits; an `Add` or `Mul` node becomes its
//! symbol and its two rendered operands, the three separated by single
//! spaces, so `Mul(Add(Num(1), Num(3)), Num(2))` renders as `* + 1 3 2`.
//! [`crate::laws`] proves that parsing a rendering gives the original node
//! back.

use vstd::prelude::*;

use crate::ast::Expr;
use crate::grammar::{digit_val, is_digit, val_of};

verus! {

/// The decimal digits of `n`, most significant first, with no leading zero
/// (zero itself is the single digit `0`).
pub open spec fn dec_digits(n: nat) -> Seq<u8>
    decreases n,
{
    if n < 10 {
        seq![(48 + n) as u8]
    } else {
        dec_digits(n / 10).push((48 + n % 10) as u8)
    }
}

/// The rendering of `e` in prefix notation.
pub open spec fn spec_render(e: Expr) -> Seq<u8>
    decreases e,
{
    match e {
        Expr::Num(n) => dec_digits(n as nat),
        Expr::Add(l, r) => seq![43u8, 32u8] + spec_render(*l) + seq![32u8] + spec_render(*r),
        Expr::Mul(l, r) => seq![42u8, 32u8] + spec_render(*l) + seq![32u8] + spec_render(*r),
    }
}

/// A rendered number is a non-empty run of digits.
pub proof fn lemma_dec_digits_are_digits(n: nat)
    ensures
        dec_digits(n).len() >= 1,
        forall|i: int| 0 <= i < dec_digits(n).len() ==> is_digit(dec_digits(n)[i]),
    decreases n,
{
    if n >= 10 {
        lemma_dec_digits_are_digits(n / 10);
    }
}

/// Reading the decimal digits of `n` back as a number gives `n`.
pub proof fn lemma_val_of_dec_digits(n: nat)
    ensures
        val_of(dec_digits(n)) == n,
    decreases n,
{
    if n < 10 {
        assert(dec_digits(n).drop_last() =~= Seq::<u8>::empty());
        assert(val_of(Seq::<u8>::empty()) == 0);
        assert(digit_val(dec_digits(n).last()) == n);
    } else {
        lemma_val_of_dec_digits(n / 10);
        assert(dec_digits(n).drop_last() =~= dec_digits(n / 10));
        assert(digit_val(dec_digits(n).last()) == n % 10);
        vstd::arithmetic::div_mod::lemma_fundamental_div_mod(n as int, 10);
    }
}

/// Writes the decimal digits of `n`, most significant first, onto the end of
/// `out`.
fn push_digits(n: u64, out: &mut Vec<u8>)
    ensures
        final(out)@ == old(out)@ + dec_digits(n as nat),
    decreases n,
{
    if n < 10 {
        out.push((48 + n) as u8);
        assert(out@ =~= old(out)@ + dec_digits(n as nat));
    } else {
        push_digits(n / 10, out);
        out.push((48 + (n % 10)) as u8);
        assert(out@ =~= old(out)@ + dec_digits(n as nat));
    }
}

/// Renders `e` in prefix notation, as [`spec_render`] describes it.
pub fn to_prefix(e: &Expr) -> (r: Vec<u8>)
    ensures
        r@ == spec_render(*e),
    decreases *e,
{
    match e {
        Expr::Num(n) => {
            let mut out: Vec<u8> = Vec::new();
            push_digits(*n, &mut out);
            assert(out@ =~= spec_render(*e));
            out
        },
        Expr::Add(l, r) => {
            let mut out: Vec<u8> = Vec::new();
            out.push(43);
            out.push(32);
            let mut lv = to_prefix(&**l);
            out.append(&mut lv);
            out.push(32);
            let mut rv = to_prefix(&**r);
            out.append(&mut rv);
            assert(out@ =~= spec_render(*e));
            out
        },
        Expr::Mul(l, r) => {
            let mut out: Vec<u8> = Vec::new();
            out.push(42);
            out.push(32);
            let mut lv = to_prefix(&**l);
            out.append(&mut lv);
            out.push(32);
            let mut rv = to_prefix(&**r);
            out.append(&mut rv);
            assert(out@ =~= spec_render(*e));
            out
        },
    }
}

} // verus!
