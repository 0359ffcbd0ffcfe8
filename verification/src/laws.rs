//! The language-level laws of the parser, proved over the mathematical
//! grammar that the executable functions' contracts are stated against:
//! digit strings parse to their numeric value, inputs that start with a
//! foreign character fail, leading spaces never change the result, and
//! parsing a rendering gives the rendered expression back.

use vstd::prelude::*;

use crate::ast::{CharClass, Expr};
use crate::grammar::{
    digit_run_end, is_digit, is_op, is_space, lemma_digit_run_end, lemma_parse_expr_shift,
    shift_outcome, spec_parse_expr, spec_parse_num, spec_parse_op, val_of, GrammarError,
};
use crate::render::{
    dec_digits, lemma_dec_digits_are_digits, lemma_val_of_dec_digits, spec_render,
};

verus! {

/// A non-empty string of digits whose value fits in `u64` parses completely:
/// nothing remains, and the node is the literal holding the string's value.
pub proof fn lemma_digit_string_parses(s: Seq<u8>)
    requires
        s.len() >= 1,
        forall|i: int| 0 <= i < s.len() ==> is_digit(s[i]),
        val_of(s) <= u64::MAX,
    ensures
        spec_parse_expr(s, 0) == Ok::<(int, Expr), GrammarError>(
            (s.len() as int, Expr::Num(val_of(s) as u64)),
        ),
{
    lemma_digit_run_end(s, 0);
    assert(digit_run_end(s, 0) == s.len());
    assert(s.subrange(0, s.len() as int) =~= s);
}

/// An input whose first byte is not a digit, an operator symbol, or a space
/// fails to parse; no rule matches it.
pub proof fn lemma_bad_start_fails(s: Seq<u8>)
    requires
        s.len() >= 1,
        !is_digit(s[0]),
        !is_op(s[0]),
        !is_space(s[0]),
    ensures
        spec_parse_expr(s, 0) == Err::<(int, Expr), GrammarError>(
            GrammarError::NoMatch(CharClass::Operator, 0),
        ),
{
    assert(spec_parse_expr(s, 0) == spec_parse_op(s, 0));
    assert(spec_parse_op(s, 0) == Err::<(int, Expr), GrammarError>(
        GrammarError::NoMatch(CharClass::Operator, 0),
    ));
}

/// Spaces before an expression are consumed and have no effect on the
/// result: parsing from `pos` and parsing from the far end of a run of
/// spaces that starts at `pos` are the same.
pub proof fn lemma_leading_spaces_ignored(s: Seq<u8>, pos: int, q: int)
    requires
        0 <= pos <= q <= s.len(),
        forall|i: int| pos <= i < q ==> is_space(s[i]),
    ensures
        spec_parse_expr(s, pos) == spec_parse_expr(s, q),
    decreases q - pos,
{
    if pos < q {
        lemma_leading_spaces_ignored(s, pos + 1, q);
    }
}

/// Spaces prepended to a whole input are consumed and do not affect the
/// resulting node: parsing `pad + s` is parsing `s`, with every reported
/// cursor moved past the padding. In particular the two parses succeed
/// together and build the same tree.
pub proof fn lemma_prepended_spaces_same_node(pad: Seq<u8>, s: Seq<u8>)
    requires
        forall|i: int| 0 <= i < pad.len() ==> is_space(pad[i]),
    ensures
        spec_parse_expr(pad + s, 0) == shift_outcome(spec_parse_expr(s, 0), pad.len() as int),
{
    let t = pad + s;
    assert forall|i: int| 0 <= i < pad.len() implies is_space(t[i]) by {
        assert(t[i] == pad[i]);
    }
    lemma_leading_spaces_ignored(t, 0, pad.len() as int);
    assert forall|j: int| 0 <= j < s.len() implies t[j + pad.len() as int] == s[j] by {
        assert(t[pad.len() + j] == s[j]);
    }
    lemma_parse_expr_shift(s, t, pad.len() as int, 0);
}

/// The digit run starting at `pos` ends exactly at `end` when `[pos, end)`
/// holds digits only and `end` is past the input or holds a non-digit.
proof fn lemma_digit_run_exact(s: Seq<u8>, pos: int, end: int)
    requires
        0 <= pos <= end <= s.len(),
        forall|i: int| pos <= i < end ==> is_digit(s[i]),
        end == s.len() || !is_digit(s[end]),
    ensures
        digit_run_end(s, pos) == end,
    decreases end - pos,
{
    if pos < end {
        lemma_digit_run_exact(s, pos + 1, end);
    }
}

/// Parsing at a rendering of `e` embedded in `s` — provided no digit
/// directly follows it, which would extend its final literal — consumes
/// exactly the rendering and rebuilds `e`.
pub proof fn lemma_parse_render_at(e: Expr, s: Seq<u8>, pos: int)
    requires
        0 <= pos,
        pos + spec_render(e).len() <= s.len(),
        s.subrange(pos, pos + spec_render(e).len()) == spec_render(e),
        pos + spec_render(e).len() == s.len() || !is_digit(s[pos + spec_render(e).len()]),
    ensures
        spec_parse_expr(s, pos) == Ok::<(int, Expr), GrammarError>(
            (pos + spec_render(e).len(), e),
        ),
    decreases e, 1int,
{
    let rend = spec_render(e);
    match e {
        Expr::Num(n) => {
            lemma_dec_digits_are_digits(n as nat);
            lemma_val_of_dec_digits(n as nat);
            assert(s.subrange(pos, pos + rend.len()) == dec_digits(n as nat));
            assert forall|i: int| pos <= i < pos + rend.len() implies is_digit(s[i]) by {
                assert(s.subrange(pos, pos + rend.len())[i - pos] == s[i]);
                assert(is_digit(rend[i - pos]));
            }
            lemma_digit_run_exact(s, pos, pos + rend.len());
            assert(is_digit(s[pos])) by {
                assert(s.subrange(pos, pos + rend.len())[0] == s[pos]);
            }
            assert(spec_parse_num(s, pos) == Ok::<(int, Expr), GrammarError>(
                (pos + rend.len(), Expr::Num(n)),
            ));
        },
        Expr::Add(_, _) => {
            lemma_parse_render_op(e, s, pos);
        },
        Expr::Mul(_, _) => {
            lemma_parse_render_op(e, s, pos);
        },
    }
}

/// The operator-node half of [`lemma_parse_render_at`]: `e` is an `Add` or
/// `Mul` node whose rendering sits in `s` at `pos`.
proof fn lemma_parse_render_op(e: Expr, s: Seq<u8>, pos: int)
    requires
        0 <= pos,
        e is Add || e is Mul,
        pos + spec_render(e).len() <= s.len(),
        s.subrange(pos, pos + spec_render(e).len()) == spec_render(e),
        pos + spec_render(e).len() == s.len() || !is_digit(s[pos + spec_render(e).len()]),
    ensures
        spec_parse_expr(s, pos) == Ok::<(int, Expr), GrammarError>(
            (pos + spec_render(e).len(), e),
        ),
    decreases e, 0int,
{
    let rend = spec_render(e);
    let (sym, l, r) = match e {
        Expr::Add(l, r) => (43u8, l, r),
        Expr::Mul(l, r) => (42u8, l, r),
        Expr::Num(_) => (0u8, Box::new(e), Box::new(e)),
    };
    let rl = spec_render(*l);
    let rr = spec_render(*r);
    assert(rend =~= seq![sym, 32u8] + rl + seq![32u8] + rr);
    assert(s[pos] == sym) by {
        assert(s.subrange(pos, pos + rend.len())[0] == s[pos]);
        assert(rend[0] == sym);
    }
    assert(s[pos + 1] == 32) by {
        assert(s.subrange(pos, pos + rend.len())[1] == s[pos + 1]);
        assert(rend[1] == 32);
    }

    // the left operand: one space after the symbol, then its rendering,
    // then the separating space, which is no digit
    let p1 = pos + 2 + rl.len();
    lemma_leading_spaces_ignored(s, pos + 1, pos + 2);
    assert(s.subrange(pos + 2, p1) =~= rl) by {
        assert forall|i: int| 0 <= i < rl.len() implies s.subrange(pos + 2, p1)[i] == rl[i] by {
            assert(s.subrange(pos, pos + rend.len())[2 + i] == s[pos + 2 + i]);
            assert(rend[2 + i] == rl[i]);
            assert(s.subrange(pos + 2, p1)[i] == s[pos + 2 + i]);
        }
    }
    assert(s[p1] == 32) by {
        assert(s.subrange(pos, pos + rend.len())[2 + rl.len() as int] == s[p1]);
        assert(rend[2 + rl.len() as int] == 32);
    }
    lemma_parse_render_at(*l, s, pos + 2);
    assert(spec_parse_expr(s, pos + 1) == Ok::<(int, Expr), GrammarError>((p1, *l)));

    // the right operand: one space past where the left one ended, then its
    // rendering, which the requires bounds on the right
    let p2 = p1 + 1 + rr.len();
    assert(p2 == pos + rend.len());
    lemma_leading_spaces_ignored(s, p1, p1 + 1);
    assert(s.subrange(p1 + 1, p2) =~= rr) by {
        assert forall|i: int| 0 <= i < rr.len() implies s.subrange(p1 + 1, p2)[i] == rr[i] by {
            assert(s.subrange(pos, pos + rend.len())[3 + rl.len() as int + i] == s[p1 + 1 + i]);
            assert(rend[3 + rl.len() as int + i] == rr[i]);
            assert(s.subrange(p1 + 1, p2)[i] == s[p1 + 1 + i]);
        }
    }
    lemma_parse_render_at(*r, s, p1 + 1);
    assert(spec_parse_expr(s, p1) == Ok::<(int, Expr), GrammarError>((p2, *r)));

    assert(spec_parse_op(s, pos) == Ok::<(int, Expr), GrammarError>((p2, e)));
}

/// The round-trip law: rendering any expression to prefix notation and
/// parsing the rendering back yields the expression, with nothing left over.
pub proof fn lemma_render_round_trip(e: Expr)
    ensures
        spec_parse_expr(spec_render(e), 0) == Ok::<(int, Expr), GrammarError>(
            (spec_render(e).len() as int, e),
        ),
{
    assert(spec_render(e).subrange(0, spec_render(e).len() as int) =~= spec_render(e));
    lemma_parse_render_at(e, spec_render(e), 0);
}

} // verus!
