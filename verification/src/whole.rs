//! Whole numbers as doubles: their bits and their order.
use crate::number::Number;
use vstd::arithmetic::power2::{
    lemma2_to64, lemma2_to64_rest, lemma_pow2_adds, lemma_pow2_pos, lemma_pow2_unfold, pow2,
};
use vstd::prelude::*;

verus! {

/// Below this, every whole number is a double.
pub const WHOLE_LIMIT: u64 = 0x20_0000_0000_0000;

/// The distance between two powers of two, among the bits of doubles.
pub const OCTAVE: u64 = 0x10_0000_0000_0000;

/// The largest power of two in a whole number.
pub open spec fn exponent(n: nat) -> nat
    decreases n,
{
    if n <= 1 {
        0
    } else {
        1 + exponent(n / 2)
    }
}

/// The place of a whole number among the doubles: that of the power of two in
/// it, and then what is left of it.
pub open spec fn whole_place(n: nat) -> int {
    let e = exponent(n);
    (1023 + e) * OCTAVE + (n - pow2(e)) * pow2((52 - e) as nat)
}

/// A whole number as a double.
pub open spec fn whole(n: nat) -> Number {
    if n == 0 {
        Number::nought()
    } else {
        Number { bits: whole_place(n) as u64 }
    }
}

proof fn lemma_exponent(n: nat)
    requires
        n > 0,
    ensures
        pow2(exponent(n)) <= n < pow2(exponent(n) + 1),
    decreases n,
{
    lemma2_to64();
    if n > 1 {
        lemma_exponent(n / 2);
        lemma_pow2_unfold(exponent(n));
        lemma_pow2_unfold(exponent(n) + 1);
    }
}

proof fn lemma_powers_grow(a: nat, b: nat)
    requires
        a <= b,
    ensures
        pow2(a) <= pow2(b),
    decreases b,
{
    if a < b {
        lemma_powers_grow(a, (b - 1) as nat);
        lemma_pow2_unfold(b);
    }
}

proof fn lemma_exponent_below(n: nat)
    requires
        0 < n < WHOLE_LIMIT,
    ensures
        exponent(n) <= 52,
{
    lemma2_to64_rest();
    lemma_exponent(n);
    if exponent(n) > 52 {
        lemma_powers_grow(53, exponent(n));
    }
}

/// The place of a whole number lies in the octave of its power of two.
proof fn lemma_octave(n: nat)
    requires
        0 < n < WHOLE_LIMIT,
    ensures
        (1023 + exponent(n)) * OCTAVE <= whole_place(n) < (1024 + exponent(n)) * OCTAVE,
{
    let e = exponent(n);
    lemma2_to64_rest();
    lemma_exponent(n);
    lemma_exponent_below(n);
    lemma_pow2_adds(e, (52 - e) as nat);
    lemma_pow2_unfold(e + 1);
    lemma_pow2_pos((52 - e) as nat);
    let rest = n - pow2(e);
    let unit = pow2((52 - e) as nat) as int;
    let power = pow2(e) as int;
    assert(0 <= rest * unit < power * unit) by (nonlinear_arith)
        requires
            0 <= rest < power,
            unit > 0,
    ;
    assert((1024 + e) * OCTAVE == (1023 + e) * OCTAVE + OCTAVE) by (nonlinear_arith);
}

proof fn lemma_place_grows(a: nat, b: nat)
    requires
        0 < a < b < WHOLE_LIMIT,
    ensures
        whole_place(a) < whole_place(b),
{
    let d = exponent(a);
    let e = exponent(b);
    lemma_octave(a);
    lemma_octave(b);
    lemma_exponent(a);
    lemma_exponent(b);
    if d == e {
        lemma_pow2_pos((52 - e) as nat);
        let unit = pow2((52 - e) as nat) as int;
        let power = pow2(e) as int;
        assert((a - power) * unit < (b - power) * unit) by (nonlinear_arith)
            requires
                a < b,
                unit > 0,
        ;
    } else if d > e {
        lemma_powers_grow(e + 1, d);
    } else {
        assert((1024 + d) * OCTAVE <= (1023 + e) * OCTAVE) by (nonlinear_arith)
            requires
                d + 1 <= e,
        ;
    }
}

/// A whole number is a number, and its place is that among the doubles.
pub proof fn lemma_whole_is_a_number(n: nat)
    requires
        n < WHOLE_LIMIT,
    ensures
        whole(n).is_number(),
        whole(n).place() == if n == 0 {
            0
        } else {
            whole_place(n)
        },
        n > 0 ==> whole(n).place() >= 1023 * OCTAVE,
{
    if n > 0 {
        lemma_octave(n);
        lemma_exponent_below(n);
        let e = exponent(n);
        assert((1024 + e) * OCTAVE <= 1076 * OCTAVE) by (nonlinear_arith)
            requires
                e <= 52,
        ;
        assert((1023 + e) * OCTAVE >= 1023 * OCTAVE) by (nonlinear_arith);
    }
}

/// Whole numbers are ordered as doubles as they are.
pub proof fn law_whole_numbers_keep_their_order(a: nat, b: nat)
    requires
        a < WHOLE_LIMIT,
        b < WHOLE_LIMIT,
    ensures
        whole(a).at_most(whole(b)) <==> a <= b,
        whole(a).below(whole(b)) <==> a < b,
        whole(a) == whole(b) <==> a == b,
{
    lemma_whole_is_a_number(a);
    lemma_whole_is_a_number(b);
    if 0 < a < b {
        lemma_place_grows(a, b);
    }
    if 0 < b < a {
        lemma_place_grows(b, a);
    }
}

} // verus!
