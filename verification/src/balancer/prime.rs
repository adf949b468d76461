//! Why a walk with a fixed stride meets every slot of the lookup table: the
//! table's size is a prime number.
use vstd::arithmetic::div_mod::{
    lemma_fundamental_div_mod, lemma_fundamental_div_mod_converse, lemma_mod_bound,
};
use vstd::prelude::*;

verus! {

/// The number of slots of a lookup table.
pub const TABLE_SIZE: usize = 65537;

/// The table size has no divisor besides one and itself.
pub proof fn law_table_size_is_prime(d: int)
    requires
        2 <= d < TABLE_SIZE,
    ensures
        TABLE_SIZE as int % d != 0,
{
    let p = TABLE_SIZE as int;
    if p % d == 0 {
        let q = p / d;
        lemma_fundamental_div_mod(p, d);
        assert(p == d * q);
        if d <= 256 {
            let k = d as u32;
            assert(2 <= k <= 256 ==> 65537u32 % k != 0) by (bit_vector);
        } else {
            assert(2 <= q <= 256) by (nonlinear_arith)
                requires
                    65537 == d * q,
                    257 <= d < 65537,
            ;
            lemma_fundamental_div_mod_converse(p, q, d, 0);
            let k = q as u32;
            assert(2 <= k <= 256 ==> 65537u32 % k != 0) by (bit_vector);
        }
    }
}

/// A product of two positive numbers below the table size is no multiple of
/// the table size.
pub proof fn lemma_no_product_is_a_multiple(k: int, s: int)
    requires
        0 < k < TABLE_SIZE,
        0 < s < TABLE_SIZE,
    ensures
        (k * s) % (TABLE_SIZE as int) != 0,
    decreases s,
{
    let p = TABLE_SIZE as int;
    if (k * s) % p == 0 {
        if s == 1 {
            assert(k % p == k) by (nonlinear_arith)
                requires
                    0 < k < p,
            ;
        } else {
            law_table_size_is_prime(s);
            let q = p / s;
            let r = p % s;
            lemma_fundamental_div_mod(p, s);
            lemma_mod_bound(p, s);
            let m = (k * s) / p;
            lemma_fundamental_div_mod(k * s, p);
            assert(k * r == p * (k - q * m)) by (nonlinear_arith)
                requires
                    p == s * q + r,
                    k * s == p * m,
            ;
            lemma_fundamental_div_mod_converse(k * r, p, k - q * m, 0);
            lemma_no_product_is_a_multiple(k, r);
        }
    }
}

} // verus!
