//! The byte hash that flows and backends are spread by.
use std::hash::Hasher;
use vstd::prelude::*;

verus! {

/// The hash of no bytes at all.
pub const HASH_START: u64 = 0xcbf2_9ce4_8422_2325;

/// What the hash is multiplied by after each byte.
pub const HASH_PRIME: u64 = 0x0100_0000_01b3;

/// One byte more: mix it in, multiply, keep the low 64 bits.
pub open spec fn hash_step(hash: u64, byte: u8) -> u64 {
    (((hash ^ (byte as u64)) * HASH_PRIME) % 0x1_0000_0000_0000_0000) as u64
}

/// The 64-bit FNV-1a hash of a string of bytes.
pub open spec fn fnv1a(bytes: Seq<u8>) -> u64
    decreases bytes.len(),
{
    if bytes.len() == 0 {
        HASH_START
    } else {
        hash_step(fnv1a(bytes.drop_last()), bytes.last())
    }
}

/// `fnv::FnvHasher`, started afresh, fed two slices one after the other and
/// finished. Claimed: the result is the FNV-1a hash of the two put together,
/// as the crate documents its algorithm.
#[verifier::external_body]
pub(crate) fn fnv_hash(first: &[u8], second: &[u8]) -> (h: u64)
    ensures
        h == fnv1a(first@ + second@),
{
    let mut hasher = fnv::FnvHasher::default();
    hasher.write(first);
    hasher.write(second);
    hasher.finish()
}

/// The hash starts from the offset basis, and each further byte is mixed into
/// the low octet before the hash is multiplied by the prime in 64 bits.
pub proof fn law_hash_of_one_byte_more(bytes: Seq<u8>, byte: u8)
    ensures
        fnv1a(Seq::empty()) == 14695981039346656037u64,
        fnv1a(bytes.push(byte)) == ((fnv1a(bytes) ^ (byte as u64)) * 1099511628211)
            % 0x1_0000_0000_0000_0000,
{
    assert(bytes.push(byte).drop_last() =~= bytes);
}

/// Multiplying by the prime can be undone in 64 bits.
proof fn lemma_product_tells(x: u64, y: u64)
    requires
        (x * HASH_PRIME) % 0x1_0000_0000_0000_0000 == (y * HASH_PRIME) % 0x1_0000_0000_0000_0000,
    ensures
        x == y,
{
    lemma_undone(x as int);
    lemma_undone(y as int);
}

proof fn lemma_undone(x: int)
    requires
        0 <= x < 0x1_0000_0000_0000_0000,
    ensures
        (((x * HASH_PRIME) % 0x1_0000_0000_0000_0000) * 0xce96_5057_aff6_957b)
            % 0x1_0000_0000_0000_0000 == x,
{
    let m = 0x1_0000_0000_0000_0000int;
    let inverse = 0xce96_5057_aff6_957bint;
    let p = HASH_PRIME as int;
    vstd::arithmetic::div_mod::lemma_mul_mod_noop_left(x * p, inverse, m);
    assert((x * p) * inverse == x * (p * inverse)) by (nonlinear_arith);
    assert(p * inverse == 887285111055int * m + 1);
    assert(x * (887285111055int * m + 1) == (x * 887285111055int) * m + x) by (nonlinear_arith)
        requires
            m == 0x1_0000_0000_0000_0000int,
    ;
    vstd::arithmetic::div_mod::lemma_fundamental_div_mod_converse(
        (x * p) * inverse,
        m,
        x * 887285111055int,
        x,
    );
}

/// A step loses nothing: it tells two hashes apart when the byte is the same,
/// and two bytes when the hash is the same.
pub proof fn law_step_loses_nothing(g: u64, h: u64, a: u8, b: u8)
    ensures
        hash_step(g, a) == hash_step(h, a) <==> g == h,
        hash_step(g, a) == hash_step(g, b) <==> a == b,
{
    if hash_step(g, a) == hash_step(h, a) {
        lemma_product_tells(g ^ (a as u64), h ^ (a as u64));
        assert(g ^ (a as u64) == h ^ (a as u64) ==> g == h) by (bit_vector);
    }
    if hash_step(g, a) == hash_step(g, b) {
        lemma_product_tells(g ^ (a as u64), g ^ (b as u64));
        assert(g ^ (a as u64) == g ^ (b as u64) ==> a == b) by (bit_vector);
    }
}

/// What follows hides no difference: with the same bytes behind them, two
/// strings hash alike exactly when they did so alone.
pub proof fn law_same_tail_keeps_hashes_apart(x: Seq<u8>, y: Seq<u8>, tail: Seq<u8>)
    ensures
        fnv1a(x + tail) == fnv1a(y + tail) <==> fnv1a(x) == fnv1a(y),
    decreases tail.len(),
{
    if tail.len() == 0 {
        assert(x + tail =~= x);
        assert(y + tail =~= y);
    } else {
        let front = tail.drop_last();
        law_same_tail_keeps_hashes_apart(x, y, front);
        assert((x + tail).drop_last() =~= x + front);
        assert((y + tail).drop_last() =~= y + front);
        law_step_loses_nothing(fnv1a(x + front), fnv1a(y + front), tail.last(), tail.last());
    }
}

/// Two strings that differ in one byte, wherever it is, hash differently.
pub proof fn law_one_byte_changes_the_hash(head: Seq<u8>, a: u8, b: u8, tail: Seq<u8>)
    ensures
        fnv1a(head.push(a) + tail) == fnv1a(head.push(b) + tail) <==> a == b,
{
    law_same_tail_keeps_hashes_apart(head.push(a), head.push(b), tail);
    assert(head.push(a).drop_last() =~= head);
    assert(head.push(b).drop_last() =~= head);
    law_step_loses_nothing(fnv1a(head), fnv1a(head), a, b);
}

} // verus!
