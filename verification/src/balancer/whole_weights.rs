//! Weighted round robin where the weights are whole numbers.
use crate::balancer::backend::UdpBackend;
use crate::balancer::wrr;
use crate::balancer::wrr::{Position, EPSILON_BITS};
use crate::number::Number;
use crate::whole;
use crate::whole::{whole, WHOLE_LIMIT};
use vstd::arithmetic::div_mod::{
    lemma_fundamental_div_mod, lemma_fundamental_div_mod_converse, lemma_mod_bound,
    lemma_mod_multiples_basic, lemma_mod_self_0, lemma_small_mod,
};
use vstd::prelude::*;

verus! {

/// `f` subtracts whole numbers as doubles do: exactly, and below zero where the
/// second is the larger.
pub open spec fn subtracts(f: spec_fn(Number, Number) -> Number) -> bool {
    forall|a: nat, b: nat|
        a < WHOLE_LIMIT && b < WHOLE_LIMIT ==> {
            let difference = #[trigger] f(whole(a), whole(b));
            if b <= a {
                difference == whole((a - b) as nat)
            } else {
                difference.at_most(Number::nought())
            }
        }
}

/// `r` gives the rest of a division of whole numbers as doubles do: exactly.
pub open spec fn gives_rests(r: spec_fn(Number, Number) -> Number) -> bool {
    forall|a: nat, b: nat|
        a < WHOLE_LIMIT && 0 < b < WHOLE_LIMIT ==> #[trigger] r(whole(a), whole(b)) == whole(a % b)
}

/// The greatest common divisor of two whole numbers, and the other one where
/// one of them is zero.
pub open spec fn gcd(a: nat, b: nat) -> nat
    decreases b,
{
    if b == 0 {
        a
    } else {
        gcd(b, a % b)
    }
}

/// The greatest common divisor of the first `n` weights.
pub open spec fn gcd_of(w: Seq<nat>, n: nat) -> nat
    decreases n,
{
    if n == 0 {
        0
    } else {
        gcd(gcd_of(w, (n - 1) as nat), w[n - 1])
    }
}

/// The first `n` weights together.
pub open spec fn sum_of(w: Seq<nat>, n: nat) -> nat
    decreases n,
{
    if n == 0 {
        0
    } else {
        sum_of(w, (n - 1) as nat) + w[n - 1]
    }
}

/// The backends weigh these whole numbers, one at least.
pub open spec fn weigh(pool: Seq<UdpBackend>, w: Seq<nat>) -> bool {
    &&& w.len() == pool.len()
    &&& forall|j: int|
        0 <= j < pool.len() ==> 1 <= (#[trigger] w[j]) < WHOLE_LIMIT && pool[j].weight == whole(w[j])
}

proof fn lemma_multiple(k: int, d: int)
    requires
        d > 0,
    ensures
        (k * d) % d == 0,
        (k * d) / d == k,
{
    lemma_mod_multiples_basic(k, d);
    lemma_fundamental_div_mod_converse(k * d, d, k, 0);
}

proof fn lemma_times_quotient(n: nat, d: nat)
    requires
        d > 0,
        n % d == 0,
    ensures
        n == (n / d) * d,
{
    lemma_fundamental_div_mod(n as int, d as int);
    assert(d * (n / d) == (n / d) * d) by (nonlinear_arith);
}

proof fn lemma_gcd_divides(a: nat, b: nat)
    requires
        a > 0 || b > 0,
    ensures
        gcd(a, b) > 0,
        a % gcd(a, b) == 0,
        b % gcd(a, b) == 0,
    decreases b,
{
    if b == 0 {
        lemma_mod_self_0(a as int);
        lemma_small_mod(0, a);
    } else {
        let r = a % b;
        lemma_mod_bound(a as int, b as int);
        lemma_gcd_divides(b, r);
        let d = gcd(b, r);
        lemma_times_quotient(b, d);
        lemma_times_quotient(r, d);
        lemma_fundamental_div_mod(a as int, b as int);
        let q = a / b;
        let kb = b / d;
        let kr = r / d;
        assert(a == (q * kb + kr) * d) by (nonlinear_arith)
            requires
                a == b * q + r,
                b == kb * d,
                r == kr * d,
        ;
        lemma_multiple((q * kb + kr) as int, d as int);
    }
}

proof fn lemma_divides_further(n: nat, d: nat, e: nat)
    requires
        d > 0,
        e > 0,
        n % d == 0,
        d % e == 0,
    ensures
        n % e == 0,
{
    lemma_times_quotient(n, d);
    lemma_times_quotient(d, e);
    let a = n / d;
    let b = d / e;
    assert(n == (a * b) * e) by (nonlinear_arith)
        requires
            n == a * d,
            d == b * e,
    ;
    lemma_multiple((a * b) as int, e as int);
}

proof fn lemma_gcd_of(w: Seq<nat>, n: nat)
    requires
        n <= w.len(),
        forall|j: int| 0 <= j < n ==> 1 <= (#[trigger] w[j]) < WHOLE_LIMIT,
    ensures
        gcd_of(w, n) < WHOLE_LIMIT,
        n > 0 ==> gcd_of(w, n) > 0,
        n > 0 ==> forall|j: int| 0 <= j < n ==> (#[trigger] w[j]) % gcd_of(w, n) == 0,
    decreases n,
{
    if n > 0 {
        let m = (n - 1) as nat;
        let before = gcd_of(w, m);
        let g = gcd_of(w, n);
        lemma_gcd_of(w, m);
        lemma_gcd_divides(before, w[n - 1]);
        lemma_times_quotient(w[n - 1], g);
        assert(g <= w[n - 1]) by (nonlinear_arith)
            requires
                w[n - 1] == (w[n - 1] / g) * g,
                w[n - 1] > 0,
                g > 0,
        ;
        assert forall|j: int| 0 <= j < n implies (#[trigger] w[j]) % g == 0 by {
            if j < m {
                lemma_divides_further(w[j], before, g);
            }
        }
    }
}

/// Euclid's algorithm on doubles that are whole finds the greatest common
/// divisor.
pub proof fn law_divisors_of_whole_numbers(
    a: nat,
    b: nat,
    r: spec_fn(Number, Number) -> Number,
)
    requires
        a < WHOLE_LIMIT,
        b < WHOLE_LIMIT,
        gives_rests(r),
    ensures
        wrr::divisor(whole(a), whole(b), r) == whole(gcd(a, b)),
    decreases b,
{
    whole::lemma_whole_is_a_number(b);
    assert((Number { bits: EPSILON_BITS }).at_most(whole(b)) <==> b > 0);
    if b > 0 {
        lemma_mod_bound(a as int, b as int);
        assert(r(whole(a), whole(b)) == whole(a % b));
        whole::law_whole_numbers_keep_their_order(a % b, b);
        law_divisors_of_whole_numbers(b, a % b, r);
    }
}

proof fn lemma_common_divisor(
    pool: Seq<UdpBackend>,
    w: Seq<nat>,
    r: spec_fn(Number, Number) -> Number,
    n: nat,
)
    requires
        weigh(pool, w),
        gives_rests(r),
        n <= pool.len(),
    ensures
        wrr::common_divisor(pool, r, n) == whole(gcd_of(w, n)),
    decreases n,
{
    if n > 0 {
        let m = (n - 1) as nat;
        lemma_common_divisor(pool, w, r, m);
        lemma_gcd_of(w, m);
        assert(w[n - 1] >= 1);
        law_divisors_of_whole_numbers(gcd_of(w, m), w[n - 1], r);
    }
}

proof fn lemma_largest_is_largest(pool: Seq<UdpBackend>, w: Seq<nat>, n: nat)
    requires
        weigh(pool, w),
        n <= pool.len(),
    ensures
        wrr::largest_weight(pool, n).is_number(),
        n > 0 ==> !wrr::largest_weight(pool, n).at_most(Number::nought()),
        forall|j: int|
            0 <= j < n ==> (#[trigger] pool[j]).weight.at_most(wrr::largest_weight(pool, n)),
    decreases n,
{
    if n > 0 {
        lemma_largest_is_largest(pool, w, (n - 1) as nat);
        assert(w[n - 1] >= 1);
        whole::lemma_whole_is_a_number(w[n - 1]);
    }
}

/// `x` is `m` times `g`, as a double.
spec fn is_multiple(x: Number, g: nat, m: nat) -> bool {
    m > 0 && m * g < WHOLE_LIMIT && x == whole(m * g)
}

/// How many times `g` goes into a whole number, none where it does not.
spec fn steps_in(x: Number, g: nat) -> int {
    if exists|m: nat| is_multiple(x, g, m) {
        (choose|m: nat| is_multiple(x, g, m)) as int
    } else {
        0
    }
}

proof fn lemma_steps(g: nat, m: nat)
    requires
        g > 0,
        m * g < WHOLE_LIMIT,
    ensures
        steps_in(whole(m * g), g) == m,
{
    let x = whole(m * g);
    if m > 0 {
        assert(is_multiple(x, g, m));
    }
    if exists|k: nat| is_multiple(x, g, k) {
        let k = choose|k: nat| is_multiple(x, g, k);
        whole::law_whole_numbers_keep_their_order(m * g, k * g);
        assert(m == k) by (nonlinear_arith)
            requires
                m * g == k * g,
                g > 0,
        ;
    } else {
        assert(m == 0);
    }
}

proof fn lemma_at_most_by_steps(g: nat, m: nat, k: nat)
    requires
        g > 0,
        m * g < WHOLE_LIMIT,
        k * g < WHOLE_LIMIT,
    ensures
        whole(m * g).at_most(whole(k * g)) <==> m <= k,
{
    whole::law_whole_numbers_keep_their_order(m * g, k * g);
    assert(m * g <= k * g <==> m <= k) by (nonlinear_arith)
        requires
            g > 0,
    ;
}

proof fn lemma_whole_steps(
    pool: Seq<UdpBackend>,
    w: Seq<nat>,
    g: nat,
    f: spec_fn(Number, Number) -> Number,
)
    requires
        pool.len() > 0,
        weigh(pool, w),
        g == gcd_of(w, w.len()),
        subtracts(f),
    ensures
        wrr::whole_steps(
            pool,
            wrr::largest_weight(pool, pool.len()),
            whole(g),
            f,
            |x: Number| steps_in(x, g),
        ),
        forall|j: int|
            0 <= j < pool.len() ==> steps_in((#[trigger] pool[j]).weight, g) == w[j] / g,
{
    let n = pool.len();
    let max = wrr::largest_weight(pool, n);
    let units = |x: Number| steps_in(x, g);
    lemma_gcd_of(w, n);
    lemma_largest_is_largest(pool, w, n);
    let h = wrr::lemma_largest_is_there(pool, n);
    assert forall|j: int| 0 <= j < n implies steps_in((#[trigger] pool[j]).weight, g) == w[j] / g
        && pool[j].weight == whole((w[j] / g) * g) && (w[j] / g) * g < WHOLE_LIMIT && w[j] / g
        > 0 by {
        assert(w[j] >= 1);
        lemma_times_quotient(w[j], g);
        lemma_steps(g, w[j] / g);
        assert(w[j] / g > 0) by (nonlinear_arith)
            requires
                w[j] == (w[j] / g) * g,
                w[j] > 0,
        ;
    }
    let top = w[h] / g;
    assert(pool[h].weight == whole(top * g));
    assert(units(max) == top);
    assert forall|x: Number| 0 < units(x) <= units(max) implies units(#[trigger] f(x, whole(g)))
        == units(x) - 1 && (f(x, whole(g)).at_most(Number::nought()) <==> units(x) == 1) by {
        let m = choose|m: nat| is_multiple(x, g, m);
        assert(is_multiple(x, g, m));
        let less = (m - 1) as nat;
        assert(m * g == less * g + g) by (nonlinear_arith)
            requires
                m == less + 1,
        ;
        assert(less * g >= 0) by (nonlinear_arith);
        assert(f(whole(m * g), whole(g)) == whole((m * g - g) as nat));
        lemma_steps(g, less);
        lemma_at_most_by_steps(g, less, 0);
        assert(0 * g == 0);
    }
    assert forall|x: Number, i: int|
        0 <= i < pool.len() && 0 < units(x) <= units(max) implies (#[trigger] x.at_most(
        pool[i].weight,
    ) <==> units(x) <= units(pool[i].weight)) by {
        let m = choose|m: nat| is_multiple(x, g, m);
        assert(is_multiple(x, g, m));
        let k = w[i] / g;
        assert(pool[i].weight == whole(k * g));
        lemma_at_most_by_steps(g, m, k);
    }
    assert forall|i: int| 0 <= i < pool.len() implies 0 <= units((#[trigger] pool[i]).weight)
        <= units(max) by {
        assert(pool[i].weight.at_most(max));
        lemma_at_most_by_steps(g, w[i] / g, top);
    }
}

proof fn lemma_sum(pool: Seq<UdpBackend>, w: Seq<nat>, g: nat, n: nat)
    requires
        n <= pool.len(),
        w.len() == pool.len(),
        g > 0,
        forall|j: int| 0 <= j < pool.len() ==> (#[trigger] w[j]) % g == 0,
        forall|j: int|
            0 <= j < pool.len() ==> steps_in((#[trigger] pool[j]).weight, g) == w[j] / g,
    ensures
        wrr::all_units(pool, |x: Number| steps_in(x, g), n) == sum_of(w, n) / g,
        sum_of(w, n) % g == 0,
    decreases n,
{
    let units = |x: Number| steps_in(x, g);
    if n == 0 {
        lemma_multiple(0, g as int);
        assert(0 * g == 0);
    } else {
        let m = (n - 1) as nat;
        lemma_sum(pool, w, g, m);
        lemma_times_quotient(sum_of(w, m), g);
        assert(w[n - 1] % g == 0);
        lemma_times_quotient(w[n - 1], g);
        let a = sum_of(w, m) / g;
        let b = w[n - 1] / g;
        assert(sum_of(w, n) == (a + b) * g) by (nonlinear_arith)
            requires
                sum_of(w, n) == a * g + b * g,
        ;
        lemma_multiple((a + b) as int, g as int);
        assert(units(pool[n - 1].weight) == b);
    }
}

/// Weights that are whole numbers are respected in every window: where all
/// backends are up, `g` is the greatest common divisor of the weights and `p`
/// is their sum by `g`, any `p` choices in a row, however many came before
/// them, choose a backend of weight `w` just `w` by `g` times. No key has a
/// say in it.
pub proof fn law_whole_weights_share_every_window(
    pool: Seq<UdpBackend>,
    w: Seq<nat>,
    r: spec_fn(Number, Number) -> Number,
    f: spec_fn(Number, Number) -> Number,
    before: nat,
    i: usize,
)
    requires
        0 < pool.len() <= usize::MAX,
        forall|j: int| 0 <= j < pool.len() ==> (#[trigger] pool[j]).alive,
        weigh(pool, w),
        gives_rests(r),
        subtracts(f),
        i < pool.len(),
    ensures
        ({
            let g = gcd_of(w, w.len());
            let p = sum_of(w, w.len()) / g;
            let max = wrr::largest_weight(pool, pool.len());
            let step = wrr::ladder_step(pool, r);
            let start = Position { current: 0, threshold: Number::nought() };
            let now = wrr::after_choices(pool, max, step, f, start, before);
            &&& g > 0
            &&& wrr::times(wrr::run(pool, max, step, f, now, p), i) == w[i as int] / g
        }),
{
    let n = pool.len();
    let g = gcd_of(w, n);
    let units = |x: Number| steps_in(x, g);
    lemma_gcd_of(w, n);
    lemma_common_divisor(pool, w, r, n);
    whole::law_whole_numbers_keep_their_order(0, g);
    assert(wrr::ladder_step(pool, r) == whole(g));
    lemma_whole_steps(pool, w, g, f);
    lemma_largest_is_largest(pool, w, n);
    lemma_sum(pool, w, g, n);
    assert(f(whole(0), whole(g)).at_most(Number::nought()));
    wrr::law_every_window_is_proportional(pool, whole(g), f, units, before, i);
    assert(units(pool[i as int].weight) == w[i as int] / g);
}

/// The greatest common divisor divides both numbers, and whatever divides both
/// divides it.
pub proof fn law_greatest_common_divisor(a: nat, b: nat, d: nat)
    requires
        a > 0 || b > 0,
        d > 0,
        a % d == 0,
        b % d == 0,
    ensures
        gcd(a, b) > 0,
        a % gcd(a, b) == 0,
        b % gcd(a, b) == 0,
        gcd(a, b) % d == 0,
    decreases b,
{
    lemma_gcd_divides(a, b);
    if b > 0 {
        let r = a % b;
        let q = (a / b) as int;
        let x = (a / d) as int;
        let y = (b / d) as int;
        lemma_mod_bound(a as int, b as int);
        lemma_fundamental_div_mod(a as int, b as int);
        lemma_times_quotient(a, d);
        lemma_times_quotient(b, d);
        assert(r == (x - q * y) * d) by (nonlinear_arith)
            requires
                a == b * q + r,
                a == x * d,
                b == y * d,
        ;
        lemma_mod_multiples_basic(x - q * y, d as int);
        law_greatest_common_divisor(b, r, d);
    }
}

} // verus!
