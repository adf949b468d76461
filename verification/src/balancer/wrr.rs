//! Weighted round robin: the pool is walked round and round; a threshold goes
//! down one rung with every round, and a backend is chosen when its weight
//! reaches the threshold.
use crate::balancer::algorithm;
use crate::balancer::algorithm::{alive_list, Algorithm};
use crate::balancer::backend::UdpBackend;
use crate::number::Number;
use vstd::prelude::*;

verus! {

/// Below this, a rest counts as none when a common divisor is looked for: the
/// bits of 0.0001.
pub const EPSILON_BITS: u64 = 0x3F1A_36E2_EB1C_432D;

/// Where the walk stands: the index of the backend that comes next, and the
/// threshold.
pub struct Position {
    pub current: usize,
    pub threshold: Number,
}

/// The index of the backend that comes next; an index past the pool starts
/// over.
pub open spec fn index_in(current: usize, n: nat) -> int {
    if current < n {
        current as int
    } else {
        0
    }
}

/// The index behind `i`, from the last one back to the first.
pub open spec fn following(i: int, n: nat) -> usize {
    if i + 1 >= n {
        0
    } else {
        (i + 1) as usize
    }
}

/// The threshold for a step at index `at`: at the start of a round it goes
/// down by the step of the ladder, or back to the top from zero.
pub open spec fn threshold_at(
    at: int,
    threshold: Number,
    max: Number,
    gcd: Number,
    f: spec_fn(Number, Number) -> Number,
) -> Number {
    if at != 0 {
        threshold
    } else if f(threshold, gcd).at_most(Number::nought()) {
        max
    } else {
        f(threshold, gcd)
    }
}

/// A backend is up and its weight reaches the threshold.
pub open spec fn eligible(pool: Seq<UdpBackend>, threshold: Number, i: int) -> bool {
    pool[i].alive && threshold.at_most(pool[i].weight)
}

/// The first backend from index `from` on that is up and reaches the
/// threshold.
pub open spec fn first_eligible(pool: Seq<UdpBackend>, threshold: Number, from: int) -> Option<usize>
    decreases pool.len() - from,
{
    if from < 0 || from >= pool.len() {
        None
    } else if eligible(pool, threshold, from) {
        Some(from as usize)
    } else {
        first_eligible(pool, threshold, from + 1)
    }
}

/// The first backend from index `from` on that is up.
pub open spec fn first_up(pool: Seq<UdpBackend>, from: int) -> Option<usize>
    decreases pool.len() - from,
{
    if from < 0 || from >= pool.len() {
        None
    } else if pool[from].alive {
        Some(from as usize)
    } else {
        first_up(pool, from + 1)
    }
}

/// The next backend that is up, from index `at` on and round the pool.
pub open spec fn next_up(pool: Seq<UdpBackend>, at: int) -> usize {
    match first_up(pool, at) {
        Some(i) => i,
        None => first_up(pool, 0)->0,
    }
}

/// The backend that the rounds after one with this threshold come to, and
/// where the walk stands then. The threshold goes down the ladder, and back to
/// the top `tops` times at most; there is no backend, but an outcome, where
/// the top is not above zero. There is no outcome where the ladder ends, or
/// gets stuck, without one.
pub open spec fn descent(
    pool: Seq<UdpBackend>,
    max: Number,
    gcd: Number,
    f: spec_fn(Number, Number) -> Number,
    threshold: Number,
    tops: nat,
) -> Option<(Option<usize>, Position)>
    decreases
            tops,
            (if threshold.place() > 0 {
                threshold.place()
            } else {
                0
            }),
{
    let lower = f(threshold, gcd);
    if lower.at_most(Number::nought()) {
        if tops == 0 {
            None
        } else if max.at_most(Number::nought()) {
            Some((None, Position { current: following(0, pool.len()), threshold: max }))
        } else {
            match first_eligible(pool, max, 0) {
                Some(i) => Some(chosen(pool, i, max)),
                None => descent(pool, max, gcd, f, max, (tops - 1) as nat),
            }
        }
    } else {
        match first_eligible(pool, lower, 0) {
            Some(i) => Some(chosen(pool, i, lower)),
            None => if lower.below(threshold) {
                descent(pool, max, gcd, f, lower, tops)
            } else {
                None
            },
        }
    }
}

/// The backend at `i` is chosen, and the walk stands behind it.
pub open spec fn chosen(pool: Seq<UdpBackend>, i: usize, threshold: Number) -> (
    Option<usize>,
    Position,
) {
    (Some(i), Position { current: following(i as int, pool.len()), threshold })
}

/// The outcome of the walk: the first backend that the rest of the round comes
/// to, or else the rounds after it, if there is any.
pub open spec fn outcome(
    pool: Seq<UdpBackend>,
    max: Number,
    gcd: Number,
    f: spec_fn(Number, Number) -> Number,
    p: Position,
) -> Option<(Option<usize>, Position)> {
    let at = index_in(p.current, pool.len());
    if at != 0 && first_eligible(pool, p.threshold, at) is Some {
        Some(chosen(pool, first_eligible(pool, p.threshold, at)->0, p.threshold))
    } else {
        descent(pool, max, gcd, f, p.threshold, 1)
    }
}

/// The common divisor of `a` and `b` by Euclid's algorithm, with rests below
/// the epsilon counting as none. It ends, too, where a rest is not below what
/// was divided by.
pub open spec fn divisor(a: Number, b: Number, f: spec_fn(Number, Number) -> Number) -> Number
    decreases
            (if b.place() > 0 {
                b.place()
            } else {
                0
            }),
{
    if !(Number { bits: EPSILON_BITS }).at_most(b) {
        a
    } else if f(a, b).below(b) {
        divisor(b, f(a, b), f)
    } else {
        b
    }
}

/// The common divisor of the first `n` weights, from zero on.
pub open spec fn common_divisor(
    pool: Seq<UdpBackend>,
    f: spec_fn(Number, Number) -> Number,
    n: nat,
) -> Number
    decreases n,
{
    if n == 0 {
        Number::nought()
    } else {
        divisor(common_divisor(pool, f, (n - 1) as nat), pool[n - 1].weight, f)
    }
}

/// The step of the ladder: the common divisor, or one where that is not above
/// zero.
pub open spec fn ladder_step(pool: Seq<UdpBackend>, f: spec_fn(Number, Number) -> Number) -> Number {
    let gcd = common_divisor(pool, f, pool.len());
    if Number::nought().below(gcd) {
        gcd
    } else {
        Number::unit()
    }
}

/// The largest of the first `n` weights, and zero at least.
pub open spec fn largest_weight(pool: Seq<UdpBackend>, n: nat) -> Number
    decreases n,
{
    if n == 0 {
        Number::nought()
    } else {
        largest_weight(pool, (n - 1) as nat).max_of(pool[n - 1].weight)
    }
}

/// The choice from a position, and the position that it leaves: none where
/// nothing is up, the only one that is up without a walk, else the outcome of
/// the walk. Where no backend that is up is heavy enough for any rung of the
/// ladder, those that are up take turns.
pub open spec fn choice(
    pool: Seq<UdpBackend>,
    max: Number,
    gcd: Number,
    f: spec_fn(Number, Number) -> Number,
    p: Position,
) -> (Option<usize>, Position) {
    let alive = algorithm::alive_indices(pool);
    if alive.len() == 0 {
        (None, p)
    } else if alive.len() == 1 {
        (Some(alive[0]), p)
    } else {
        match outcome(pool, max, gcd, f, p) {
            Some(o) => o,
            None => chosen(pool, next_up(pool, index_in(p.current, pool.len())), p.threshold),
        }
    }
}

proof fn lemma_first_eligible(pool: Seq<UdpBackend>, threshold: Number, from: int)
    requires
        0 <= from,
        pool.len() <= usize::MAX,
    ensures
        first_eligible(pool, threshold, from) matches Some(i) ==> from <= i < pool.len()
            && eligible(pool, threshold, i as int) && forall|j: int|
            from <= j < i ==> !#[trigger] eligible(pool, threshold, j),
        first_eligible(pool, threshold, from) is None ==> forall|j: int|
            from <= j < pool.len() ==> !#[trigger] eligible(pool, threshold, j),
    decreases pool.len() - from,
{
    if from < pool.len() && !eligible(pool, threshold, from) {
        lemma_first_eligible(pool, threshold, from + 1);
    }
}

proof fn lemma_first_up(pool: Seq<UdpBackend>, from: int)
    requires
        0 <= from,
        pool.len() <= usize::MAX,
    ensures
        first_up(pool, from) matches Some(i) ==> from <= i < pool.len() && pool[i as int].alive,
        first_up(pool, from) is None ==> forall|j: int|
            from <= j < pool.len() ==> !(#[trigger] pool[j]).alive,
    decreases pool.len() - from,
{
    if from < pool.len() && !pool[from].alive {
        lemma_first_up(pool, from + 1);
    }
}

/// The first backend from index `from` on that is up and reaches the
/// threshold.
fn find_eligible(pool: &[UdpBackend], threshold: Number, from: usize) -> (r: Option<usize>)
    ensures
        r == first_eligible(pool@, threshold, from as int),
        r matches Some(i) ==> i < pool@.len() && pool@[i as int].alive,
{
    let mut i: usize = from;
    while i < pool.len()
        invariant
            first_eligible(pool@, threshold, from as int) == first_eligible(
                pool@,
                threshold,
                i as int,
            ),
        decreases pool@.len() - i,
    {
        if pool[i].is_alive() && threshold.is_at_most(pool[i].weight()) {
            return Some(i);
        }
        i = i + 1;
    }
    None
}

/// The first backend from index `from` on that is up.
fn find_up(pool: &[UdpBackend], from: usize) -> (r: Option<usize>)
    ensures
        r == first_up(pool@, from as int),
{
    let mut i: usize = from;
    while i < pool.len()
        invariant
            first_up(pool@, from as int) == first_up(pool@, i as int),
        decreases pool@.len() - i,
    {
        if pool[i].is_alive() {
            return Some(i);
        }
        i = i + 1;
    }
    None
}

/// A common divisor of two numbers; `rem` is the rest of a division.
pub fn gcd_number<F: Fn(Number, Number) -> Number>(a: Number, b: Number, rem: &F) -> (r: Number)
    requires
        algorithm::is_total(*rem),
    ensures
        forall|f: spec_fn(Number, Number) -> Number| #[trigger]
            algorithm::computes(*rem, f) ==> r == divisor(a, b, f),
{
    let mut x = a;
    let mut y = b;
    let epsilon = Number::from_bits(EPSILON_BITS);
    while epsilon.is_at_most(y)
        invariant
            algorithm::is_total(*rem),
            epsilon == (Number { bits: EPSILON_BITS }),
            forall|f: spec_fn(Number, Number) -> Number| #[trigger]
                algorithm::computes(*rem, f) ==> divisor(a, b, f) == divisor(x, y, f),
        decreases
                (if y.place() > 0 {
                    y.place()
                } else {
                    0
                }),
    {
        let rest = rem(x, y);
        if !rest.is_below(y) {
            return y;
        }
        x = y;
        y = rest;
    }
    x
}

/// Weighted round robin over a pool of backends.
pub struct WeightedRoundRobin {
    backends: Vec<UdpBackend>,
    current: usize,
    gcd_weight: Number,
    max_weight: Number,
    current_weight: Number,
}

impl Algorithm for WeightedRoundRobin {
    closed spec fn pool(&self) -> Seq<UdpBackend> {
        self.backends@
    }

    fn backends(&self) -> (b: &[UdpBackend]) {
        self.backends.as_slice()
    }
}

impl WeightedRoundRobin {
    /// Where the walk stands.
    pub closed spec fn position(&self) -> Position {
        Position { current: self.current, threshold: self.current_weight }
    }

    /// The step of the ladder.
    pub closed spec fn gcd(&self) -> Number {
        self.gcd_weight
    }

    /// The top of the ladder.
    pub closed spec fn max(&self) -> Number {
        self.max_weight
    }

    /// A pool before its first walk; `rem` is the rest of a division.
    pub fn new<F: Fn(Number, Number) -> Number>(backends: Vec<UdpBackend>, rem: &F) -> (
        w: WeightedRoundRobin)
        requires
            algorithm::is_total(*rem),
        ensures
            w.pool() == backends@,
            w.position() == (Position { current: 0, threshold: Number::nought() }),
            w.max() == largest_weight(backends@, backends@.len()),
            forall|f: spec_fn(Number, Number) -> Number| #[trigger]
                algorithm::computes(*rem, f) ==> w.gcd() == ladder_step(backends@, f),
    {
        let ghost pool = backends@;
        let mut gcd = Number::zero();
        let mut max = Number::zero();
        let mut i: usize = 0;
        while i < backends.len()
            invariant
                pool == backends@,
                i <= pool.len(),
                algorithm::is_total(*rem),
                max == largest_weight(pool, i as nat),
                forall|f: spec_fn(Number, Number) -> Number| #[trigger]
                    algorithm::computes(*rem, f) ==> gcd == common_divisor(pool, f, i as nat),
            decreases pool.len() - i,
        {
            let weight = backends[i].weight();
            gcd = gcd_number(gcd, weight, rem);
            max = max.max(weight);
            i = i + 1;
        }
        WeightedRoundRobin {
            backends,
            current: 0,
            gcd_weight: if Number::zero().is_below(gcd) {
                gcd
            } else {
                Number::one()
            },
            max_weight: max,
            current_weight: Number::zero(),
        }
    }

    /// Leaves the walk behind the backend at `i`.
    fn stand_behind(&mut self, i: usize, threshold: Number) -> (r: Option<usize>)
        requires
            i < old(self).pool().len(),
        ensures
            final(self).pool() == old(self).pool(),
            final(self).max() == old(self).max(),
            final(self).gcd() == old(self).gcd(),
            (r, final(self).position()) == chosen(old(self).pool(), i, threshold),
    {
        self.current = if i >= self.backends.len() - 1 {
            0
        } else {
            i + 1
        };
        self.current_weight = threshold;
        Some(i)
    }

    /// The next backend in turn; `lower` takes the second number from the
    /// first.
    pub fn next<F: Fn(Number, Number) -> Number>(&mut self, lower: &F) -> (r: Option<usize>)
        requires
            algorithm::is_total(*lower),
        ensures
            final(self).pool() == old(self).pool(),
            final(self).max() == old(self).max(),
            final(self).gcd() == old(self).gcd(),
            r matches Some(i) ==> i < old(self).pool().len() && old(self).pool()[i as int].alive,
            algorithm::alive_indices(old(self).pool()).len() == 0 ==> r is None,
            (forall|i: int|
                0 <= i < old(self).pool().len() ==> !(#[trigger] old(self).pool()[i]).alive)
                ==> r is None,
            algorithm::alive_indices(old(self).pool()).len() > 0 && !old(self).max().at_most(
                Number::nought(),
            ) ==> r is Some,
            forall|f: spec_fn(Number, Number) -> Number| #[trigger]
                algorithm::computes(*lower, f) ==> (r, final(self).position()) == choice(
                    old(self).pool(),
                    old(self).max(),
                    old(self).gcd(),
                    f,
                    old(self).position(),
                ),
    {
        let ghost pool = self.pool();
        let ghost max = self.max();
        let ghost gcd = self.gcd();
        let ghost start = self.position();
        let alive_backends = alive_list(self.backends.as_slice());
        proof {
            algorithm::lemma_alive_below(pool, pool.len());
        }
        if alive_backends.len() == 0 {
            return None;
        }
        assert(pool[alive_backends@[0] as int].alive);
        if alive_backends.len() == 1 {
            return Some(alive_backends[0]);
        }
        let n: usize = self.backends.len();
        let at: usize = if self.current < n {
            self.current
        } else {
            0
        };
        if at != 0 {
            if let Some(i) = find_eligible(self.backends.as_slice(), self.current_weight, at) {
                let threshold = self.current_weight;
                return self.stand_behind(i, threshold);
            }
        }
        let mut threshold = self.current_weight;
        let mut tops: usize = 1;
        let mut stuck = false;
        while !stuck
            invariant
                n == pool.len(),
                n >= 1,
                at == index_in(start.current, pool.len()),
                self.backends@ == pool,
                self.position() == start,
                self.max_weight == max,
                self.gcd_weight == gcd,
                self.pool() == old(self).pool(),
                pool == old(self).pool(),
                max == old(self).max(),
                gcd == old(self).gcd(),
                start == old(self).position(),
                algorithm::alive_indices(pool).len() >= 2,
                algorithm::is_total(*lower),
                tops <= 1,
                forall|f: spec_fn(Number, Number) -> Number| #[trigger]
                    algorithm::computes(*lower, f) ==> outcome(pool, max, gcd, f, start) == if stuck {
                        None
                    } else {
                        descent(pool, max, gcd, f, threshold, tops as nat)
                    },
            decreases
                    (if stuck {
                        0int
                    } else {
                        1
                    }),
                    tops,
                    (if threshold.place() > 0 {
                        threshold.place()
                    } else {
                        0
                    }),
        {
            let lowered = lower(threshold, self.gcd_weight);
            if lowered.is_at_most(Number::zero()) {
                if tops == 0 {
                    stuck = true;
                } else if self.max_weight.is_at_most(Number::zero()) {
                    self.current = if n == 1 {
                        0
                    } else {
                        1
                    };
                    self.current_weight = self.max_weight;
                    return None;
                } else {
                    let top = self.max_weight;
                    if let Some(i) = find_eligible(self.backends.as_slice(), top, 0) {
                        return self.stand_behind(i, top);
                    }
                    threshold = top;
                    tops = tops - 1;
                }
            } else {
                if let Some(i) = find_eligible(self.backends.as_slice(), lowered, 0) {
                    return self.stand_behind(i, lowered);
                }
                if lowered.is_below(threshold) {
                    threshold = lowered;
                } else {
                    stuck = true;
                }
            }
        }
        proof {
            lemma_first_up(pool, at as int);
            lemma_first_up(pool, 0);
            let i = algorithm::alive_indices(pool)[0];
            algorithm::lemma_alive_below(pool, pool.len());
            assert(pool[i as int].alive);
        }
        let next = match find_up(self.backends.as_slice(), at) {
            Some(i) => i,
            None => match find_up(self.backends.as_slice(), 0) {
                Some(i) => i,
                None => return None,
            },
        };
        let threshold = self.current_weight;
        self.stand_behind(next, threshold)
    }

    /// Marks a backend as up or down; the walk stands where it stood.
    pub fn set_alive(&mut self, index: usize, alive: bool)
        requires
            index < old(self).pool().len(),
        ensures
            final(self).pool() == algorithm::with_alive(old(self).pool(), index as int, alive),
            final(self).position() == old(self).position(),
            final(self).max() == old(self).max(),
            final(self).gcd() == old(self).gcd(),
    {
        self.backends[index].set_alive(alive);
    }
}

/// Within a round the backends whose weight reaches the threshold are chosen
/// in order: the first of them from where the walk stands on, the walk stands
/// right behind it then, and the threshold is that of the round.
pub proof fn law_round_goes_in_order(
    pool: Seq<UdpBackend>,
    max: Number,
    gcd: Number,
    f: spec_fn(Number, Number) -> Number,
    p: Position,
    j: int,
)
    requires
        pool.len() <= usize::MAX,
        algorithm::alive_indices(pool).len() >= 2,
        index_in(p.current, pool.len()) <= j < pool.len(),
        !max.at_most(Number::nought()),
        ({
            let at = index_in(p.current, pool.len());
            let t = threshold_at(at, p.threshold, max, gcd, f);
            &&& eligible(pool, t, j)
            &&& forall|k: int| at <= k < j ==> !#[trigger] eligible(pool, t, k)
        }),
    ensures
        choice(pool, max, gcd, f, p) == chosen(
            pool,
            j as usize,
            threshold_at(index_in(p.current, pool.len()), p.threshold, max, gcd, f),
        ),
{
    let at = index_in(p.current, pool.len());
    lemma_first_eligible(pool, threshold_at(at, p.threshold, max, gcd, f), at);
}

/// Weights are respected: where a lighter backend reaches a threshold, a
/// heavier one that is up reaches it too, so in no round is the lighter one
/// chosen and the heavier one not.
pub proof fn law_heavier_is_never_behind(
    pool: Seq<UdpBackend>,
    threshold: Number,
    light: int,
    heavy: int,
)
    requires
        0 <= light < pool.len(),
        0 <= heavy < pool.len(),
        pool[heavy].alive,
        pool[light].weight.at_most(pool[heavy].weight),
        eligible(pool, threshold, light),
    ensures
        eligible(pool, threshold, heavy),
{
}

/// Equal weights take turns: where all backends are up and weigh the same,
/// the walk chooses them one after the other, round and round.
pub proof fn law_equal_weights_rotate(
    pool: Seq<UdpBackend>,
    weight: Number,
    gcd: Number,
    f: spec_fn(Number, Number) -> Number,
    p: Position,
)
    requires
        2 <= pool.len() <= usize::MAX,
        forall|i: int|
            0 <= i < pool.len() ==> (#[trigger] pool[i]).alive && pool[i].weight == weight,
        Number::nought().below(weight),
        f(weight, gcd).at_most(Number::nought()),
        f(Number::nought(), gcd).at_most(Number::nought()),
        p.threshold == weight || (p.threshold == Number::nought() && index_in(
            p.current,
            pool.len(),
        ) == 0),
    ensures
        choice(pool, weight, gcd, f, p) == chosen(
            pool,
            index_in(p.current, pool.len()) as usize,
            weight,
        ),
{
    lemma_two_up(pool);
    let at = index_in(p.current, pool.len());
    assert(pool[at].alive);
    law_round_goes_in_order(pool, weight, gcd, f, p, at);
}

proof fn lemma_two_up(pool: Seq<UdpBackend>)
    requires
        2 <= pool.len() <= usize::MAX,
        pool[0].alive,
        pool[1].alive,
    ensures
        algorithm::alive_indices(pool).len() >= 2,
{
    algorithm::lemma_alive_below(pool, pool.len());
    let alive = algorithm::alive_indices(pool);
    assert(alive.contains(0usize) && alive.contains(1usize));
    let a = choose|a: int| 0 <= a < alive.len() && alive[a] == 0usize;
    let b = choose|b: int| 0 <= b < alive.len() && alive[b] == 1usize;
    assert(a != b);
}

/// Traffic goes to the backends that are up: as long as one is, one that is
/// up is chosen, whatever the others weigh.
pub proof fn law_somebody_up_is_chosen(
    pool: Seq<UdpBackend>,
    max: Number,
    gcd: Number,
    f: spec_fn(Number, Number) -> Number,
    p: Position,
    i: int,
)
    requires
        pool.len() <= usize::MAX,
        0 <= i < pool.len(),
        pool[i].alive,
        !max.at_most(Number::nought()),
    ensures
        choice(pool, max, gcd, f, p).0 matches Some(j) && j < pool.len() && pool[j as int].alive,
{
    algorithm::lemma_alive_below(pool, pool.len());
    let alive = algorithm::alive_indices(pool);
    assert(alive.contains(i as usize));
    let at = index_in(p.current, pool.len());
    lemma_first_eligible(pool, p.threshold, at);
    lemma_first_up(pool, at);
    lemma_first_up(pool, 0);
    lemma_descent_chooses(pool, max, gcd, f, p.threshold, 1);
}

proof fn lemma_descent_chooses(
    pool: Seq<UdpBackend>,
    max: Number,
    gcd: Number,
    f: spec_fn(Number, Number) -> Number,
    threshold: Number,
    tops: nat,
)
    requires
        pool.len() <= usize::MAX,
        !max.at_most(Number::nought()),
    ensures
        descent(pool, max, gcd, f, threshold, tops) matches Some(o) ==> (o.0 matches Some(j)
            && j < pool.len() && pool[j as int].alive),
    decreases
            tops,
            (if threshold.place() > 0 {
                threshold.place()
            } else {
                0
            }),
{
    let lower = f(threshold, gcd);
    lemma_first_eligible(pool, max, 0);
    lemma_first_eligible(pool, lower, 0);
    if lower.at_most(Number::nought()) {
        if tops > 0 {
            lemma_descent_chooses(pool, max, gcd, f, max, (tops - 1) as nat);
        }
    } else if lower.below(threshold) {
        lemma_descent_chooses(pool, max, gcd, f, lower, tops);
    }
}

/// The backends that are chosen in the next `k` choices.
pub open spec fn run(
    pool: Seq<UdpBackend>,
    max: Number,
    gcd: Number,
    f: spec_fn(Number, Number) -> Number,
    p: Position,
    k: nat,
) -> Seq<usize>
    decreases k,
{
    if k == 0 {
        Seq::empty()
    } else {
        match choice(pool, max, gcd, f, p) {
            (Some(i), q) => seq![i] + run(pool, max, gcd, f, q, (k - 1) as nat),
            (None, _) => Seq::empty(),
        }
    }
}

/// The backends from index `at` on that reach a threshold, in order.
pub open spec fn round_from(pool: Seq<UdpBackend>, threshold: Number, at: int) -> Seq<usize>
    decreases pool.len() - at,
{
    if at < 0 || at >= pool.len() {
        Seq::empty()
    } else if eligible(pool, threshold, at) {
        seq![at as usize] + round_from(pool, threshold, at + 1)
    } else {
        round_from(pool, threshold, at + 1)
    }
}

/// The thresholds of the next `m` rounds, each lower than the one before or
/// back at the top.
pub open spec fn rungs(
    threshold: Number,
    max: Number,
    gcd: Number,
    f: spec_fn(Number, Number) -> Number,
    m: nat,
) -> Seq<Number>
    decreases m,
{
    if m == 0 {
        Seq::empty()
    } else {
        let t = threshold_at(0, threshold, max, gcd, f);
        seq![t] + rungs(t, max, gcd, f, (m - 1) as nat)
    }
}

/// The backends that reach the thresholds, round after round.
pub open spec fn rounds(pool: Seq<UdpBackend>, thresholds: Seq<Number>) -> Seq<usize>
    decreases thresholds.len(),
{
    if thresholds.len() == 0 {
        Seq::empty()
    } else {
        round_from(pool, thresholds[0], 0) + rounds(pool, thresholds.skip(1))
    }
}

/// How often a backend occurs in a list of choices.
pub open spec fn times(list: Seq<usize>, i: usize) -> nat
    decreases list.len(),
{
    if list.len() == 0 {
        0
    } else {
        times(list.skip(1), i) + if list[0] == i {
            1nat
        } else {
            0nat
        }
    }
}

/// How many of the thresholds a backend that is up reaches.
pub open spec fn reached(b: UdpBackend, thresholds: Seq<Number>) -> nat
    decreases thresholds.len(),
{
    if thresholds.len() == 0 {
        0
    } else {
        reached(b, thresholds.skip(1)) + if b.alive && thresholds[0].at_most(b.weight) {
            1nat
        } else {
            0nat
        }
    }
}

/// Taking the step of the ladder off a number leaves less of it, or the
/// number itself where the step is too small to tell, or nothing.
pub open spec fn lowers(f: spec_fn(Number, Number) -> Number, gcd: Number) -> bool {
    forall|x: Number|
        x.is_number() ==> (#[trigger] f(x, gcd)).at_most(Number::nought()) || f(x, gcd).below(x)
            || f(x, gcd) == x
}

/// A second way to the top finds nothing that the first did not.
proof fn lemma_one_top_is_enough(
    pool: Seq<UdpBackend>,
    max: Number,
    gcd: Number,
    f: spec_fn(Number, Number) -> Number,
    threshold: Number,
)
    requires
        first_eligible(pool, max, 0) is None,
        !max.at_most(Number::nought()),
    ensures
        ({
            let once = descent(pool, max, gcd, f, threshold, 0);
            let twice = descent(pool, max, gcd, f, threshold, 1);
            &&& once is Some ==> twice == once
            &&& once is None && twice is Some ==> twice == descent(pool, max, gcd, f, max, 0)
        }),
    decreases
            (if threshold.place() > 0 {
                threshold.place()
            } else {
                0
            }),
{
    let lower = f(threshold, gcd);
    if !lower.at_most(Number::nought()) && lower.below(threshold) {
        lemma_one_top_is_enough(pool, max, gcd, f, lower);
    }
}

/// A round in which nobody reaches the threshold is passed over.
proof fn lemma_idle_round(
    pool: Seq<UdpBackend>,
    max: Number,
    gcd: Number,
    f: spec_fn(Number, Number) -> Number,
    p: Position,
    t: Number,
)
    requires
        index_in(p.current, pool.len()) == 0 ==> lowers(f, gcd) && p.threshold.is_number(),
        !max.at_most(Number::nought()),
        t == threshold_at(index_in(p.current, pool.len()), p.threshold, max, gcd, f),
        first_eligible(pool, t, index_in(p.current, pool.len())) is None,
        outcome(pool, max, gcd, f, Position { current: 0, threshold: t }) is Some,
    ensures
        outcome(pool, max, gcd, f, p) == outcome(
            pool,
            max,
            gcd,
            f,
            Position { current: 0, threshold: t },
        ),
{
    let at = index_in(p.current, pool.len());
    if at == 0 {
        if f(p.threshold, gcd).at_most(Number::nought()) {
            lemma_one_top_is_enough(pool, max, gcd, f, max);
        }
    }
}

/// From where the walk stands, the eligible backends of the round are chosen
/// and the next round starts.
proof fn lemma_run_through_round(
    pool: Seq<UdpBackend>,
    max: Number,
    gcd: Number,
    f: spec_fn(Number, Number) -> Number,
    p: Position,
    k: nat,
)
    requires
        0 < pool.len() <= usize::MAX,
        algorithm::alive_indices(pool).len() >= 2,
        !max.at_most(Number::nought()),
        ({
            let at = index_in(p.current, pool.len());
            let t = threshold_at(at, p.threshold, max, gcd, f);
            at == 0 && first_eligible(pool, t, 0) is None ==> lowers(f, gcd)
                && p.threshold.is_number()
        }),
        ({
            let at = index_in(p.current, pool.len());
            let t = threshold_at(at, p.threshold, max, gcd, f);
            k > 0 ==> outcome(pool, max, gcd, f, Position { current: 0, threshold: t }) is Some
        }),
    ensures
        ({
            let at = index_in(p.current, pool.len());
            let t = threshold_at(at, p.threshold, max, gcd, f);
            let list = round_from(pool, t, at);
            &&& run(pool, max, gcd, f, p, list.len() + k) == list + run(
                pool,
                max,
                gcd,
                f,
                Position { current: 0, threshold: t },
                k,
            )
            &&& list.len() > 0 || k > 0 ==> outcome(pool, max, gcd, f, p) is Some
        }),
    decreases pool.len() - index_in(p.current, pool.len()),
{
    let at = index_in(p.current, pool.len());
    let t = threshold_at(at, p.threshold, max, gcd, f);
    let next = Position { current: 0, threshold: t };
    let list = round_from(pool, t, at);
    lemma_round_starts(pool, t, at);
    lemma_first_eligible(pool, t, at);
    match first_eligible(pool, t, at) {
        Some(j) => {
            law_round_goes_in_order(pool, max, gcd, f, p, j as int);
            let q = Position { current: following(j as int, pool.len()), threshold: t };
            let rest = round_from(pool, t, j + 1);
            assert(list == seq![j] + rest);
            if j + 1 == pool.len() {
                assert(rest =~= Seq::<usize>::empty());
                assert(q == next);
            } else {
                lemma_run_through_round(pool, max, gcd, f, q, k);
            }
            assert(run(pool, max, gcd, f, q, rest.len() + k) =~= rest + run(
                pool,
                max,
                gcd,
                f,
                next,
                k,
            ));
            assert((list.len() + k - 1) as nat == rest.len() + k);
            assert(run(pool, max, gcd, f, p, list.len() + k) == seq![j] + run(
                pool,
                max,
                gcd,
                f,
                q,
                rest.len() + k,
            ));
            assert(run(pool, max, gcd, f, p, list.len() + k) =~= list + run(
                pool,
                max,
                gcd,
                f,
                next,
                k,
            ));
        },
        None => {
            assert(list.len() == 0);
            if k > 0 {
                lemma_idle_round(pool, max, gcd, f, p, t);
                assert(choice(pool, max, gcd, f, p) == choice(pool, max, gcd, f, next));
            }
            assert(run(pool, max, gcd, f, p, k) =~= list + run(pool, max, gcd, f, next, k));
        },
    }
}

proof fn lemma_round_starts(pool: Seq<UdpBackend>, t: Number, at: int)
    requires
        0 <= at,
        pool.len() <= usize::MAX,
    ensures
        first_eligible(pool, t, at) is None ==> round_from(pool, t, at).len() == 0,
        first_eligible(pool, t, at) matches Some(j) ==> round_from(pool, t, at) == seq![j]
            + round_from(pool, t, j + 1),
    decreases pool.len() - at,
{
    if at < pool.len() && !eligible(pool, t, at) {
        lemma_round_starts(pool, t, at + 1);
    }
}

/// The threshold of the `m`th round from now.
pub open spec fn rung_after(
    threshold: Number,
    max: Number,
    gcd: Number,
    f: spec_fn(Number, Number) -> Number,
    m: nat,
) -> Number
    decreases m,
{
    if m == 0 {
        threshold
    } else {
        rung_after(threshold_at(0, threshold, max, gcd, f), max, gcd, f, (m - 1) as nat)
    }
}

/// In every round somebody reaches the threshold.
pub open spec fn all_busy(pool: Seq<UdpBackend>, thresholds: Seq<Number>) -> bool {
    forall|k: int|
        0 <= k < thresholds.len() ==> first_eligible(pool, #[trigger] thresholds[k], 0) is Some
}

/// From the start of a round the choices are those of one round after the
/// other, and then those from the start of the next.
proof fn lemma_run_through_rounds(
    pool: Seq<UdpBackend>,
    max: Number,
    gcd: Number,
    f: spec_fn(Number, Number) -> Number,
    p: Position,
    m: nat,
    k: nat,
)
    requires
        0 < pool.len() <= usize::MAX,
        algorithm::alive_indices(pool).len() >= 2,
        !max.at_most(Number::nought()),
        all_busy(pool, rungs(p.threshold, max, gcd, f, m)) || (lowers(f, gcd) && max.is_number()
            && p.threshold.is_number()),
        p.current == 0,
        ({
            let end = Position { current: 0, threshold: rung_after(p.threshold, max, gcd, f, m) };
            k > 0 ==> outcome(pool, max, gcd, f, end) is Some
        }),
    ensures
        ({
            let list = rounds(pool, rungs(p.threshold, max, gcd, f, m));
            let end = Position { current: 0, threshold: rung_after(p.threshold, max, gcd, f, m) };
            &&& run(pool, max, gcd, f, p, list.len() + k) == list + run(
                pool,
                max,
                gcd,
                f,
                end,
                k,
            )
            &&& list.len() > 0 || k > 0 ==> outcome(pool, max, gcd, f, p) is Some
        }),
    decreases m,
{
    let all = rungs(p.threshold, max, gcd, f, m);
    let end = Position { current: 0, threshold: rung_after(p.threshold, max, gcd, f, m) };
    if m > 0 {
        let less = (m - 1) as nat;
        let t = threshold_at(0, p.threshold, max, gcd, f);
        let next = Position { current: 0, threshold: t };
        let later = rungs(t, max, gcd, f, less);
        assert(all.skip(1) =~= later);
        assert(all[0] == t);
        if all_busy(pool, all) {
            assert forall|j: int| 0 <= j < later.len() implies first_eligible(
                pool,
                #[trigger] later[j],
                0,
            ) is Some by {
                assert(later[j] == all[j + 1]);
            }
        }
        lemma_run_through_rounds(pool, max, gcd, f, next, less, k);
        let rest = rounds(pool, later);
        let first = round_from(pool, t, 0);
        let list = rounds(pool, all);
        lemma_run_through_round(pool, max, gcd, f, p, rest.len() + k);
        assert(list =~= first + rest);
        assert(list.len() + k == first.len() + (rest.len() + k));
        assert(first + (rest + run(pool, max, gcd, f, end, k)) =~= list + run(
            pool,
            max,
            gcd,
            f,
            end,
            k,
        ));
    } else {
        assert(end == p);
        assert(rounds(pool, all) =~= Seq::<usize>::empty());
        assert(run(pool, max, gcd, f, p, k) =~= Seq::<usize>::empty() + run(
            pool,
            max,
            gcd,
            f,
            end,
            k,
        ));
    }
}

/// Packets are spread in rotation: while two backends or more are up, the
/// choices from the start of a round on are those of one round after the
/// other, and in each round every backend that is up and reaches the round's
/// threshold is chosen once, in order.
pub proof fn law_rounds_follow_each_other(
    pool: Seq<UdpBackend>,
    max: Number,
    gcd: Number,
    f: spec_fn(Number, Number) -> Number,
    p: Position,
    m: nat,
)
    requires
        0 < pool.len() <= usize::MAX,
        algorithm::alive_indices(pool).len() >= 2,
        !max.at_most(Number::nought()),
        max.is_number(),
        lowers(f, gcd),
        p.threshold.is_number(),
        p.current == 0,
    ensures
        ({
            let list = rounds(pool, rungs(p.threshold, max, gcd, f, m));
            run(pool, max, gcd, f, p, list.len()) == list
        }),
{
    let list = rounds(pool, rungs(p.threshold, max, gcd, f, m));
    lemma_run_through_rounds(pool, max, gcd, f, p, m, 0);
    let end = Position { current: 0, threshold: rung_after(p.threshold, max, gcd, f, m) };
    assert(list + run(pool, max, gcd, f, end, 0) =~= list);
}

proof fn lemma_times_add(a: Seq<usize>, b: Seq<usize>, i: usize)
    ensures
        times(a + b, i) == times(a, i) + times(b, i),
    decreases a.len(),
{
    if a.len() == 0 {
        assert(a + b =~= b);
    } else {
        lemma_times_add(a.skip(1), b, i);
        assert((a + b).skip(1) =~= a.skip(1) + b);
    }
}

proof fn lemma_once_a_round(pool: Seq<UdpBackend>, t: Number, at: int, i: usize)
    requires
        0 <= at <= pool.len() <= usize::MAX,
        i < pool.len(),
    ensures
        times(round_from(pool, t, at), i) == if i >= at && eligible(pool, t, i as int) {
            1nat
        } else {
            0nat
        },
    decreases pool.len() - at,
{
    if at < pool.len() {
        lemma_once_a_round(pool, t, at + 1, i);
        let rest = round_from(pool, t, at + 1);
        if eligible(pool, t, at) {
            assert((seq![at as usize] + rest).skip(1) =~= rest);
        }
    }
}

/// Weights are respected: over any rounds a backend is chosen once for every
/// threshold that it reaches, and so never less often than a lighter one.
pub proof fn law_choices_count_thresholds(
    pool: Seq<UdpBackend>,
    thresholds: Seq<Number>,
    i: usize,
)
    requires
        pool.len() <= usize::MAX,
        i < pool.len(),
    ensures
        times(rounds(pool, thresholds), i) == reached(pool[i as int], thresholds),
    decreases thresholds.len(),
{
    if thresholds.len() > 0 {
        law_choices_count_thresholds(pool, thresholds.skip(1), i);
        lemma_once_a_round(pool, thresholds[0], 0, i);
        lemma_times_add(
            round_from(pool, thresholds[0], 0),
            rounds(pool, thresholds.skip(1)),
            i,
        );
    }
}

/// The weights are whole multiples of the step of the ladder: `units` counts
/// the steps in a number, the ladder goes down one by one, and a weight is
/// reached just where it has no fewer steps.
pub open spec fn whole_steps(
    pool: Seq<UdpBackend>,
    max: Number,
    gcd: Number,
    f: spec_fn(Number, Number) -> Number,
    units: spec_fn(Number) -> int,
) -> bool {
    &&& units(max) > 0
    &&& forall|x: Number|
        0 < units(x) <= units(max) ==> units(#[trigger] f(x, gcd)) == units(x) - 1 && (f(
            x,
            gcd,
        ).at_most(Number::nought()) <==> units(x) == 1)
    &&& forall|x: Number, i: int|
        0 <= i < pool.len() && 0 < units(x) <= units(max) ==> (#[trigger] x.at_most(
            pool[i].weight,
        ) <==> units(x) <= units(pool[i].weight))
    &&& forall|i: int|
        0 <= i < pool.len() ==> 0 <= units((#[trigger] pool[i]).weight) <= units(max)
}

proof fn lemma_ladder_down(
    pool: Seq<UdpBackend>,
    max: Number,
    gcd: Number,
    f: spec_fn(Number, Number) -> Number,
    units: spec_fn(Number) -> int,
    threshold: Number,
    i: usize,
)
    requires
        whole_steps(pool, max, gcd, f, units),
        i < pool.len(),
        pool[i as int].alive,
        0 < units(threshold) <= units(max),
    ensures
        ({
            let below = (units(threshold) - 1) as nat;
            let w = units(pool[i as int].weight);
            reached(pool[i as int], rungs(threshold, max, gcd, f, below)) == if w < below {
                w
            } else {
                below as int
            }
        }),
    decreases units(threshold),
{
    let below = (units(threshold) - 1) as nat;
    let t = f(threshold, gcd);
    assert(units(t) == below);
    if below > 0 {
        assert(threshold_at(0, threshold, max, gcd, f) == t);
        lemma_ladder_down(pool, max, gcd, f, units, t, i);
        let all = rungs(threshold, max, gcd, f, below);
        assert(all.skip(1) =~= rungs(t, max, gcd, f, (below - 1) as nat));
        assert(all[0] == t);
        assert(t.at_most(pool[i as int].weight) <==> units(t) <= units(pool[i as int].weight));
    }
}

/// Weights are respected exactly: where the weights are whole multiples of
/// the step, one way down the ladder chooses a backend of `k` steps just `k`
/// times.
pub proof fn law_cycle_is_proportional(
    pool: Seq<UdpBackend>,
    max: Number,
    gcd: Number,
    f: spec_fn(Number, Number) -> Number,
    units: spec_fn(Number) -> int,
    threshold: Number,
    i: usize,
)
    requires
        whole_steps(pool, max, gcd, f, units),
        f(threshold, gcd).at_most(Number::nought()),
        pool.len() <= usize::MAX,
        i < pool.len(),
        pool[i as int].alive,
    ensures
        times(
            rounds(pool, rungs(threshold, max, gcd, f, units(max) as nat)),
            i,
        ) == units(pool[i as int].weight),
{
    let m = units(max) as nat;
    let all = rungs(threshold, max, gcd, f, m);
    assert(threshold_at(0, threshold, max, gcd, f) == max);
    lemma_ladder_down(pool, max, gcd, f, units, max, i);
    assert(all.skip(1) =~= rungs(max, max, gcd, f, (m - 1) as nat));
    assert(all[0] == max);
    assert(max.at_most(pool[i as int].weight) <==> units(max) <= units(pool[i as int].weight));
    law_choices_count_thresholds(pool, all, i);
}

/// Where the walk stands after the next `k` choices.
pub open spec fn after_choices(
    pool: Seq<UdpBackend>,
    max: Number,
    gcd: Number,
    f: spec_fn(Number, Number) -> Number,
    p: Position,
    k: nat,
) -> Position
    decreases k,
{
    if k == 0 {
        p
    } else {
        match choice(pool, max, gcd, f, p) {
            (Some(_), q) => after_choices(pool, max, gcd, f, q, (k - 1) as nat),
            (None, _) => p,
        }
    }
}

/// All the steps of the ladder in the first `n` weights.
pub open spec fn all_units(
    pool: Seq<UdpBackend>,
    units: spec_fn(Number) -> int,
    n: nat,
) -> int
    decreases n,
{
    if n == 0 {
        0
    } else {
        all_units(pool, units, (n - 1) as nat) + units(pool[n - 1].weight)
    }
}

proof fn lemma_run_splits(
    pool: Seq<UdpBackend>,
    max: Number,
    gcd: Number,
    f: spec_fn(Number, Number) -> Number,
    p: Position,
    j: nat,
    k: nat,
)
    ensures
        run(pool, max, gcd, f, p, j + k) == run(pool, max, gcd, f, p, j) + run(
            pool,
            max,
            gcd,
            f,
            after_choices(pool, max, gcd, f, p, j),
            k,
        ),
    decreases j,
{
    let whole = run(pool, max, gcd, f, p, j + k);
    let first = run(pool, max, gcd, f, p, j);
    let then = run(pool, max, gcd, f, after_choices(pool, max, gcd, f, p, j), k);
    if j > 0 {
        match choice(pool, max, gcd, f, p) {
            (Some(i), q) => {
                lemma_run_splits(pool, max, gcd, f, q, (j - 1) as nat, k);
                assert((j + k - 1) as nat == (j - 1) as nat + k);
            },
            (None, _) => {},
        }
    }
    assert(whole =~= first + then);
}

/// A list is as long as its entries occur.
proof fn lemma_times_sum(list: Seq<usize>, pool: Seq<UdpBackend>, units: spec_fn(Number) -> int, n: nat)
    requires
        n <= pool.len() <= usize::MAX,
        forall|i: usize| i < pool.len() ==> #[trigger] times(list, i) == units(pool[i as int].weight),
    ensures
        all_units(pool, units, n) == occurrences_below(list, n),
    decreases n,
{
    if n == 0 {
        lemma_occurrences_step(list, 0);
    } else {
        lemma_times_sum(list, pool, units, (n - 1) as nat);
        lemma_occurrences_step(list, (n - 1) as nat);
        assert(times(list, (n - 1) as usize) == units(pool[n - 1].weight));
    }
}

/// How many entries of a list are below `n`.
spec fn occurrences_below(list: Seq<usize>, n: nat) -> nat
    decreases list.len(),
{
    if list.len() == 0 {
        0
    } else {
        occurrences_below(list.skip(1), n) + if list[0] < n {
            1nat
        } else {
            0nat
        }
    }
}

proof fn lemma_occurrences_step(list: Seq<usize>, n: nat)
    requires
        n <= usize::MAX,
    ensures
        occurrences_below(list, 0) == 0,
        occurrences_below(list, n + 1) == occurrences_below(list, n) + times(list, n as usize),
    decreases list.len(),
{
    if list.len() > 0 {
        lemma_occurrences_step(list.skip(1), n);
    }
}

proof fn lemma_all_below(list: Seq<usize>, n: nat)
    requires
        forall|j: int| 0 <= j < list.len() ==> #[trigger] list[j] < n,
    ensures
        occurrences_below(list, n) == list.len(),
    decreases list.len(),
{
    if list.len() > 0 {
        assert forall|j: int| 0 <= j < list.skip(1).len() implies #[trigger] list.skip(1)[j] < n by {
            assert(list.skip(1)[j] == list[j + 1]);
        }
        lemma_all_below(list.skip(1), n);
    }
}

proof fn lemma_round_within(pool: Seq<UdpBackend>, t: Number, at: int)
    requires
        0 <= at,
        pool.len() <= usize::MAX,
    ensures
        forall|j: int|
            0 <= j < round_from(pool, t, at).len() ==> #[trigger] round_from(pool, t, at)[j]
                < pool.len(),
    decreases pool.len() - at,
{
    if at < pool.len() {
        lemma_round_within(pool, t, at + 1);
        let list = round_from(pool, t, at);
        let rest = round_from(pool, t, at + 1);
        assert forall|j: int| 0 <= j < list.len() implies #[trigger] list[j] < pool.len() by {
            if eligible(pool, t, at) {
                if j > 0 {
                    assert(list[j] == rest[j - 1]);
                }
            } else {
                assert(list[j] == rest[j]);
            }
        }
    }
}

proof fn lemma_rounds_within(pool: Seq<UdpBackend>, thresholds: Seq<Number>)
    requires
        pool.len() <= usize::MAX,
    ensures
        forall|j: int|
            0 <= j < rounds(pool, thresholds).len() ==> #[trigger] rounds(pool, thresholds)[j]
                < pool.len(),
    decreases thresholds.len(),
{
    if thresholds.len() > 0 {
        lemma_round_within(pool, thresholds[0], 0);
        lemma_rounds_within(pool, thresholds.skip(1));
        let list = rounds(pool, thresholds);
        let first = round_from(pool, thresholds[0], 0);
        let rest = rounds(pool, thresholds.skip(1));
        assert forall|j: int| 0 <= j < list.len() implies #[trigger] list[j] < pool.len() by {
            if j < first.len() {
                assert(list[j] == first[j]);
            } else {
                assert(list[j] == rest[j - first.len()]);
            }
        }
    }
}

/// At the end of the ladder stands a rung of one step.
proof fn lemma_last_rung(
    pool: Seq<UdpBackend>,
    max: Number,
    gcd: Number,
    f: spec_fn(Number, Number) -> Number,
    units: spec_fn(Number) -> int,
    threshold: Number,
)
    requires
        whole_steps(pool, max, gcd, f, units),
        0 < units(threshold) <= units(max),
    ensures
        units(rung_after(threshold, max, gcd, f, (units(threshold) - 1) as nat)) == 1,
    decreases units(threshold),
{
    if units(threshold) > 1 {
        let t = f(threshold, gcd);
        assert(units(t) == units(threshold) - 1);
        assert(threshold_at(0, threshold, max, gcd, f) == t);
        lemma_last_rung(pool, max, gcd, f, units, t);
    }
}

/// On every rung below, the heaviest backend reaches the threshold.
proof fn lemma_ladder_is_busy(
    pool: Seq<UdpBackend>,
    max: Number,
    gcd: Number,
    f: spec_fn(Number, Number) -> Number,
    units: spec_fn(Number) -> int,
    threshold: Number,
    heaviest: int,
)
    requires
        whole_steps(pool, max, gcd, f, units),
        pool.len() <= usize::MAX,
        0 <= heaviest < pool.len(),
        pool[heaviest].alive,
        pool[heaviest].weight == max,
        0 < units(threshold) <= units(max),
    ensures
        all_busy(pool, rungs(threshold, max, gcd, f, (units(threshold) - 1) as nat)),
    decreases units(threshold),
{
    let below = (units(threshold) - 1) as nat;
    if below > 0 {
        let t = f(threshold, gcd);
        assert(units(t) == below);
        assert(threshold_at(0, threshold, max, gcd, f) == t);
        lemma_ladder_is_busy(pool, max, gcd, f, units, t, heaviest);
        let all = rungs(threshold, max, gcd, f, below);
        let later = rungs(t, max, gcd, f, (below - 1) as nat);
        assert(all.skip(1) =~= later);
        assert(t.at_most(pool[heaviest].weight) <==> units(t) <= units(pool[heaviest].weight));
        assert(eligible(pool, t, heaviest));
        lemma_first_eligible(pool, t, 0);
        assert forall|k: int| 0 <= k < all.len() implies first_eligible(
            pool,
            #[trigger] all[k],
            0,
        ) is Some by {
            if k > 0 {
                assert(all[k] == later[k - 1]);
            } else {
                assert(all[0] == t);
            }
        }
    }
}

pub proof fn lemma_largest_is_there(pool: Seq<UdpBackend>, n: nat) -> (i: int)
    requires
        n <= pool.len(),
        !largest_weight(pool, n).at_most(Number::nought()),
    ensures
        0 <= i < n,
        pool[i].weight == largest_weight(pool, n),
        largest_weight(pool, n).is_number(),
    decreases n,
{
    lemma_largest_is_a_number(pool, n);
    if n > 0 && largest_weight(pool, n) == pool[n - 1].weight {
        n - 1
    } else {
        lemma_largest_is_there(pool, (n - 1) as nat)
    }
}

proof fn lemma_largest_is_a_number(pool: Seq<UdpBackend>, n: nat)
    requires
        n <= pool.len(),
    ensures
        largest_weight(pool, n).is_number(),
    decreases n,
{
    if n > 0 {
        lemma_largest_is_a_number(pool, (n - 1) as nat);
    }
}

/// A pool of one chooses that one every time.
proof fn lemma_only_one(
    pool: Seq<UdpBackend>,
    max: Number,
    gcd: Number,
    f: spec_fn(Number, Number) -> Number,
    p: Position,
    k: nat,
)
    requires
        pool.len() == 1,
        pool[0].alive,
    ensures
        times(run(pool, max, gcd, f, p, k), 0) == k,
    decreases k,
{
    algorithm::lemma_alive_below(pool, 1);
    assert(algorithm::alive_indices(pool).contains(0usize));
    if k > 0 {
        lemma_only_one(pool, max, gcd, f, p, (k - 1) as nat);
        let rest = run(pool, max, gcd, f, p, (k - 1) as nat);
        assert((seq![0usize] + rest).skip(1) =~= rest);
    }
}

/// Weights are respected at any time: where all backends are up, the weights
/// are whole multiples of the step and there are `all_units` steps in all of
/// them, any so many choices in a row, however many came before them, choose a
/// backend of `k` steps just `k` times.
pub proof fn law_every_window_is_proportional(
    pool: Seq<UdpBackend>,
    gcd: Number,
    f: spec_fn(Number, Number) -> Number,
    units: spec_fn(Number) -> int,
    before: nat,
    i: usize,
)
    requires
        0 < pool.len() <= usize::MAX,
        forall|j: int| 0 <= j < pool.len() ==> (#[trigger] pool[j]).alive,
        !largest_weight(pool, pool.len()).at_most(Number::nought()),
        whole_steps(pool, largest_weight(pool, pool.len()), gcd, f, units),
        f(Number::nought(), gcd).at_most(Number::nought()),
        i < pool.len(),
    ensures
        ({
            let max = largest_weight(pool, pool.len());
            let start = Position { current: 0, threshold: Number::nought() };
            let now = after_choices(pool, max, gcd, f, start, before);
            times(
                run(pool, max, gcd, f, now, all_units(pool, units, pool.len()) as nat),
                i,
            ) == units(pool[i as int].weight)
        }),
{
    let max = largest_weight(pool, pool.len());
    let start = Position { current: 0, threshold: Number::nought() };
    let now = after_choices(pool, max, gcd, f, start, before);
    let period = all_units(pool, units, pool.len()) as nat;
    assert(pool[0].alive);
    if pool.len() == 1 {
        reveal_with_fuel(all_units, 2);
        assert(0 <= units(pool[0].weight));
        lemma_only_one(pool, max, gcd, f, now, period);
    } else {
        assert(pool[1].alive);
        lemma_two_up(pool);
        let heaviest = lemma_largest_is_there(pool, pool.len());
        let m = units(max) as nat;
        let cycle = rounds(pool, rungs(start.threshold, max, gcd, f, m));
        assert forall|j: usize| j < pool.len() implies #[trigger] times(cycle, j) == units(
            pool[j as int].weight,
        ) by {
            assert(pool[j as int].alive);
            law_cycle_is_proportional(pool, max, gcd, f, units, start.threshold, j);
        }
        lemma_times_sum(cycle, pool, units, pool.len());
        lemma_rounds_within(pool, rungs(start.threshold, max, gcd, f, m));
        lemma_all_below(cycle, pool.len());
        assert(cycle.len() == period);
        let last = rung_after(start.threshold, max, gcd, f, m);
        assert(threshold_at(0, start.threshold, max, gcd, f) == max);
        lemma_last_rung(pool, max, gcd, f, units, max);
        assert(units(last) == 1);
        assert(f(last, gcd).at_most(Number::nought()));
        let end = Position { current: 0, threshold: last };
        lemma_first_eligible(pool, max, 0);
        assert(pool[heaviest].alive);
        assert(eligible(pool, max, heaviest));
        assert(outcome(pool, max, gcd, f, end) is Some);
        assert(outcome(pool, max, gcd, f, end) == outcome(pool, max, gcd, f, start));
        assert(choice(pool, max, gcd, f, end) == choice(pool, max, gcd, f, start));
        assert(run(pool, max, gcd, f, end, before) == run(pool, max, gcd, f, start, before));
        lemma_ladder_is_busy(pool, max, gcd, f, units, max, heaviest);
        let all = rungs(start.threshold, max, gcd, f, m);
        assert(all.skip(1) =~= rungs(max, max, gcd, f, (m - 1) as nat));
        assert forall|k: int| 0 <= k < all.len() implies first_eligible(
            pool,
            #[trigger] all[k],
            0,
        ) is Some by {
            if k > 0 {
                assert(all[k] == all.skip(1)[k - 1]);
            } else {
                assert(all[0] == max);
            }
        }
        lemma_run_through_rounds(pool, max, gcd, f, start, m, before);
        lemma_run_splits(pool, max, gcd, f, start, before, period);
        let earlier = run(pool, max, gcd, f, start, before);
        let window = run(pool, max, gcd, f, now, period);
        lemma_times_add(cycle, earlier, i);
        lemma_times_add(earlier, window, i);
        assert(cycle + earlier == earlier + window);
    }
}

/// Behind a choice the walk stands at the next index, and behind the last one
/// at the first, however large the pool is.
pub proof fn law_walk_stands_behind_the_choice(pool: Seq<UdpBackend>, i: usize, threshold: Number)
    requires
        i < pool.len() <= usize::MAX,
    ensures
        chosen(pool, i, threshold).0 == Some(i),
        chosen(pool, i, threshold).1.current == (i + 1) % pool.len() as int,
        chosen(pool, i, threshold).1.threshold == threshold,
{
    if i + 1 < pool.len() {
        vstd::arithmetic::div_mod::lemma_small_mod((i + 1) as nat, pool.len());
    } else {
        vstd::arithmetic::div_mod::lemma_mod_self_0(pool.len() as int);
    }
}

/// With nobody up nobody is chosen, and with only one up that one is, whatever
/// the weights; neither moves the walk.
pub proof fn law_none_or_one_up(
    pool: Seq<UdpBackend>,
    max: Number,
    gcd: Number,
    f: spec_fn(Number, Number) -> Number,
    p: Position,
    i: usize,
)
    requires
        pool.len() <= usize::MAX,
        forall|j: int| 0 <= j < pool.len() && j != i ==> !(#[trigger] pool[j]).alive,
    ensures
        i < pool.len() && pool[i as int].alive ==> choice(pool, max, gcd, f, p) == (Some(i), p),
        i >= pool.len() || !pool[i as int].alive ==> choice(pool, max, gcd, f, p) == (
            None::<usize>,
            p,
        ),
{
    let alive = algorithm::alive_indices(pool);
    algorithm::lemma_alive_below(pool, pool.len());
    if alive.len() > 0 {
        assert(pool[alive[0] as int].alive);
        assert(alive[0] == i);
        if alive.len() > 1 {
            assert(pool[alive[1] as int].alive);
            assert(alive[1] == i);
        }
    }
    if i < pool.len() && pool[i as int].alive {
        assert(alive.contains(i));
    }
}

proof fn lemma_descent_in_order(
    pool: Seq<UdpBackend>,
    max: Number,
    gcd: Number,
    f: spec_fn(Number, Number) -> Number,
    threshold: Number,
    tops: nat,
)
    requires
        pool.len() <= usize::MAX,
        !max.at_most(Number::nought()),
    ensures
        descent(pool, max, gcd, f, threshold, tops) matches Some(o) ==> (o.0 matches Some(j)
            && j < pool.len() && o == chosen(pool, j, o.1.threshold) && eligible(
            pool,
            o.1.threshold,
            j as int,
        ) && !o.1.threshold.at_most(Number::nought()) && forall|k: int|
            0 <= k < j ==> !#[trigger] eligible(pool, o.1.threshold, k)),
    decreases
            tops,
            (if threshold.place() > 0 {
                threshold.place()
            } else {
                0
            }),
{
    let lower = f(threshold, gcd);
    if lower.at_most(Number::nought()) {
        if tops > 0 {
            lemma_first_eligible(pool, max, 0);
            if first_eligible(pool, max, 0) is None {
                lemma_descent_in_order(pool, max, gcd, f, max, (tops - 1) as nat);
            }
        }
    } else {
        lemma_first_eligible(pool, lower, 0);
        if first_eligible(pool, lower, 0) is None && lower.below(threshold) {
            lemma_descent_in_order(pool, max, gcd, f, lower, tops);
        }
    }
}

/// Whoever the walk comes to is up, and its weight reaches the threshold that
/// is left. Either the round goes on, with its threshold, and everybody between
/// where the walk stood and the choice was passed over rightly; or nobody was
/// left in it, and in the round of the choice everybody before the choice was
/// passed over rightly. The walk then stands behind the choice.
pub proof fn law_nobody_is_passed_over(
    pool: Seq<UdpBackend>,
    max: Number,
    gcd: Number,
    f: spec_fn(Number, Number) -> Number,
    p: Position,
)
    requires
        2 <= pool.len() <= usize::MAX,
        !max.at_most(Number::nought()),
        outcome(pool, max, gcd, f, p) is Some,
    ensures
        ({
            let at = if p.current < pool.len() {
                p.current as int
            } else {
                0
            };
            let o = outcome(pool, max, gcd, f, p)->0;
            let t = o.1.threshold;
            &&& o.0 is Some
            &&& o.0->0 < pool.len()
            &&& pool[o.0->0 as int].alive
            &&& t.at_most(pool[o.0->0 as int].weight)
            &&& o.1.current == (o.0->0 + 1) % pool.len() as int
            &&& (at > 0 && t == p.threshold && at <= o.0->0 && forall|k: int|
                at <= k < o.0->0 ==> !((#[trigger] pool[k]).alive && t.at_most(pool[k].weight)))
                || ((forall|k: int|
                0 < at <= k < pool.len() ==> !((#[trigger] pool[k]).alive && p.threshold.at_most(
                    pool[k].weight,
                ))) && (forall|k: int|
                0 <= k < o.0->0 ==> !((#[trigger] pool[k]).alive && t.at_most(pool[k].weight))))
        }),
{
    let at = index_in(p.current, pool.len());
    lemma_first_eligible(pool, p.threshold, at);
    lemma_descent_in_order(pool, max, gcd, f, p.threshold, 1);
    let o = outcome(pool, max, gcd, f, p)->0;
    let t = o.1.threshold;
    law_walk_stands_behind_the_choice(pool, o.0->0, t);
    assert forall|k: int| 0 <= k < pool.len() implies (eligible(pool, t, k) <==> (
    #[trigger] pool[k]).alive && t.at_most(pool[k].weight)) && (eligible(pool, p.threshold, k) <==> pool[k].alive
        && p.threshold.at_most(pool[k].weight)) by {}
}

/// The walk is what decides as soon as two are up.
pub proof fn law_walk_decides(
    pool: Seq<UdpBackend>,
    max: Number,
    gcd: Number,
    f: spec_fn(Number, Number) -> Number,
    p: Position,
    i: int,
    j: int,
)
    requires
        pool.len() <= usize::MAX,
        0 <= i < j < pool.len(),
        pool[i].alive,
        pool[j].alive,
    ensures
        outcome(pool, max, gcd, f, p) matches Some(o) ==> choice(pool, max, gcd, f, p) == o,
        outcome(pool, max, gcd, f, p) is None ==> choice(pool, max, gcd, f, p).1.threshold
            == p.threshold,
{
    lemma_two_are_listed(pool, i, j);
}

/// A threshold holds for a whole round. At the start of a round it goes down
/// by the step, or back to the top once it has come to nought.
pub proof fn law_threshold_of_a_round(
    at: int,
    threshold: Number,
    max: Number,
    gcd: Number,
    f: spec_fn(Number, Number) -> Number,
)
    ensures
        at != 0 ==> threshold_at(at, threshold, max, gcd, f) == threshold,
        f(threshold, gcd).at_most(Number::nought()) ==> threshold_at(0, threshold, max, gcd, f) == max,
        Number::nought().below(f(threshold, gcd)) ==> threshold_at(0, threshold, max, gcd, f) == f(
            threshold,
            gcd,
        ),
{
}

/// The walk goes on where it stands, and at the first index where that is past
/// the pool.
pub proof fn law_walk_starts_over_past_the_pool(current: usize, n: nat)
    ensures
        current < n ==> index_in(current, n) == current,
        current >= n ==> index_in(current, n) == 0,
{
}

/// The top of the ladder is the largest weight: no weight is above it, and it
/// is one of them or nought.
pub proof fn law_top_is_the_largest_weight(pool: Seq<UdpBackend>, n: nat)
    requires
        n <= pool.len(),
    ensures
        largest_weight(pool, n).is_number(),
        Number::nought().at_most(largest_weight(pool, n)),
        forall|i: int|
            0 <= i < n ==> !largest_weight(pool, n).below((#[trigger] pool[i]).weight),
        largest_weight(pool, n) == Number::nought() || exists|i: int|
            0 <= i < n && (#[trigger] pool[i]).weight == largest_weight(pool, n),
    decreases n,
{
    if n > 0 {
        law_top_is_the_largest_weight(pool, (n - 1) as nat);
        let before = largest_weight(pool, (n - 1) as nat);
        let top = largest_weight(pool, n);
        if top == before {
            if before != Number::nought() {
                let i = choose|i: int| 0 <= i < n - 1 && (#[trigger] pool[i]).weight == before;
                assert(pool[i].weight == top);
            }
        } else {
            assert(pool[n - 1].weight == top);
        }
    }
}

/// Euclid's step: a divisor below 0.0001 counts as none and leaves the other
/// number; else the rest takes the divisor's place as long as it is smaller.
pub proof fn law_divisor_goes_on_with_the_rest(
    a: Number,
    b: Number,
    f: spec_fn(Number, Number) -> Number,
)
    ensures
        b.below(Number { bits: 0x3F1A_36E2_EB1C_432D }) ==> divisor(a, b, f) == a,
        !b.is_number() ==> divisor(a, b, f) == a,
        (Number { bits: 0x3F1A_36E2_EB1C_432D }).at_most(b) && f(a, b).below(b) ==> divisor(a, b, f)
            == divisor(b, f(a, b), f),
        (Number { bits: 0x3F1A_36E2_EB1C_432D }).at_most(b) && !f(a, b).below(b) ==> divisor(a, b, f)
            == b,
{
}

/// The step of the ladder is above nought, so that the ladder comes down.
/// Where the weights have a divisor in common it is that one, and one else. A
/// further weight goes into the common divisor with what it was before it.
pub proof fn law_ladder_comes_down(
    pool: Seq<UdpBackend>,
    f: spec_fn(Number, Number) -> Number,
    n: nat,
)
    ensures
        Number::nought().below(ladder_step(pool, f)),
        Number::nought().below(common_divisor(pool, f, pool.len())) ==> ladder_step(pool, f)
            == common_divisor(pool, f, pool.len()),
        !Number::nought().below(common_divisor(pool, f, pool.len())) ==> ladder_step(pool, f).bits
            == 0x3FF0_0000_0000_0000,
        common_divisor(pool, f, 0).bits == 0,
        common_divisor(pool, f, n + 1) == divisor(common_divisor(pool, f, n), pool[n as int].weight, f),
{
}

proof fn lemma_descent_comes_to_nobody(
    pool: Seq<UdpBackend>,
    max: Number,
    gcd: Number,
    f: spec_fn(Number, Number) -> Number,
    threshold: Number,
    tops: nat,
)
    requires
        pool.len() <= usize::MAX,
        Number::nought().below(max),
        forall|j: int|
            0 <= j < pool.len() && (#[trigger] pool[j]).alive ==> !Number::nought().below(
                pool[j].weight,
            ),
    ensures
        descent(pool, max, gcd, f, threshold, tops) is None,
    decreases
            tops,
            (if threshold.place() > 0 {
                threshold.place()
            } else {
                0
            }),
{
    let lower = f(threshold, gcd);
    if lower.at_most(Number::nought()) {
        if tops > 0 {
            lemma_first_eligible(pool, max, 0);
            lemma_descent_comes_to_nobody(pool, max, gcd, f, max, (tops - 1) as nat);
        }
    } else {
        lemma_first_eligible(pool, lower, 0);
        if lower.below(threshold) {
            lemma_descent_comes_to_nobody(pool, max, gcd, f, lower, tops);
        }
    }
}

/// Where two are up and nobody that is up weighs anything, those that are up
/// take turns in the order of the pool: the next one from where the walk stands
/// is chosen, round the end of the pool.
pub proof fn law_weightless_take_turns(
    pool: Seq<UdpBackend>,
    max: Number,
    gcd: Number,
    f: spec_fn(Number, Number) -> Number,
    p: Position,
    a: int,
    b: int,
)
    requires
        pool.len() <= usize::MAX,
        0 <= a < b < pool.len(),
        pool[a].alive,
        pool[b].alive,
        Number::nought().below(max),
        Number::nought().below(p.threshold) || p.current == 0 || p.current >= pool.len(),
        forall|j: int|
            0 <= j < pool.len() && (#[trigger] pool[j]).alive ==> !Number::nought().below(
                pool[j].weight,
            ),
    ensures
        ({
            let at = if p.current < pool.len() {
                p.current as int
            } else {
                0
            };
            let (r, after) = choice(pool, max, gcd, f, p);
            &&& r is Some
            &&& r->0 < pool.len()
            &&& pool[r->0 as int].alive
            &&& after.current == (r->0 + 1) % pool.len() as int
            &&& after.threshold == p.threshold
            &&& r->0 >= at ==> forall|k: int| at <= k < r->0 ==> !(#[trigger] pool[k]).alive
            &&& r->0 < at ==> forall|k: int|
                0 <= k < r->0 || at <= k < pool.len() ==> !(#[trigger] pool[k]).alive
        }),
{
    let at = index_in(p.current, pool.len());
    law_walk_decides(pool, max, gcd, f, p, a, b);
    lemma_two_are_listed(pool, a, b);
    lemma_first_eligible(pool, p.threshold, at);
    lemma_descent_comes_to_nobody(pool, max, gcd, f, p.threshold, 1);
    lemma_first_up_is_first(pool, at);
    lemma_first_up_is_first(pool, 0);
    law_walk_stands_behind_the_choice(pool, next_up(pool, at), p.threshold);
}

proof fn lemma_two_are_listed(pool: Seq<UdpBackend>, i: int, j: int)
    requires
        pool.len() <= usize::MAX,
        0 <= i < j < pool.len(),
        pool[i].alive,
        pool[j].alive,
    ensures
        algorithm::alive_indices(pool).len() >= 2,
{
    algorithm::lemma_alive_below(pool, pool.len());
    let alive = algorithm::alive_indices(pool);
    assert(alive.contains(i as usize) && alive.contains(j as usize));
    let a = choose|a: int| 0 <= a < alive.len() && alive[a] == i as usize;
    let b = choose|b: int| 0 <= b < alive.len() && alive[b] == j as usize;
    assert(a != b);
}

proof fn lemma_first_up_is_first(pool: Seq<UdpBackend>, from: int)
    requires
        0 <= from,
        pool.len() <= usize::MAX,
    ensures
        first_up(pool, from) matches Some(i) ==> from <= i < pool.len() && pool[i as int].alive
            && forall|k: int| from <= k < i ==> !(#[trigger] pool[k]).alive,
        first_up(pool, from) is None ==> forall|k: int|
            from <= k < pool.len() ==> !(#[trigger] pool[k]).alive,
    decreases pool.len() - from,
{
    if from < pool.len() && !pool[from].alive {
        lemma_first_up_is_first(pool, from + 1);
    }
}

/// A round in which nobody is heavy enough is passed over: the walk comes to
/// the same as from the start of the next round, with the threshold of the one
/// that was passed over. That goes for the rest of a round, for a whole round
/// further down the ladder and for one at its top.
pub proof fn law_empty_rounds_are_passed_over(
    pool: Seq<UdpBackend>,
    max: Number,
    gcd: Number,
    f: spec_fn(Number, Number) -> Number,
    p: Position,
)
    requires
        pool.len() <= usize::MAX,
        !max.at_most(Number::nought()),
    ensures
        ({
            let t = p.threshold;
            let lower = f(t, gcd);
            let whole = Position { current: 0, threshold: t };
            &&& (forall|i: int|
                p.current <= i < pool.len() ==> !((#[trigger] pool[i]).alive && t.at_most(
                    pool[i].weight,
                ))) ==> outcome(pool, max, gcd, f, p) == outcome(pool, max, gcd, f, whole)
            &&& Number::nought().below(lower) && lower.below(t) && (forall|i: int|
                0 <= i < pool.len() ==> !((#[trigger] pool[i]).alive && lower.at_most(
                    pool[i].weight,
                ))) ==> outcome(pool, max, gcd, f, whole) == outcome(
                pool,
                max,
                gcd,
                f,
                (Position { current: 0, threshold: lower }),
            )
            &&& lower.at_most(Number::nought()) && (forall|i: int|
                0 <= i < pool.len() ==> !((#[trigger] pool[i]).alive && max.at_most(
                    pool[i].weight,
                ))) ==> outcome(pool, max, gcd, f, whole) == outcome(
                pool,
                max,
                gcd,
                f,
                (Position { current: 0, threshold: max }),
            )
            &&& !lower.at_most(Number::nought()) && !lower.below(t) && (forall|i: int|
                0 <= i < pool.len() ==> !((#[trigger] pool[i]).alive && lower.at_most(
                    pool[i].weight,
                ))) ==> outcome(pool, max, gcd, f, whole) is None
        }),
{
    let t = p.threshold;
    let lower = f(t, gcd);
    let at = index_in(p.current, pool.len());
    lemma_first_eligible(pool, t, at);
    lemma_first_eligible(pool, lower, 0);
    lemma_first_eligible(pool, max, 0);
    if first_eligible(pool, t, at) is Some {
        assert(pool[first_eligible(pool, t, at)->0 as int].alive);
    }
    if first_eligible(pool, lower, 0) is Some {
        assert(pool[first_eligible(pool, lower, 0)->0 as int].alive);
    }
    if first_eligible(pool, max, 0) is Some {
        assert(pool[first_eligible(pool, max, 0)->0 as int].alive);
    } else {
        lemma_second_top(pool, max, gcd, f, max);
    }
}

/// Where nobody is heavy enough for the top, coming back to it once more finds
/// nobody that the way down from it does not.
proof fn lemma_second_top(
    pool: Seq<UdpBackend>,
    max: Number,
    gcd: Number,
    f: spec_fn(Number, Number) -> Number,
    threshold: Number,
)
    requires
        !max.at_most(Number::nought()),
        first_eligible(pool, max, 0) is None,
    ensures
        descent(pool, max, gcd, f, threshold, 0) is Some ==> descent(
            pool,
            max,
            gcd,
            f,
            threshold,
            1,
        ) == descent(pool, max, gcd, f, threshold, 0),
        descent(pool, max, gcd, f, threshold, 0) is None ==> descent(
            pool,
            max,
            gcd,
            f,
            threshold,
            1,
        ) is None || descent(pool, max, gcd, f, threshold, 1) == descent(pool, max, gcd, f, max, 0),
    decreases
            (if threshold.place() > 0 {
                threshold.place()
            } else {
                0
            }),
{
    let lower = f(threshold, gcd);
    if !lower.at_most(Number::nought()) && first_eligible(pool, lower, 0) is None && lower.below(
        threshold,
    ) {
        lemma_second_top(pool, max, gcd, f, lower);
    }
}

} // verus!
