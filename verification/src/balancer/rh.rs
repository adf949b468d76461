//! Rendezvous hashing: every backend that is up scores for the key, and the
//! highest score wins.
use crate::balancer::algorithm;
use crate::balancer::algorithm::Algorithm;
use crate::balancer::backend::UdpBackend;
use crate::hashing;
use crate::hashing::fnv_hash;
use crate::number::Number;
use vstd::prelude::*;
use vstd::utf8::encode_utf8;

verus! {

/// `f` computes the score of a hash under a weight as `g` does.
pub open spec fn scores<F: Fn(u64, Number) -> Number>(
    f: F,
    g: spec_fn(u64, Number) -> Number,
) -> bool {
    forall|h: u64, w: Number, r: Number| #[trigger] call_ensures(f, (h, w), r) ==> r == g(h, w)
}

/// `f` may be called on any hash and weight.
pub open spec fn scores_all<F: Fn(u64, Number) -> Number>(f: F) -> bool {
    forall|h: u64, w: Number| #[trigger] call_requires(f, (h, w))
}

/// The hash of a key together with a backend's address.
pub open spec fn joint_hash(key: Seq<u8>, label: Seq<char>) -> u64 {
    hashing::fnv1a(key + encode_utf8(label))
}

/// A score that counts: the score itself where it is above the lowest, else the
/// least that is, so that whoever weighs something can be chosen.
pub open spec fn counting(weight: Number, score: Number) -> Number {
    if Number::nought().below(weight) && !Number::bottom().below(score) {
        Number::least()
    } else {
        score
    }
}

/// The score of a hash under a weight: the lowest there is where the hash is
/// zero or the weight is not positive.
pub open spec fn weighted(hash: u64, weight: Number, g: spec_fn(u64, Number) -> Number) -> Number {
    if hash == 0 || weight.at_most(Number::nought()) {
        Number::bottom()
    } else {
        counting(weight, g(hash, weight))
    }
}

/// Every backend that is up weighs something, and its hash with the key is not
/// zero.
pub open spec fn all_score(pool: Seq<UdpBackend>, key: Seq<u8>) -> bool {
    forall|i: int|
        0 <= i < pool.len() && (#[trigger] pool[i]).alive ==> Number::nought().below(pool[i].weight)
            && joint_hash(key, pool[i].label@) != 0
}

/// What each backend scores for a key; a backend that is down does not score.
pub open spec fn score_list(
    pool: Seq<UdpBackend>,
    key: Seq<u8>,
    g: spec_fn(u64, Number) -> Number,
) -> Seq<Option<Number>> {
    Seq::new(
        pool.len(),
        |i: int|
            if pool[i].alive {
                Some(weighted(joint_hash(key, pool[i].label@), pool[i].weight, g))
            } else {
                None
            },
    )
}

/// The score at `i` is above the lowest, none is above it, and every score
/// before it is below it.
pub open spec fn wins(list: Seq<Option<Number>>, i: int) -> bool {
    &&& 0 <= i < list.len()
    &&& list[i] matches Some(s) && Number::bottom().below(s) && forall|j: int|
        0 <= j < list.len() ==> #[trigger] beaten(list, i, j, s)
}

/// The score at `j` does not stand in the way of a score of `s` at `i`.
pub open spec fn beaten(list: Seq<Option<Number>>, i: int, j: int, s: Number) -> bool {
    list[j] matches Some(t) ==> !s.below(t) && (j < i ==> !t.is_number() || t.below(s))
}

/// The first of the highest scores; none where nothing scores above the
/// lowest.
pub open spec fn winner(list: Seq<Option<Number>>) -> Option<usize> {
    if exists|i: int| wins(list, i) {
        Some((choose|i: int| wins(list, i)) as usize)
    } else {
        None
    }
}

/// The backend for a key.
pub open spec fn choice(
    pool: Seq<UdpBackend>,
    key: Seq<u8>,
    g: spec_fn(u64, Number) -> Number,
) -> Option<usize> {
    winner(score_list(pool, key, g))
}

/// At most one index wins.
pub proof fn law_one_winner(list: Seq<Option<Number>>, i: int, j: int)
    requires
        wins(list, i),
        wins(list, j),
    ensures
        i == j,
{
    let s = list[i]->0;
    let t = list[j]->0;
    assert(beaten(list, i, j, s));
    assert(beaten(list, j, i, t));
}

/// Someone wins as soon as someone scores above the lowest.
proof fn lemma_someone_wins(list: Seq<Option<Number>>, i: int)
    requires
        0 <= i < list.len(),
        list[i] matches Some(s) && Number::bottom().below(s),
    ensures
        exists|w: int| wins(list, w),
{
    lemma_leader(list, list.len() as int, i);
}

proof fn lemma_leader(list: Seq<Option<Number>>, n: int, i: int) -> (w: int)
    requires
        0 <= i < n <= list.len(),
        list[i] matches Some(s) && Number::bottom().below(s),
    ensures
        wins(list.take(n), w),
        n == list.len() ==> wins(list, w),
    decreases n,
{
    let front = list.take(n);
    if exists|k: int| 0 <= k < n - 1 && (#[trigger] list[k] matches Some(s) && Number::bottom().below(s)) {
        let k = choose|k: int|
            0 <= k < n - 1 && (#[trigger] list[k] matches Some(s) && Number::bottom().below(s));
        let w = lemma_leader(list, n - 1, k);
        let shorter = list.take(n - 1);
        let s = shorter[w]->0;
        assert(front[w] == shorter[w]);
        let better = front[n - 1] matches Some(t) && s.below(t);
        if better {
            let t = front[n - 1]->0;
            assert forall|j: int| 0 <= j < front.len() implies #[trigger] beaten(
                front,
                n - 1,
                j,
                t,
            ) by {
                if j < n - 1 {
                    assert(beaten(shorter, w, j, s));
                    assert(front[j] == shorter[j]);
                }
            }
            assert(wins(front, n - 1));
            assert(n == list.len() ==> front =~= list);
            n - 1
        } else {
            assert forall|j: int| 0 <= j < front.len() implies #[trigger] beaten(front, w, j, s) by {
                if j < n - 1 {
                    assert(beaten(shorter, w, j, s));
                    assert(front[j] == shorter[j]);
                }
            }
            assert(wins(front, w));
            assert(n == list.len() ==> front =~= list);
            w
        }
    } else {
        assert(i == n - 1);
        let s = front[i]->0;
        assert forall|j: int| 0 <= j < front.len() implies #[trigger] beaten(front, i, j, s) by {
            if j < i {
                assert(list[j] == front[j]);
            }
        }
        assert(wins(front, i));
        assert(n == list.len() ==> front =~= list);
        i
    }
}

/// The index of the first of the highest scores.
pub fn select_best(list: &[Option<Number>]) -> (r: Option<usize>)
    ensures
        r == winner(list@),
        r matches Some(i) ==> wins(list@, i as int),
        r is None <==> forall|i: int|
            0 <= i < list@.len() && (#[trigger] list@[i]) is Some ==> !Number::bottom().below(
                list@[i]->0,
            ),
{
    let mut best: Option<usize> = None;
    let mut best_score = Number::neg_infinity();
    let mut i: usize = 0;
    while i < list.len()
        invariant
            i <= list@.len(),
            best_score.is_number(),
            best is None ==> best_score == Number::bottom(),
            best matches Some(b) ==> b < i && list@[b as int] == Some(best_score)
                && Number::bottom().below(best_score) && forall|j: int|
                0 <= j < i ==> #[trigger] beaten(list@, b as int, j, best_score),
            best is None ==> forall|j: int|
                0 <= j < i && (#[trigger] list@[j]) is Some ==> !Number::bottom().below(list@[j]->0),
        decreases list@.len() - i,
    {
        if let Some(score) = list[i] {
            if best_score.is_below(score) {
                let ghost last = best;
                let ghost last_score = best_score;
                best_score = score;
                best = Some(i);
                proof {
                    assert forall|j: int| 0 <= j < i + 1 implies #[trigger] beaten(
                        list@,
                        i as int,
                        j,
                        score,
                    ) by {
                        if j < i {
                            if last is Some {
                                assert(beaten(list@, last->0 as int, j, last_score));
                            } else {
                                assert(list@[j] == list@[j]);
                            }
                        }
                    }
                }
            } else {
                assert(best matches Some(b) ==> beaten(list@, b as int, i as int, best_score));
            }
        }
        i = i + 1;
    }
    proof {
        if best is Some {
            let b = best->0 as int;
            assert(wins(list@, b));
            law_one_winner(list@, b, choose|w: int| wins(list@, w));
        } else {
            assert forall|w: int| !wins(list@, w) by {
                if wins(list@, w) {
                    assert(list@[w] is Some);
                }
            }
        }
    }
    best
}

/// A pool whose backends are chosen by score.
pub struct RendezvousHashing {
    backends: Vec<UdpBackend>,
}

impl Algorithm for RendezvousHashing {
    closed spec fn pool(&self) -> Seq<UdpBackend> {
        self.backends@
    }

    fn backends(&self) -> (b: &[UdpBackend]) {
        self.backends.as_slice()
    }
}

impl RendezvousHashing {
    pub fn new(backends: Vec<UdpBackend>) -> (r: RendezvousHashing)
        ensures
            r.pool() == backends@,
    {
        RendezvousHashing { backends }
    }

    fn hash_with_backend(&self, key: &[u8], backend_addr: &str) -> (h: u64)
        ensures
            h == joint_hash(key@, backend_addr@),
    {
        fnv_hash(key, backend_addr.as_bytes())
    }

    /// The score of a hash under a weight; `score` is asked for it unless it is
    /// the lowest.
    pub fn weighted_hash<F: Fn(u64, Number) -> Number>(
        &self,
        hash: u64,
        weight: Number,
        score: &F,
    ) -> (s: Number)
        requires
            scores_all(*score),
        ensures
            hash == 0 || weight.at_most(Number::nought()) ==> s == Number::bottom(),
            hash != 0 && !weight.at_most(Number::nought()) ==> exists|t: Number| #[trigger]
                call_ensures(*score, (hash, weight), t) && s == counting(weight, t),
            hash != 0 && Number::nought().below(weight) ==> Number::bottom().below(s),
            forall|g: spec_fn(u64, Number) -> Number| #[trigger]
                scores(*score, g) ==> s == weighted(hash, weight, g),
    {
        if hash == 0 || weight.is_at_most(Number::zero()) {
            return Number::neg_infinity();
        }
        let s = score(hash, weight);
        if Number::zero().is_below(weight) && !Number::neg_infinity().is_below(s) {
            Number::least_finite()
        } else {
            s
        }
    }

    /// The backend for a key: the one that is up and scores highest, the first
    /// of them where several do.
    pub fn next<F: Fn(u64, Number) -> Number>(&self, key: &[u8], score: &F) -> (r: Option<usize>)
        requires
            scores_all(*score),
        ensures
            r matches Some(i) ==> i < self.pool().len() && self.pool()[i as int].alive,
            (forall|i: int| 0 <= i < self.pool().len() ==> !(#[trigger] self.pool()[i]).alive)
                ==> r is None,
            all_score(self.pool(), key@) ==> (r is None <==> forall|i: int|
                0 <= i < self.pool().len() ==> !(#[trigger] self.pool()[i]).alive),
            forall|g: spec_fn(u64, Number) -> Number| #[trigger]
                scores(*score, g) ==> r == choice(self.pool(), key@, g),
            forall|g: spec_fn(u64, Number) -> Number| #[trigger]
                scores(*score, g) ==> (r matches Some(b) ==> forall|j: int|
                    0 <= j < self.pool().len() && (#[trigger] self.pool()[j]).alive
                        && hashing::fnv1a(key@ + encode_utf8(self.pool()[j].label@)) != 0
                        && Number::nought().below(self.pool()[j].weight) && Number::least().below(
                        g(
                            hashing::fnv1a(key@ + encode_utf8(self.pool()[j].label@)),
                            self.pool()[j].weight,
                        ),
                    ) ==> g(
                        hashing::fnv1a(key@ + encode_utf8(self.pool()[j].label@)),
                        self.pool()[j].weight,
                    ).at_most(
                        g(
                            hashing::fnv1a(key@ + encode_utf8(self.pool()[b as int].label@)),
                            self.pool()[b as int].weight,
                        ),
                    )),
    {
        let mut list: Vec<Option<Number>> = Vec::new();
        let mut i: usize = 0;
        while i < self.backends.len()
            invariant
                scores_all(*score),
                i <= self.backends@.len(),
                list@.len() == i,
                forall|j: int|
                    0 <= j < i ==> ((#[trigger] list@[j]) is Some <==> self.backends@[j].alive),
                all_score(self.backends@, key@) ==> forall|j: int|
                    0 <= j < i ==> ((#[trigger] list@[j]) matches Some(s) ==> Number::bottom().below(
                        s,
                    )),
                forall|g: spec_fn(u64, Number) -> Number|
                    #![trigger scores(*score, g)]
                    scores(*score, g) ==> list@ == score_list(self.backends@, key@, g).take(
                        i as int,
                    ),
            decreases self.backends@.len() - i,
        {
            let ghost before = list@;
            if self.backends[i].is_alive() {
                let hash: u64 = self.hash_with_backend(key, self.backends[i].label.as_str());
                let s = self.weighted_hash(hash, self.backends[i].weight(), score);
                list.push(Some(s));
            } else {
                list.push(None);
            }
            assert forall|g: spec_fn(u64, Number) -> Number|
                #![trigger scores(*score, g)]
                scores(*score, g) implies list@ == score_list(self.backends@, key@, g).take(
                i + 1,
            ) by {
                let full = score_list(self.backends@, key@, g);
                assert(before == full.take(i as int));
                assert(list@ =~= full.take(i + 1));
            }
            i = i + 1;
        }
        let r = select_best(list.as_slice());
        proof {
            assert forall|g: spec_fn(u64, Number) -> Number| #[trigger]
                scores(*score, g) implies r == choice(self.pool(), key@, g) by {
                let full = score_list(self.pool(), key@, g);
                assert(full.take(i as int) =~= full);
            }
            assert forall|g: spec_fn(u64, Number) -> Number| #[trigger]
                scores(*score, g) implies (r matches Some(b) ==> forall|j: int|
                    0 <= j < self.pool().len() && (#[trigger] self.pool()[j]).alive
                        && hashing::fnv1a(key@ + encode_utf8(self.pool()[j].label@)) != 0
                        && Number::nought().below(self.pool()[j].weight) && Number::least().below(
                        g(
                            hashing::fnv1a(key@ + encode_utf8(self.pool()[j].label@)),
                            self.pool()[j].weight,
                        ),
                    ) ==> g(
                        hashing::fnv1a(key@ + encode_utf8(self.pool()[j].label@)),
                        self.pool()[j].weight,
                    ).at_most(
                        g(
                            hashing::fnv1a(key@ + encode_utf8(self.pool()[b as int].label@)),
                            self.pool()[b as int].weight,
                        ),
                    )) by {
                if r is Some {
                    law_highest_score_is_chosen(self.pool(), key@, g, r->0);
                }
            }
            if r is Some {
                assert(exists|w: int| wins(list@, w));
                let w = choose|w: int| wins(list@, w);
                assert(list@[w] is Some);
            }
            if all_score(self.pool(), key@) && exists|j: int|
                0 <= j < self.pool().len() && (#[trigger] self.pool()[j]).alive {
                let j = choose|j: int|
                    0 <= j < self.pool().len() && (#[trigger] self.pool()[j]).alive;
                assert(list@[j] is Some);
                lemma_someone_wins(list@, j);
            }
        }
        r
    }

    /// Marks a backend as up or down.
    pub fn set_alive(&mut self, index: usize, alive: bool)
        requires
            index < old(self).pool().len(),
        ensures
            final(self).pool() == algorithm::with_alive(old(self).pool(), index as int, alive),
    {
        self.backends[index].set_alive(alive);
    }
}

/// When a backend fails, only its traffic is redistributed: a key that it
/// does not serve is served as before.
pub proof fn law_failure_spares_other_flows(
    pool: Seq<UdpBackend>,
    key: Seq<u8>,
    g: spec_fn(u64, Number) -> Number,
    failed: int,
)
    requires
        0 <= failed < pool.len() <= usize::MAX,
        choice(pool, key, g) != Some(failed as usize),
    ensures
        choice(algorithm::with_alive(pool, failed, false), key, g) == choice(pool, key, g),
{
    let before = score_list(pool, key, g);
    let after = score_list(algorithm::with_alive(pool, failed, false), key, g);
    if choice(pool, key, g) is Some {
        let i = choose|i: int| wins(before, i);
        let s = before[i]->0;
        assert forall|j: int| 0 <= j < after.len() implies #[trigger] beaten(after, i, j, s) by {
            assert(beaten(before, i, j, s));
        }
        assert(after[i] == before[i]);
        assert(wins(after, i));
        law_one_winner(after, i, choose|w: int| wins(after, w));
    } else if exists|w: int| wins(after, w) {
        let w = choose|w: int| wins(after, w);
        assert(before[w] == after[w]);
        lemma_someone_wins(before, w);
    }
}

/// A failed backend serves no key, and a key that it served goes to another
/// backend that scores for it, as soon as there is one.
pub proof fn law_failed_flows_move(
    pool: Seq<UdpBackend>,
    key: Seq<u8>,
    g: spec_fn(u64, Number) -> Number,
    failed: int,
    other: int,
)
    requires
        0 <= failed < pool.len() <= usize::MAX,
        0 <= other < pool.len(),
        other != failed,
        pool[other].alive,
        Number::bottom().below(
            weighted(joint_hash(key, pool[other].label@), pool[other].weight, g),
        ),
    ensures
        choice(algorithm::with_alive(pool, failed, false), key, g) matches Some(i) && i != failed
            && i < pool.len() && pool[i as int].alive,
{
    let after = score_list(algorithm::with_alive(pool, failed, false), key, g);
    lemma_someone_wins(after, other);
    let w = choose|w: int| wins(after, w);
    assert(after[w] is Some);
}

/// When the backend comes back, so does its traffic: every key is served as
/// before it failed.
pub proof fn law_recovery_restores_flows(
    pool: Seq<UdpBackend>,
    key: Seq<u8>,
    g: spec_fn(u64, Number) -> Number,
    failed: int,
)
    requires
        0 <= failed < pool.len(),
        pool[failed].alive,
    ensures
        choice(algorithm::with_alive(algorithm::with_alive(pool, failed, false), failed, true), key, g) == choice(
            pool,
            key,
            g,
        ),
{
    assert(algorithm::with_alive(algorithm::with_alive(pool, failed, false), failed, true) =~= pool);
}

/// Where those that are up weigh something and no hash is zero, a key is served
/// exactly when a backend is up, whatever the scores come to: by one that is
/// up, with the highest score of all that are, and the first of those.
pub proof fn law_given_exactly_when_one_is_up(
    pool: Seq<UdpBackend>,
    key: Seq<u8>,
    g: spec_fn(u64, Number) -> Number,
)
    requires
        pool.len() <= usize::MAX,
        all_score(pool, key),
    ensures
        choice(pool, key, g) is None <==> forall|i: int|
            0 <= i < pool.len() ==> !(#[trigger] pool[i]).alive,
        choice(pool, key, g) matches Some(b) ==> b < pool.len() && pool[b as int].alive && forall|
            j: int,
        |
            0 <= j < pool.len() && (#[trigger] pool[j]).alive ==> {
                let s = weighted(joint_hash(key, pool[b as int].label@), pool[b as int].weight, g);
                let t = weighted(joint_hash(key, pool[j].label@), pool[j].weight, g);
                t.at_most(s) && (j < b ==> t.below(s))
            },
{
    let list = score_list(pool, key, g);
    if exists|i: int| 0 <= i < pool.len() && (#[trigger] pool[i]).alive {
        let i = choose|i: int| 0 <= i < pool.len() && (#[trigger] pool[i]).alive;
        lemma_someone_wins(list, i);
    }
    if choice(pool, key, g) is Some {
        let w = choose|w: int| wins(list, w);
        let s = list[w]->0;
        assert forall|j: int| 0 <= j < pool.len() && (#[trigger] pool[j]).alive implies {
            let t = weighted(joint_hash(key, pool[j].label@), pool[j].weight, g);
            t.at_most(s) && (j < w ==> t.below(s))
        } by {
            assert(beaten(list, w, j, s));
        }
    }
}

/// Failure of one backend, seen from a key that is served by `x`: unless it is
/// `x` that fails, `x` goes on to serve the key; where it is, the key goes to
/// another backend that is up, and to none exactly when no other is.
pub proof fn law_one_failure(
    pool: Seq<UdpBackend>,
    key: Seq<u8>,
    g: spec_fn(u64, Number) -> Number,
    x: usize,
    y: usize,
)
    requires
        pool.len() <= usize::MAX,
        x < pool.len(),
        y < pool.len(),
        all_score(pool, key),
        choice(pool, key, g) == Some(x),
    ensures
        ({
            let after = choice(algorithm::with_alive(pool, y as int, false), key, g);
            &&& y != x ==> after == Some(x)
            &&& y == x ==> after != Some(x)
            &&& y == x ==> (after matches Some(z) ==> z < pool.len() && pool[z as int].alive)
            &&& y == x ==> (after is None <==> forall|i: int|
                0 <= i < pool.len() && i != x ==> !(#[trigger] pool[i]).alive)
        }),
{
    if y != x {
        law_failure_spares_other_flows(pool, key, g, y as int);
    } else {
        let rest = algorithm::with_alive(pool, y as int, false);
        assert forall|i: int| 0 <= i < rest.len() && (#[trigger] rest[i]).alive implies
            Number::nought().below(rest[i].weight) && joint_hash(key, rest[i].label@) != 0 by {
            assert(rest[i] == pool[i]);
        }
        law_given_exactly_when_one_is_up(rest, key, g);
        let after = choice(rest, key, g);
        if after is Some {
            assert(rest[after->0 as int].alive);
            assert(rest[after->0 as int] == pool[after->0 as int]);
        } else {
            assert forall|i: int| 0 <= i < pool.len() && i != x implies !(#[trigger] pool[i]).alive by {
                assert(rest[i] == pool[i]);
                assert(!rest[i].alive);
            }
        }
    }
}

/// What is hashed for a backend is the whole key, whatever its length, and
/// behind it the whole address.
pub proof fn law_whole_key_is_hashed(key: Seq<u8>, label: Seq<char>)
    ensures
        joint_hash(key, label) == hashing::fnv1a(key + encode_utf8(label)),
{
}

/// Every byte of the key counts: keys that differ in one byte, wherever it is,
/// have different hashes with every backend.
pub proof fn law_every_byte_of_the_key_counts(
    head: Seq<u8>,
    a: u8,
    b: u8,
    tail: Seq<u8>,
    label: Seq<char>,
)
    ensures
        joint_hash(head.push(a) + tail, label) == joint_hash(head.push(b) + tail, label) <==> a == b,
        joint_hash(head.push(a), label) == joint_hash(head.push(b), label) <==> a == b,
{
    let address = encode_utf8(label);
    assert(head.push(a) + tail + address =~= head.push(a) + (tail + address));
    assert(head.push(b) + tail + address =~= head.push(b) + (tail + address));
    hashing::law_one_byte_changes_the_hash(head, a, b, tail + address);
    hashing::law_one_byte_changes_the_hash(head, a, b, address);
}

/// With one backend, two keys have the same hash exactly when the keys alone
/// do: the address hides no difference between keys.
pub proof fn law_address_hides_no_key(x: Seq<u8>, y: Seq<u8>, label: Seq<char>)
    ensures
        joint_hash(x, label) == joint_hash(y, label) <==> hashing::fnv1a(x) == hashing::fnv1a(y),
{
    hashing::law_same_tail_keeps_hashes_apart(x, y, encode_utf8(label));
}

/// Whoever is chosen is up and scores, and no score above the least that
/// counts, of anybody that is up, is higher than the chosen one's. A score is
/// that of the hash of the key followed by the address, under the weight.
pub proof fn law_highest_score_is_chosen(
    pool: Seq<UdpBackend>,
    key: Seq<u8>,
    g: spec_fn(u64, Number) -> Number,
    b: usize,
)
    requires
        pool.len() <= usize::MAX,
        choice(pool, key, g) == Some(b),
    ensures
        b < pool.len(),
        pool[b as int].alive,
        hashing::fnv1a(key + encode_utf8(pool[b as int].label@)) != 0,
        !pool[b as int].weight.at_most(Number::nought()),
        forall|j: int|
            0 <= j < pool.len() && (#[trigger] pool[j]).alive && hashing::fnv1a(
                key + encode_utf8(pool[j].label@),
            ) != 0 && Number::nought().below(pool[j].weight) && Number::least().below(
                g(hashing::fnv1a(key + encode_utf8(pool[j].label@)), pool[j].weight),
            ) ==> g(hashing::fnv1a(key + encode_utf8(pool[j].label@)), pool[j].weight).at_most(
                g(
                    hashing::fnv1a(key + encode_utf8(pool[b as int].label@)),
                    pool[b as int].weight,
                ),
            ),
{
    let list = score_list(pool, key, g);
    let w = choose|w: int| wins(list, w);
    let s = list[w]->0;
    assert(wins(list, w));
    assert(list[w] is Some);
    assert forall|j: int|
        0 <= j < pool.len() && (#[trigger] pool[j]).alive && hashing::fnv1a(
            key + encode_utf8(pool[j].label@),
        ) != 0 && Number::nought().below(pool[j].weight) && Number::least().below(
            g(hashing::fnv1a(key + encode_utf8(pool[j].label@)), pool[j].weight),
        ) implies g(hashing::fnv1a(key + encode_utf8(pool[j].label@)), pool[j].weight).at_most(
        g(hashing::fnv1a(key + encode_utf8(pool[b as int].label@)), pool[b as int].weight),
    ) by {
        assert(beaten(list, w, j, s));
    }
}

/// Among backends that are up, weigh something, have a hash and a score above
/// the lowest, the one that scores above all others is chosen, wherever it
/// stands in the pool.
pub proof fn law_sole_highest_wins(
    pool: Seq<UdpBackend>,
    key: Seq<u8>,
    g: spec_fn(u64, Number) -> Number,
    b: usize,
)
    requires
        b < pool.len() <= usize::MAX,
        pool[b as int].alive,
        forall|j: int|
            0 <= j < pool.len() && (#[trigger] pool[j]).alive ==> hashing::fnv1a(
                key + encode_utf8(pool[j].label@),
            ) != 0 && Number::nought().below(pool[j].weight) && Number::bottom().below(
                g(hashing::fnv1a(key + encode_utf8(pool[j].label@)), pool[j].weight),
            ),
        forall|j: int|
            0 <= j < pool.len() && j != b && (#[trigger] pool[j]).alive ==> g(
                hashing::fnv1a(key + encode_utf8(pool[j].label@)),
                pool[j].weight,
            ).below(
                g(
                    hashing::fnv1a(key + encode_utf8(pool[b as int].label@)),
                    pool[b as int].weight,
                ),
            ),
    ensures
        choice(pool, key, g) == Some(b),
{
    let list = score_list(pool, key, g);
    let s = list[b as int]->0;
    assert forall|j: int| 0 <= j < list.len() implies #[trigger] beaten(list, b as int, j, s) by {
        if pool[j].alive {
            assert(list[j] is Some);
        }
    }
    assert(wins(list, b as int));
    law_one_winner(list, b as int, choose|w: int| wins(list, w));
}

/// A score counts as it is given wherever it is above the lowest; one that is
/// not counts as the least that is, so that a positive weight is never out of
/// the running; a hash or a weight of nought always is.
pub proof fn law_positive_weights_stay_in(
    hash: u64,
    weight: Number,
    g: spec_fn(u64, Number) -> Number,
)
    ensures
        hash != 0 && Number::nought().below(weight) ==> Number::bottom().below(
            weighted(hash, weight, g),
        ),
        hash != 0 && Number::nought().below(weight) && Number::bottom().below(g(hash, weight))
            ==> weighted(hash, weight, g) == g(hash, weight),
        hash != 0 && Number::nought().below(weight) && !Number::bottom().below(g(hash, weight))
            ==> weighted(hash, weight, g) == Number::least(),
        hash == 0 ==> weighted(hash, weight, g) == Number::bottom(),
        weight.at_most(Number::nought()) ==> weighted(hash, weight, g) == Number::bottom(),
{
}

/// Where two backends score the same, the first in the pool is chosen: whoever
/// is chosen scores above everybody before it.
pub proof fn law_first_of_equals_is_chosen(
    pool: Seq<UdpBackend>,
    key: Seq<u8>,
    g: spec_fn(u64, Number) -> Number,
    b: usize,
    j: int,
)
    requires
        pool.len() <= usize::MAX,
        choice(pool, key, g) == Some(b),
        0 <= j < b,
        pool[j].alive,
        hashing::fnv1a(key + encode_utf8(pool[j].label@)) != 0,
        Number::nought().below(pool[j].weight),
        Number::bottom().below(
            g(hashing::fnv1a(key + encode_utf8(pool[j].label@)), pool[j].weight),
        ),
    ensures
        g(hashing::fnv1a(key + encode_utf8(pool[j].label@)), pool[j].weight).below(
            g(hashing::fnv1a(key + encode_utf8(pool[b as int].label@)), pool[b as int].weight),
        ),
{
    let list = score_list(pool, key, g);
    let w = choose|w: int| wins(list, w);
    let s = list[w]->0;
    assert(wins(list, w));
    assert(beaten(list, w, j, s));
}

/// A score that is handed in computes a function exactly when whatever it
/// gives is what the function gives, for all hashes and weights; and it is
/// defined on all of them exactly when it may be called on all of them.
pub proof fn law_handed_in_scores<F: Fn(u64, Number) -> Number>(
    f: F,
    g: spec_fn(u64, Number) -> Number,
)
    ensures
        scores(f, g) <==> forall|h: u64, w: Number, r: Number| #[trigger]
            call_ensures(f, (h, w), r) ==> r == g(h, w),
        scores_all(f) <==> forall|h: u64, w: Number| #[trigger] call_requires(f, (h, w)),
{
}

/// All score as soon as each that is up weighs something and does not hash to
/// nought with the key.
pub proof fn law_who_scores(pool: Seq<UdpBackend>, key: Seq<u8>)
    ensures
        all_score(pool, key) <==> forall|i: int|
            0 <= i < pool.len() && (#[trigger] pool[i]).alive ==> Number::nought().below(
                pool[i].weight,
            ) && hashing::fnv1a(key + encode_utf8(pool[i].label@)) != 0,
{
}

/// The winner of a list of scores is in it and has a score above the lowest;
/// nobody scores higher, and nobody before it as high. Nobody wins exactly
/// where nobody scores above the lowest.
pub proof fn law_winner_of_a_list(list: Seq<Option<Number>>, j: int)
    requires
        list.len() <= usize::MAX,
    ensures
        winner(list) matches Some(i) ==> {
            &&& i < list.len()
            &&& list[i as int] is Some
            &&& Number::bottom().below(list[i as int]->0)
            &&& 0 <= j < list.len() && list[j] is Some ==> !list[i as int]->0.below(list[j]->0)
            &&& 0 <= j < i && list[j] is Some && list[j]->0.is_number() ==> list[j]->0.below(
                list[i as int]->0,
            )
        },
        winner(list) is None && 0 <= j < list.len() && list[j] is Some ==> !Number::bottom().below(
            list[j]->0,
        ),
{
    if winner(list) is Some {
        let w = choose|w: int| wins(list, w);
        assert(wins(list, w));
        if 0 <= j < list.len() {
            assert(beaten(list, w, j, list[w]->0));
        }
    } else if 0 <= j < list.len() && list[j] is Some && Number::bottom().below(list[j]->0) {
        lemma_someone_wins(list, j);
    }
}

} // verus!
