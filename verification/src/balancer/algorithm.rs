//! What the ways of choosing a backend have in common.
use crate::balancer::backend::UdpBackend;
use crate::number::Number;
use vstd::prelude::*;

verus! {

/// A pool of backends with a way to choose among them. How a choice is asked
/// for differs: each way is handed the arithmetic that it needs.
pub trait Algorithm {
    /// The backends, in the order in which they were configured.
    spec fn pool(&self) -> Seq<UdpBackend>;

    fn backends(&self) -> (b: &[UdpBackend])
        ensures
            b@ == self.pool(),
    ;
}

/// `f` computes the function `g` of two numbers.
pub open spec fn computes<F: Fn(Number, Number) -> Number>(
    f: F,
    g: spec_fn(Number, Number) -> Number,
) -> bool {
    forall|a: Number, b: Number, r: Number| #[trigger]
        call_ensures(f, (a, b), r) ==> r == g(a, b)
}

/// `f` may be called on any two numbers.
pub open spec fn is_total<F: Fn(Number, Number) -> Number>(f: F) -> bool {
    forall|a: Number, b: Number| #[trigger] call_requires(f, (a, b))
}

/// The pool with one backend marked as up or down.
pub open spec fn with_alive(pool: Seq<UdpBackend>, i: int, alive: bool) -> Seq<UdpBackend> {
    pool.update(i, (UdpBackend { alive, ..pool[i] }))
}

/// The indices, below `n`, of the backends that are up, in order.
pub open spec fn alive_below(pool: Seq<UdpBackend>, n: nat) -> Seq<usize>
    decreases n,
{
    if n == 0 {
        Seq::empty()
    } else if pool[n - 1].alive {
        alive_below(pool, (n - 1) as nat).push((n - 1) as usize)
    } else {
        alive_below(pool, (n - 1) as nat)
    }
}

/// The indices of the backends that are up, in order.
pub open spec fn alive_indices(pool: Seq<UdpBackend>) -> Seq<usize> {
    alive_below(pool, pool.len())
}

/// `alive_below` lists exactly the backends that are up, each once.
pub proof fn lemma_alive_below(pool: Seq<UdpBackend>, n: nat)
    requires
        n <= pool.len() <= usize::MAX,
    ensures
        alive_below(pool, n).len() <= n,
        forall|j: int|
            0 <= j < alive_below(pool, n).len() ==> (#[trigger] alive_below(pool, n)[j]) < n
                && pool[alive_below(pool, n)[j] as int].alive,
        forall|i: int|
            0 <= i < n && (#[trigger] pool[i]).alive ==> alive_below(pool, n).contains(i as usize),
        alive_below(pool, n).no_duplicates(),
    decreases n,
{
    if n > 0 {
        lemma_alive_below(pool, (n - 1) as nat);
        let shorter = alive_below(pool, (n - 1) as nat);
        let s = alive_below(pool, n);
        assert forall|i: int| 0 <= i < n && (#[trigger] pool[i]).alive implies s.contains(
            i as usize,
        ) by {
            if i == n - 1 {
                assert(s[s.len() - 1] == i as usize);
            } else {
                assert(shorter.contains(i as usize));
                let j = choose|j: int| 0 <= j < shorter.len() && shorter[j] == i as usize;
                assert(s[j] == i as usize);
            }
        }
    }
}

/// The indices of the backends that are up, in order.
pub fn alive_list(pool: &[UdpBackend]) -> (alive: Vec<usize>)
    ensures
        alive@ == alive_indices(pool@),
        pool@.len() <= usize::MAX,
{
    let mut alive: Vec<usize> = Vec::new();
    let mut i: usize = 0;
    while i < pool.len()
        invariant
            i <= pool@.len(),
            alive@ == alive_below(pool@, i as nat),
        decreases pool@.len() - i,
    {
        if pool[i].is_alive() {
            alive.push(i);
        }
        i = i + 1;
    }
    alive
}

/// The list of those that are up is just that: an index is in it exactly when
/// its backend is up, and the list rises.
pub proof fn law_list_of_those_up(pool: Seq<UdpBackend>, i: usize)
    requires
        pool.len() <= usize::MAX,
    ensures
        alive_indices(pool).contains(i) <==> i < pool.len() && pool[i as int].alive,
        forall|j: int, k: int|
            0 <= j < k < alive_indices(pool).len() ==> #[trigger] alive_indices(pool)[j]
                < #[trigger] alive_indices(pool)[k],
{
    lemma_alive_below(pool, pool.len());
    lemma_alive_rises(pool, pool.len());
}

proof fn lemma_alive_rises(pool: Seq<UdpBackend>, n: nat)
    requires
        n <= pool.len() <= usize::MAX,
    ensures
        forall|j: int, k: int|
            0 <= j < k < alive_below(pool, n).len() ==> #[trigger] alive_below(pool, n)[j]
                < #[trigger] alive_below(pool, n)[k],
    decreases n,
{
    if n > 0 {
        lemma_alive_rises(pool, (n - 1) as nat);
        lemma_alive_below(pool, (n - 1) as nat);
    }
}

/// Marking a backend changes whether it is up and nothing else of it, and
/// nothing at all of the others.
pub proof fn law_marking_changes_one(pool: Seq<UdpBackend>, i: int, alive: bool, j: int)
    requires
        0 <= i < pool.len(),
        0 <= j < pool.len(),
    ensures
        with_alive(pool, i, alive).len() == pool.len(),
        with_alive(pool, i, alive)[i].alive == alive,
        with_alive(pool, i, alive)[j].address == pool[j].address,
        with_alive(pool, i, alive)[j].label == pool[j].label,
        with_alive(pool, i, alive)[j].mode == pool[j].mode,
        with_alive(pool, i, alive)[j].probability == pool[j].probability,
        with_alive(pool, i, alive)[j].weight == pool[j].weight,
        j != i ==> with_alive(pool, i, alive)[j].alive == pool[j].alive,
{
}

/// Arithmetic that is handed in computes a function exactly when whatever it
/// gives is what the function gives, on all numbers; and it is defined on all
/// of them exactly when it may be called on all of them.
pub proof fn law_handed_in_arithmetic<F: Fn(Number, Number) -> Number>(
    f: F,
    g: spec_fn(Number, Number) -> Number,
)
    ensures
        computes(f, g) <==> forall|a: Number, b: Number, r: Number| #[trigger]
            call_ensures(f, (a, b), r) ==> r == g(a, b),
        is_total(f) <==> forall|a: Number, b: Number| #[trigger] call_requires(f, (a, b)),
{
}

} // verus!
