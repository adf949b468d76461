//! Maglev hashing: a lookup table in which every backend holds its share of
//! slots, filled in turns by each backend's own order of preference.
use crate::balancer::algorithm;
use crate::balancer::algorithm::{alive_list, Algorithm};
use crate::balancer::backend::UdpBackend;
use crate::balancer::prime;
use crate::balancer::prime::TABLE_SIZE;
use crate::hashing;
use crate::hashing::fnv_hash;
use crate::number::Number;
use vstd::arithmetic::div_mod::{
    lemma_fundamental_div_mod, lemma_fundamental_div_mod_converse, lemma_mod_bound,
};
use vstd::prelude::*;
use vstd::set_lib::{lemma_int_range, lemma_len_subset, set_int_range};
use vstd::utf8::encode_utf8;

verus! {

/// What a slot holds before a backend has taken it.
pub const FREE: usize = usize::MAX;

/// One share of a backend in the table: the backend's index, the slot it
/// prefers most, and the stride to the next one it prefers.
pub type Entry = (usize, u64, u64);

/// A share that can walk the whole table.
pub open spec fn entry_ok(e: Entry) -> bool {
    &&& e.0 != FREE
    &&& e.1 < TABLE_SIZE
    &&& 1 <= e.2 < TABLE_SIZE
}

/// The slot that comes `k`-th in a share's order of preference.
pub open spec fn preference(e: Entry, k: int) -> int {
    (e.1 + k * e.2) % (TABLE_SIZE as int)
}

/// The place, from `k` on, of the first free slot in a share's order of
/// preference.
pub open spec fn first_free(table: Seq<usize>, e: Entry, k: int) -> int
    decreases TABLE_SIZE - k,
{
    if k >= TABLE_SIZE || table[preference(e, k)] == FREE {
        k
    } else {
        first_free(table, e, k + 1)
    }
}

/// The table after `turns` turns: the shares take turns in order, and each
/// takes the free slot that it prefers most.
pub open spec fn after_turns(entries: Seq<Entry>, turns: nat) -> Seq<usize>
    decreases turns,
{
    if turns == 0 {
        Seq::new(TABLE_SIZE as nat, |c: int| FREE)
    } else {
        let before = after_turns(entries, (turns - 1) as nat);
        let e = entries[(turns - 1) % entries.len() as int];
        before.update(preference(e, first_free(before, e, 0)), e.0)
    }
}

/// The full table of some shares.
pub open spec fn full_table(entries: Seq<Entry>) -> Seq<usize> {
    after_turns(entries, TABLE_SIZE as nat)
}

/// The slots that nobody has taken.
pub open spec fn free_slots(table: Seq<usize>) -> Set<int> {
    Set::new(|c: int| 0 <= c < TABLE_SIZE && table[c] == FREE)
}

proof fn lemma_preference_in_table(e: Entry, k: int)
    ensures
        0 <= preference(e, k) < TABLE_SIZE,
{
    lemma_mod_bound(e.1 + k * e.2, TABLE_SIZE as int);
}

/// No slot comes twice in a share's order of preference.
proof fn lemma_preferences_differ(e: Entry, i: int, j: int)
    requires
        entry_ok(e),
        0 <= i < j < TABLE_SIZE,
    ensures
        preference(e, i) != preference(e, j),
{
    let p = TABLE_SIZE as int;
    let s = e.2 as int;
    let a = e.1 + i * s;
    let b = e.1 + j * s;
    if preference(e, i) == preference(e, j) {
        lemma_fundamental_div_mod(a, p);
        lemma_fundamental_div_mod(b, p);
        let m = b / p - a / p;
        assert((j - i) * s == p * m) by (nonlinear_arith)
            requires
                a == e.1 + i * s,
                b == e.1 + j * s,
                a == p * (a / p) + a % p,
                b == p * (b / p) + b % p,
                a % p == b % p,
                m == b / p - a / p,
        ;
        lemma_fundamental_div_mod_converse((j - i) * s, p, m, 0);
        prime::lemma_no_product_is_a_multiple(j - i, s);
    }
}

/// Every slot comes somewhere in a share's order of preference.
proof fn lemma_every_slot_is_preferred(e: Entry, c: int) -> (k: int)
    requires
        entry_ok(e),
        0 <= c < TABLE_SIZE,
    ensures
        0 <= k < TABLE_SIZE,
        preference(e, k) == c,
{
    let p = TABLE_SIZE as int;
    let slots = Seq::new(TABLE_SIZE as nat, |k: int| preference(e, k));
    assert(slots.no_duplicates()) by {
        assert forall|i: int, j: int|
            0 <= i < slots.len() && 0 <= j < slots.len() && i != j implies slots[i] != slots[j] by {
            if i < j {
                lemma_preferences_differ(e, i, j);
            } else {
                lemma_preferences_differ(e, j, i);
            }
        }
    }
    slots.unique_seq_to_set();
    lemma_int_range(0, p);
    let all = set_int_range(0, p);
    assert(slots.to_set().subset_of(all)) by {
        assert forall|x: int| slots.to_set().contains(x) implies all.contains(x) by {
            let k = choose|k: int| 0 <= k < slots.len() && slots[k] == x;
            lemma_preference_in_table(e, k);
        }
    }
    if !slots.contains(c) {
        assert(slots.to_set().subset_of(all.remove(c)));
        lemma_len_subset(slots.to_set(), all.remove(c));
    }
    choose|k: int| 0 <= k < slots.len() && slots[k] == c
}

/// Slots that are taken may be passed over in the search for a free one.
proof fn lemma_pass_over(table: Seq<usize>, e: Entry, from: int, to: int)
    requires
        from <= to <= TABLE_SIZE,
        forall|k: int| from <= k < to ==> table[#[trigger] preference(e, k)] != FREE,
    ensures
        first_free(table, e, from) == first_free(table, e, to),
    decreases to - from,
{
    if from < to {
        assert(table[preference(e, from)] != FREE);
        lemma_pass_over(table, e, from + 1, to);
    }
}

/// Fills a table for the shares, one turn after the other.
pub fn populate_table(entries: &[Entry]) -> (table: Vec<usize>)
    requires
        entries@.len() > 0,
        forall|i: int| 0 <= i < entries@.len() ==> entry_ok(#[trigger] entries@[i]),
    ensures
        table@ == full_table(entries@),
{
    let n: usize = entries.len();
    let mut table: Vec<usize> = vec![FREE; TABLE_SIZE];
    let mut next: Vec<u64> = vec![0u64; n];
    let mut filled: usize = 0;
    let mut turn: usize = 0;
    assert(table@ =~= after_turns(entries@, 0));
    proof {
        lemma_int_range(0, TABLE_SIZE as int);
        assert(free_slots(table@) =~= set_int_range(0, TABLE_SIZE as int));
        assert(0int % (n as int) == 0) by (nonlinear_arith)
            requires
                n > 0,
        ;
    }
    while filled < TABLE_SIZE
        invariant
            n == entries@.len(),
            n > 0,
            forall|i: int| 0 <= i < n ==> entry_ok(#[trigger] entries@[i]),
            table@.len() == TABLE_SIZE,
            next@.len() == n,
            filled <= TABLE_SIZE,
            turn < n,
            turn == (filled as int) % (n as int),
            table@ == after_turns(entries@, filled as nat),
            free_slots(table@).finite(),
            free_slots(table@).len() == TABLE_SIZE - filled,
            forall|i: int, k: int|
                0 <= i < n && 0 <= k < next@[i] ==> table@[#[trigger] preference(
                    entries@[i],
                    k,
                )] != FREE,
            forall|i: int| 0 <= i < n ==> #[trigger] next@[i] <= TABLE_SIZE,
        decreases TABLE_SIZE - filled,
    {
        let (backend, offset, skip) = entries[turn];
        let ghost e = entries@[turn as int];
        let size: u64 = TABLE_SIZE as u64;
        let mut k: u64 = next[turn];
        let ghost gap = free_slots(table@).choose();
        let ghost mut bound: int = 0;
        proof {
            assert(free_slots(table@).contains(gap));
            bound = lemma_every_slot_is_preferred(e, gap);
            lemma_pass_over(table@, e, 0, k as int);
            assert(k <= bound) by {
                if bound < k {
                    assert(table@[preference(e, bound)] != FREE);
                }
            }
            lemma_walk_fits(e, k as int);
        }
        let mut c: u64 = (offset + k * skip) % size;
        while table[c as usize] != FREE
            invariant
                n == entries@.len(),
                0 <= turn < n,
                e == entries@[turn as int],
                entry_ok(e),
                e == (backend, offset, skip),
                size == TABLE_SIZE,
                table@.len() == TABLE_SIZE,
                k <= bound < TABLE_SIZE,
                table@[preference(e, bound)] == FREE,
                c == preference(e, k as int),
                c < TABLE_SIZE,
                next@[turn as int] <= k,
                first_free(table@, e, 0) == first_free(table@, e, k as int),
                forall|j: int|
                    0 <= j < k ==> table@[#[trigger] preference(e, j)] != FREE,
            decreases bound - k,
        {
            k = k + 1;
            proof {
                assert(preference(e, k - 1) != preference(e, bound));
                lemma_walk_fits(e, k as int);
            }
            c = (offset + k * skip) % size;
            proof {
                lemma_preference_in_table(e, k as int);
            }
        }
        let ghost before = table@;
        table.set(c as usize, backend);
        next.set(turn, k + 1);
        filled = filled + 1;
        proof {
            assert(free_slots(table@) =~= free_slots(before).remove(c as int));
            lemma_next_turn(filled as int - 1, n as int);
            assert(table@ =~= after_turns(entries@, filled as nat));
            assert forall|i: int, j: int|
                0 <= i < n && 0 <= j < next@[i] implies table@[#[trigger] preference(
                entries@[i],
                j,
            )] != FREE by {
                lemma_preference_in_table(entries@[i], j);
                if i == turn && j == k {
                } else {
                    assert(before[preference(entries@[i], j)] != FREE);
                }
            }
        }
        turn = turn + 1;
        if turn == n {
            turn = 0;
        }
    }
    table
}

proof fn lemma_walk_fits(e: Entry, k: int)
    requires
        entry_ok(e),
        0 <= k <= TABLE_SIZE,
    ensures
        0 <= k * e.2 <= TABLE_SIZE * TABLE_SIZE,
{
    assert(0 <= k * e.2 <= TABLE_SIZE * TABLE_SIZE) by (nonlinear_arith)
        requires
            0 <= k <= TABLE_SIZE,
            0 <= e.2 <= TABLE_SIZE,
    ;
}

proof fn lemma_next_turn(t: int, n: int)
    requires
        n > 0,
        t >= 0,
    ensures
        (t + 1) % n == if t % n + 1 == n {
            0
        } else {
            t % n + 1
        },
{
    lemma_fundamental_div_mod(t, n);
    lemma_mod_bound(t, n);
    let q = t / n;
    let r = t % n;
    if r + 1 == n {
        assert(t + 1 == (q + 1) * n) by (nonlinear_arith)
            requires
                t == n * q + r,
                r + 1 == n,
        ;
        lemma_fundamental_div_mod_converse(t + 1, n, q + 1, 0);
    } else {
        assert(t + 1 == q * n + (r + 1)) by (nonlinear_arith)
            requires
                t == n * q + r,
        ;
        lemma_fundamental_div_mod_converse(t + 1, n, q, r + 1);
    }
}

/// Turns leave one free slot less each, and a taken slot holds the backend of
/// some share.
proof fn lemma_turns_take_slots(entries: Seq<Entry>, turns: nat)
    requires
        entries.len() > 0,
        forall|i: int| 0 <= i < entries.len() ==> entry_ok(#[trigger] entries[i]),
        turns <= TABLE_SIZE,
    ensures
        after_turns(entries, turns).len() == TABLE_SIZE,
        free_slots(after_turns(entries, turns)).finite(),
        free_slots(after_turns(entries, turns)).len() == TABLE_SIZE - turns,
        forall|c: int|
            0 <= c < TABLE_SIZE && #[trigger] after_turns(entries, turns)[c] != FREE
                ==> exists|i: int|
                0 <= i < entries.len() && (#[trigger] entries[i]).0 == after_turns(
                    entries,
                    turns,
                )[c],
    decreases turns,
{
    let table = after_turns(entries, turns);
    if turns == 0 {
        lemma_int_range(0, TABLE_SIZE as int);
        assert(free_slots(table) =~= set_int_range(0, TABLE_SIZE as int));
    } else {
        lemma_turns_take_slots(entries, (turns - 1) as nat);
        let before = after_turns(entries, (turns - 1) as nat);
        let at = (turns - 1) % entries.len() as int;
        let e = entries[at];
        let slot = lemma_turn_takes_a_free_slot(before, e);
        assert(free_slots(table) =~= free_slots(before).remove(slot));
        assert forall|c: int| 0 <= c < TABLE_SIZE && #[trigger] table[c] != FREE implies exists|
            i: int,
        |
            0 <= i < entries.len() && (#[trigger] entries[i]).0 == table[c] by {
            if c == slot {
                assert(entries[at].0 == table[c]);
            } else {
                assert(before[c] == table[c]);
            }
        }
    }
}

/// Where some slot is free, the first free slot of a share's order of
/// preference is one.
proof fn lemma_turn_takes_a_free_slot(table: Seq<usize>, e: Entry) -> (slot: int)
    requires
        table.len() == TABLE_SIZE,
        entry_ok(e),
        free_slots(table).finite(),
        free_slots(table).len() > 0,
    ensures
        slot == preference(e, first_free(table, e, 0)),
        0 <= slot < TABLE_SIZE,
        free_slots(table).contains(slot),
{
    let gap = free_slots(table).choose();
    assert(free_slots(table).contains(gap));
    let bound = lemma_every_slot_is_preferred(e, gap);
    lemma_search_ends(table, e, 0, bound);
    let k = first_free(table, e, 0);
    lemma_preference_in_table(e, k);
    preference(e, k)
}

proof fn lemma_search_ends(table: Seq<usize>, e: Entry, from: int, bound: int)
    requires
        from <= bound < TABLE_SIZE,
        table[preference(e, bound)] == FREE,
    ensures
        from <= first_free(table, e, from) <= bound,
        table[preference(e, first_free(table, e, from))] == FREE,
    decreases bound - from,
{
    if table[preference(e, from)] != FREE {
        lemma_search_ends(table, e, from + 1, bound);
    }
}

/// A full table has no free slot, and holds nothing but backends of shares.
proof fn lemma_full_table(entries: Seq<Entry>)
    requires
        entries.len() > 0,
        forall|i: int| 0 <= i < entries.len() ==> entry_ok(#[trigger] entries[i]),
    ensures
        full_table(entries).len() == TABLE_SIZE,
        forall|c: int|
            0 <= c < TABLE_SIZE ==> exists|i: int|
                0 <= i < entries.len() && (#[trigger] entries[i]).0 == #[trigger] full_table(
                    entries,
                )[c],
{
    lemma_turns_take_slots(entries, TABLE_SIZE as nat);
    let table = full_table(entries);
    assert forall|c: int| 0 <= c < TABLE_SIZE implies exists|i: int|
        0 <= i < entries.len() && (#[trigger] entries[i]).0 == #[trigger] table[c] by {
        if table[c] == FREE {
            assert(free_slots(table).contains(c));
        }
    }
}

/// `f` computes how often a weight counts beside the least one.
pub open spec fn counts<F: Fn(Number, Number) -> usize>(
    f: F,
    g: spec_fn(Number, Number) -> usize,
) -> bool {
    forall|a: Number, b: Number, r: usize| #[trigger]
        call_ensures(f, (a, b), r) ==> r == g(a, b)
}

/// `f` may be called on any two numbers.
pub open spec fn counts_all<F: Fn(Number, Number) -> usize>(f: F) -> bool {
    forall|a: Number, b: Number| #[trigger] call_requires(f, (a, b))
}

/// The share of a backend: its most preferred slot and its stride come from
/// the hash of its address.
pub open spec fn share_of(pool: Seq<UdpBackend>, i: usize) -> Entry {
    let bytes = encode_utf8(pool[i as int].label@);
    let h1 = hashing::fnv1a(bytes);
    let h2 = hashing::fnv1a(bytes.push(0xFF));
    (i, (h1 % (TABLE_SIZE as u64)) as u64, (h2 % ((TABLE_SIZE - 1) as u64) + 1) as u64)
}

/// The least weight among some backends.
pub open spec fn least_weight(pool: Seq<UdpBackend>, alive: Seq<usize>) -> Number
    decreases alive.len(),
{
    if alive.len() == 0 {
        Number::top()
    } else {
        least_weight(pool, alive.drop_last()).min_of(pool[alive.last() as int].weight)
    }
}

/// How many shares a backend has: as many as its weight counts, and one at
/// least.
pub open spec fn share_count(weight: Number, least: Number, g: spec_fn(Number, Number) -> usize) -> nat {
    if g(weight, least) < 1 {
        1
    } else {
        g(weight, least) as nat
    }
}

/// The shares of some backends, those of one backend side by side.
pub open spec fn shares(
    pool: Seq<UdpBackend>,
    alive: Seq<usize>,
    least: Number,
    g: spec_fn(Number, Number) -> usize,
) -> Seq<Entry>
    decreases alive.len(),
{
    if alive.len() == 0 {
        Seq::empty()
    } else {
        shares(pool, alive.drop_last(), least, g) + Seq::new(
            share_count(pool[alive.last() as int].weight, least, g),
            |j: int| share_of(pool, alive.last()),
        )
    }
}

/// The table of a pool: empty where no backend is up or some weight is not
/// above zero.
pub open spec fn table_of(pool: Seq<UdpBackend>, g: spec_fn(Number, Number) -> usize) -> Seq<usize> {
    let alive = algorithm::alive_indices(pool);
    let least = least_weight(pool, alive);
    if alive.len() == 0 || least.at_most(Number::nought()) {
        Seq::empty()
    } else {
        full_table(shares(pool, alive, least, g))
    }
}

/// The slot that a key falls into.
pub open spec fn slot_of(key: Seq<u8>) -> int {
    ((hashing::fnv1a(key) as usize) % TABLE_SIZE) as int
}

/// The backend that a table gives for a key.
pub open spec fn lookup(table: Seq<usize>, key: Seq<u8>) -> Option<usize> {
    if table.len() == 0 {
        None
    } else {
        Some(table[slot_of(key)])
    }
}

/// What a request for a key gives, and the table that it leaves: the table's
/// backend where there is one and it is up, else that of a table filled anew.
pub open spec fn choice(
    pool: Seq<UdpBackend>,
    table: Seq<usize>,
    key: Seq<u8>,
    g: spec_fn(Number, Number) -> usize,
) -> (Option<usize>, Seq<usize>) {
    match lookup(table, key) {
        None => (lookup(table_of(pool, g), key), table_of(pool, g)),
        Some(i) => if pool[i as int].alive {
            (Some(i), table)
        } else {
            (lookup(table_of(pool, g), key), table_of(pool, g))
        },
    }
}

/// Maglev hashing over a pool of backends.
pub struct Maglev {
    backends: Vec<UdpBackend>,
    lookup_table: Vec<usize>,
}

impl Algorithm for Maglev {
    closed spec fn pool(&self) -> Seq<UdpBackend> {
        self.backends@
    }

    fn backends(&self) -> (b: &[UdpBackend]) {
        self.backends.as_slice()
    }
}

impl Maglev {
    /// The lookup table as it stands.
    pub closed spec fn table(&self) -> Seq<usize> {
        self.lookup_table@
    }

    /// The table is empty, or full of backends of the pool.
    pub open spec fn wf(&self) -> bool {
        &&& self.pool().len() <= usize::MAX
        &&& self.table().len() == 0 || self.table().len() == TABLE_SIZE
        &&& forall|c: int|
            0 <= c < self.table().len() ==> (#[trigger] self.table()[c]) < self.pool().len()
    }

    /// Every backend in the table is up.
    pub open spec fn fresh(&self) -> bool {
        forall|c: int|
            0 <= c < self.table().len() ==> self.pool()[#[trigger] self.table()[c] as int].alive
    }

    /// A pool with its table; `repetitions` divides a weight by the least one
    /// and rounds.
    pub fn new<R: Fn(Number, Number) -> usize>(backends: Vec<UdpBackend>, repetitions: &R) -> (m: Maglev)
        requires
            counts_all(*repetitions),
        ensures
            m.wf(),
            m.fresh(),
            m.pool() == backends@,
            forall|g: spec_fn(Number, Number) -> usize| #[trigger]
                counts(*repetitions, g) ==> m.table() == table_of(backends@, g),
    {
        let mut m = Maglev { backends, lookup_table: Vec::new() };
        m.rebuild_table(repetitions);
        m
    }

    /// Fills the table anew from the backends that are up.
    pub fn rebuild_table<R: Fn(Number, Number) -> usize>(&mut self, repetitions: &R)
        requires
            counts_all(*repetitions),
        ensures
            final(self).wf(),
            final(self).fresh(),
            final(self).pool() == old(self).pool(),
            final(self).table().len() == 0 <==> algorithm::alive_indices(old(self).pool()).len() == 0
                || least_weight(
                old(self).pool(),
                algorithm::alive_indices(old(self).pool()),
            ).at_most(Number::nought()),
            forall|g: spec_fn(Number, Number) -> usize| #[trigger]
                counts(*repetitions, g) ==> final(self).table() == table_of(old(self).pool(), g),
    {
        let ghost pool = self.pool();
        let alive_indices = alive_list(self.backends.as_slice());
        proof {
            algorithm::lemma_alive_below(pool, pool.len());
        }
        if alive_indices.len() == 0 {
            self.lookup_table = Vec::new();
            return;
        }
        let entries = self.build_weighted_entries(alive_indices.as_slice(), repetitions);
        if entries.len() == 0 {
            self.lookup_table = Vec::new();
            return;
        }
        let table = populate_table(entries.as_slice());
        self.lookup_table = table;
        proof {
            lemma_full_table(entries@);
            assert forall|c: int| 0 <= c < self.table().len() implies (#[trigger] self.table()[c])
                < pool.len() && pool[self.table()[c] as int].alive by {
                let i = choose|i: int|
                    0 <= i < entries@.len() && (#[trigger] entries@[i]).0 == full_table(
                        entries@,
                    )[c];
                assert(pool[entries@[i].0 as int].alive);
            }
        }
    }

    fn build_weighted_entries<R: Fn(Number, Number) -> usize>(
        &self,
        alive_indices: &[usize],
        repetitions: &R,
    ) -> (entries: Vec<Entry>)
        requires
            counts_all(*repetitions),
            self.pool().len() <= usize::MAX,
            alive_indices@.len() > 0,
            forall|j: int|
                0 <= j < alive_indices@.len() ==> (#[trigger] alive_indices@[j]) < self.pool().len()
                    && self.pool()[alive_indices@[j] as int].alive,
        ensures
            entries@.len() == 0 <==> least_weight(self.pool(), alive_indices@).at_most(
                Number::nought(),
            ),
            forall|i: int|
                0 <= i < entries@.len() ==> entry_ok(#[trigger] entries@[i]) && entries@[i].0
                    < self.pool().len() && self.pool()[entries@[i].0 as int].alive,
            forall|g: spec_fn(Number, Number) -> usize| #[trigger]
                counts(*repetitions, g) && !least_weight(self.pool(), alive_indices@).at_most(
                    Number::nought(),
                ) ==> entries@ == shares(
                    self.pool(),
                    alive_indices@,
                    least_weight(self.pool(), alive_indices@),
                    g,
                ),
    {
        let ghost pool = self.pool();
        let mut entries: Vec<Entry> = Vec::new();
        let mut least = Number::infinity();
        let mut i: usize = 0;
        while i < alive_indices.len()
            invariant
                pool == self.backends@,
                i <= alive_indices@.len(),
                least == least_weight(pool, alive_indices@.take(i as int)),
                forall|j: int|
                    0 <= j < alive_indices@.len() ==> (#[trigger] alive_indices@[j]) < pool.len(),
            decreases alive_indices@.len() - i,
        {
            assert(alive_indices@.take(i + 1).drop_last() =~= alive_indices@.take(i as int));
            least = least.min(self.backends[alive_indices[i]].weight());
            i = i + 1;
        }
        assert(alive_indices@.take(i as int) =~= alive_indices@);
        if least.is_at_most(Number::zero()) {
            return entries;
        }
        let mut j: usize = 0;
        while j < alive_indices.len()
            invariant
                pool == self.backends@,
                pool.len() <= usize::MAX,
                counts_all(*repetitions),
                j <= alive_indices@.len(),
                entries@.len() >= j,
                forall|k: int|
                    0 <= k < alive_indices@.len() ==> (#[trigger] alive_indices@[k]) < pool.len()
                        && pool[alive_indices@[k] as int].alive,
                forall|k: int|
                    0 <= k < entries@.len() ==> entry_ok(#[trigger] entries@[k]) && entries@[k].0
                        < pool.len() && pool[entries@[k].0 as int].alive,
                forall|g: spec_fn(Number, Number) -> usize| #[trigger]
                    counts(*repetitions, g) ==> entries@ == shares(
                        pool,
                        alive_indices@.take(j as int),
                        least,
                        g,
                    ),
            decreases alive_indices@.len() - j,
        {
            let backend_idx: usize = alive_indices[j];
            let weight = self.backends[backend_idx].weight();
            let counted: usize = repetitions(weight, least);
            let times: usize = if counted < 1 {
                1
            } else {
                counted
            };
            let (offset, skip) = self.permutation(backend_idx);
            let ghost before = entries@;
            let ghost e = share_of(pool, backend_idx);
            let mut k: usize = 0;
            while k < times
                invariant
                    k <= times,
                    e == (backend_idx, offset, skip),
                    entries@ == before + Seq::new(k as nat, |x: int| e),
                decreases times - k,
            {
                entries.push((backend_idx, offset, skip));
                k = k + 1;
                assert(entries@ =~= before + Seq::new(k as nat, |x: int| e));
            }
            proof {
                assert(alive_indices@.take(j + 1).drop_last() =~= alive_indices@.take(j as int));
                assert forall|x: int| 0 <= x < entries@.len() implies entry_ok(
                    #[trigger] entries@[x],
                ) && entries@[x].0 < pool.len() && pool[entries@[x].0 as int].alive by {
                    if x < before.len() {
                        assert(entries@[x] == before[x]);
                    } else {
                        assert(entries@[x] == e);
                        assert(pool[alive_indices@[j as int] as int].alive);
                    }
                }
                assert forall|g: spec_fn(Number, Number) -> usize| #[trigger]
                    counts(*repetitions, g) implies entries@ == shares(
                    pool,
                    alive_indices@.take(j + 1),
                    least,
                    g,
                ) by {
                    assert(counted == g(weight, least));
                    assert(Seq::new(times as nat, |x: int| e) =~= Seq::new(
                        share_count(weight, least, g),
                        |x: int| share_of(pool, alive_indices@.take(j + 1).last()),
                    ));
                }
            }
            j = j + 1;
        }
        assert(alive_indices@.take(j as int) =~= alive_indices@);
        entries
    }

    fn permutation(&self, backend_index: usize) -> (p: (u64, u64))
        requires
            backend_index < self.pool().len(),
        ensures
            (backend_index, p.0, p.1) == share_of(self.pool(), backend_index),
            p.0 < TABLE_SIZE,
            1 <= p.1 < TABLE_SIZE,
    {
        let addr_bytes = self.backends[backend_index].label.as_str().as_bytes();
        let none: [u8; 0] = [];
        let mark: [u8; 1] = [0xFF];
        let h1: u64 = fnv_hash(addr_bytes, &none);
        let h2: u64 = fnv_hash(addr_bytes, &mark);
        proof {
            let bytes = encode_utf8(self.pool()[backend_index as int].label@);
            assert(bytes + none@ =~= bytes);
            assert(bytes + mark@ =~= bytes.push(0xFF));
        }
        let offset: u64 = h1 % (TABLE_SIZE as u64);
        let skip: u64 = (h2 % ((TABLE_SIZE - 1) as u64)) + 1;
        (offset, skip)
    }

    fn hash_key(key: &[u8]) -> (slot: usize)
        ensures
            slot == slot_of(key@),
            slot < TABLE_SIZE,
    {
        let none: [u8; 0] = [];
        assert(key@ + none@ =~= key@);
        (fnv_hash(key, &none) as usize) % TABLE_SIZE
    }

    /// The backend for a key. An empty table, or a backend that turns out to be
    /// down, has the table filled anew before the key is looked up once more.
    pub fn next<R: Fn(Number, Number) -> usize>(&mut self, key: &[u8], repetitions: &R) -> (r: Option<
        usize,
    >)
        requires
            old(self).wf(),
            counts_all(*repetitions),
        ensures
            final(self).wf(),
            final(self).pool() == old(self).pool(),
            r matches Some(i) ==> i < old(self).pool().len() && old(self).pool()[i as int].alive,
            (lookup(old(self).table(), key@) matches Some(i) ==> !old(self).pool()[i as int].alive)
                ==> final(self).fresh(),
            forall|g: spec_fn(Number, Number) -> usize| #[trigger]
                counts(*repetitions, g) ==> (r, final(self).table()) == choice(
                    old(self).pool(),
                    old(self).table(),
                    key@,
                    g,
                ),
            ({
                let slot = ((hashing::fnv1a(key@) as usize) % TABLE_SIZE) as int;
                if old(self).table().len() > 0 && old(self).pool()[old(
                    self,
                ).table()[slot] as int].alive {
                    &&& r == Some(old(self).table()[slot])
                    &&& final(self).table() == old(self).table()
                } else if final(self).table().len() > 0 {
                    r == Some(final(self).table()[slot])
                } else {
                    r is None
                }
            }),
    {
        let index: usize = Self::hash_key(key);
        if self.lookup_table.len() > 0 {
            let backend_idx: usize = self.lookup_table[index];
            assert(self.table()[index as int] == backend_idx);
            if self.backends[backend_idx].is_alive() {
                return Some(backend_idx);
            }
        }
        self.rebuild_table(repetitions);
        if self.lookup_table.len() == 0 {
            return None;
        }
        let again: usize = self.lookup_table[index];
        assert(self.table()[index as int] == again);
        Some(again)
    }

    /// Marks a backend as up or down; the table stays as it is.
    pub fn set_alive(&mut self, index: usize, alive: bool)
        requires
            old(self).wf(),
            index < old(self).pool().len(),
        ensures
            final(self).wf(),
            final(self).table() == old(self).table(),
            final(self).pool() == algorithm::with_alive(old(self).pool(), index as int, alive),
    {
        self.backends[index].set_alive(alive);
    }
}

/// The slots that a backend holds.
pub open spec fn slots_of(table: Seq<usize>, backend: usize) -> Set<int> {
    Set::new(|c: int| 0 <= c < TABLE_SIZE && table[c] == backend)
}

/// How many slots a backend holds.
pub open spec fn slots_held(table: Seq<usize>, backend: usize) -> nat {
    slots_of(table, backend).len()
}

/// How many of the first `n` shares belong to a backend.
pub open spec fn shares_held(entries: Seq<Entry>, backend: usize, n: nat) -> nat
    decreases n,
{
    if n == 0 {
        0
    } else {
        shares_held(entries, backend, (n - 1) as nat) + if entries[n - 1].0 == backend {
            1nat
        } else {
            0nat
        }
    }
}

/// How many of the first turns belong to a backend.
spec fn turns_held(entries: Seq<Entry>, backend: usize, turns: nat) -> nat
    decreases turns,
{
    if turns == 0 {
        0
    } else {
        turns_held(entries, backend, (turns - 1) as nat) + if entries[(turns - 1)
            % entries.len() as int].0 == backend {
            1nat
        } else {
            0nat
        }
    }
}

proof fn lemma_a_slot_per_turn(entries: Seq<Entry>, backend: usize, turns: nat)
    requires
        entries.len() > 0,
        forall|i: int| 0 <= i < entries.len() ==> entry_ok(#[trigger] entries[i]),
        backend != FREE,
        turns <= TABLE_SIZE,
    ensures
        slots_held(after_turns(entries, turns), backend) == turns_held(entries, backend, turns),
        slots_of(after_turns(entries, turns), backend).finite(),
    decreases turns,
{
    let table = after_turns(entries, turns);
    let now = slots_of(table, backend);
    if turns == 0 {
        assert(now =~= Set::<int>::empty());
    } else {
        lemma_a_slot_per_turn(entries, backend, (turns - 1) as nat);
        lemma_turns_take_slots(entries, (turns - 1) as nat);
        let before = after_turns(entries, (turns - 1) as nat);
        let e = entries[(turns - 1) % entries.len() as int];
        let slot = lemma_turn_takes_a_free_slot(before, e);
        let then = slots_of(before, backend);
        if e.0 == backend {
            assert(now =~= then.insert(slot));
        } else {
            assert(now =~= then);
        }
    }
}

proof fn lemma_turns_go_round(entries: Seq<Entry>, backend: usize, turns: nat)
    requires
        entries.len() > 0,
    ensures
        turns_held(entries, backend, turns) == (turns / entries.len()) * shares_held(
            entries,
            backend,
            entries.len(),
        ) + shares_held(entries, backend, turns % entries.len()),
    decreases turns,
{
    let n = entries.len() as int;
    let all = shares_held(entries, backend, entries.len()) as int;
    if turns == 0 {
        assert(0nat / entries.len() == 0 && 0nat % entries.len() == 0) by (nonlinear_arith)
            requires
                entries.len() > 0,
        ;
        assert(0 * all == 0);
    } else {
        let t = (turns - 1) as nat;
        lemma_turns_go_round(entries, backend, t);
        lemma_next_turn(t as int, n);
        lemma_fundamental_div_mod(t as int, n);
        lemma_fundamental_div_mod(turns as int, n);
        lemma_mod_bound(t as int, n);
        let q = t as int / n;
        let r = t as int % n;
        let q2 = turns as int / n;
        if r + 1 == n {
            assert(q2 == q + 1) by (nonlinear_arith)
                requires
                    t == n * q + r,
                    t + 1 == n * q2,
                    r + 1 == n,
                    n > 0,
            ;
            assert(q2 * all == q * all + all) by (nonlinear_arith)
                requires
                    q2 == q + 1,
            ;
            assert(turns % entries.len() == 0);
            assert(all == shares_held(entries, backend, r as nat) + if entries[r].0 == backend {
                1int
            } else {
                0int
            });
        } else {
            assert(q2 == q) by (nonlinear_arith)
                requires
                    t == n * q + r,
                    t + 1 == n * q2 + (r + 1),
                    n > 0,
            ;
        }
    }
}

proof fn lemma_shares_grow(entries: Seq<Entry>, backend: usize, m: nat, n: nat)
    requires
        m <= n,
    ensures
        shares_held(entries, backend, m) <= shares_held(entries, backend, n),
    decreases n,
{
    if m < n {
        lemma_shares_grow(entries, backend, m, (n - 1) as nat);
    }
}

/// Slots go by shares exactly: the shares take turns, so that a backend holds
/// a slot for each of its shares in every whole round of turns, and one more
/// for each of its shares among the first of the round that is broken off.
pub proof fn law_slots_are_shared_out_in_turns(entries: Seq<Entry>, backend: usize)
    requires
        entries.len() > 0,
        forall|i: int| 0 <= i < entries.len() ==> entry_ok(#[trigger] entries[i]),
        backend != FREE,
    ensures
        slots_held(full_table(entries), backend) == (TABLE_SIZE as nat / entries.len())
            * shares_held(entries, backend, entries.len()) + shares_held(
            entries,
            backend,
            TABLE_SIZE as nat % entries.len(),
        ),
{
    lemma_a_slot_per_turn(entries, backend, TABLE_SIZE as nat);
    lemma_turns_go_round(entries, backend, TABLE_SIZE as nat);
}

/// Slots go by shares: a backend with `r` of the `n` shares holds between
/// `r * (size / n)` and `r * (size / n + 1)` slots of the table.
pub proof fn law_slots_follow_shares(entries: Seq<Entry>, backend: usize)
    requires
        entries.len() > 0,
        forall|i: int| 0 <= i < entries.len() ==> entry_ok(#[trigger] entries[i]),
        backend != FREE,
    ensures
        ({
            let r = shares_held(entries, backend, entries.len());
            let k = TABLE_SIZE as nat / entries.len();
            &&& r * k <= slots_held(full_table(entries), backend)
            &&& slots_held(full_table(entries), backend) <= r * (k + 1)
        }),
{
    let t = TABLE_SIZE as nat;
    let n = entries.len();
    let r = shares_held(entries, backend, n);
    let k = t / n;
    law_slots_are_shared_out_in_turns(entries, backend);
    lemma_mod_bound(t as int, n as int);
    lemma_shares_grow(entries, backend, t % n, n);
    assert(r * k == k * r && r * (k + 1) == k * r + r) by (nonlinear_arith);
}

/// Every slot of a table is taken, and by a backend that is up.
pub proof fn law_table_holds_live_backends(
    pool: Seq<UdpBackend>,
    g: spec_fn(Number, Number) -> usize,
    c: int,
)
    requires
        pool.len() <= usize::MAX,
        0 <= c < table_of(pool, g).len(),
    ensures
        table_of(pool, g).len() == TABLE_SIZE,
        table_of(pool, g)[c] < pool.len(),
        pool[table_of(pool, g)[c] as int].alive,
{
    let alive = algorithm::alive_indices(pool);
    let least = least_weight(pool, alive);
    algorithm::lemma_alive_below(pool, pool.len());
    lemma_shares_are_alive(pool, alive, least, g);
    let entries = shares(pool, alive, least, g);
    lemma_full_table(entries);
    let i = choose|i: int|
        0 <= i < entries.len() && (#[trigger] entries[i]).0 == full_table(entries)[c];
    assert(entry_ok(entries[i]));
}

proof fn lemma_shares_are_alive(
    pool: Seq<UdpBackend>,
    alive: Seq<usize>,
    least: Number,
    g: spec_fn(Number, Number) -> usize,
)
    requires
        pool.len() <= usize::MAX,
        forall|j: int|
            0 <= j < alive.len() ==> (#[trigger] alive[j]) < pool.len()
                && pool[alive[j] as int].alive,
    ensures
        shares(pool, alive, least, g).len() >= alive.len(),
        forall|i: int|
            0 <= i < shares(pool, alive, least, g).len() ==> entry_ok(
                #[trigger] shares(pool, alive, least, g)[i],
            ) && shares(pool, alive, least, g)[i].0 < pool.len() && pool[shares(
                pool,
                alive,
                least,
                g,
            )[i].0 as int].alive,
    decreases alive.len(),
{
    if alive.len() > 0 {
        lemma_shares_are_alive(pool, alive.drop_last(), least, g);
        let fewer = shares(pool, alive.drop_last(), least, g);
        let all = shares(pool, alive, least, g);
        assert forall|i: int| 0 <= i < all.len() implies entry_ok(#[trigger] all[i]) && all[i].0
            < pool.len() && pool[all[i].0 as int].alive by {
            if i < fewer.len() {
                assert(all[i] == fewer[i]);
            } else {
                assert(all[i] == share_of(pool, alive.last()));
                assert(alive[alive.len() - 1] == alive.last());
            }
        }
    }
}

proof fn lemma_same_shares(a: Seq<Entry>, b: Seq<Entry>, backend: usize, n: nat)
    requires
        n <= a.len(),
        n <= b.len(),
        forall|i: int| 0 <= i < n ==> a[i] == b[i],
    ensures
        shares_held(a, backend, n) == shares_held(b, backend, n),
    decreases n,
{
    if n > 0 {
        lemma_same_shares(a, b, backend, (n - 1) as nat);
    }
}

proof fn lemma_shares_of_one(a: Seq<Entry>, e: Entry, m: nat, backend: usize)
    ensures
        shares_held(a + Seq::new(m, |j: int| e), backend, a.len() + m) == shares_held(
            a,
            backend,
            a.len(),
        ) + if e.0 == backend {
            m
        } else {
            0
        },
    decreases m,
{
    let s = a + Seq::new(m, |j: int| e);
    if m == 0 {
        assert(s =~= a);
    } else {
        let t = a + Seq::new((m - 1) as nat, |j: int| e);
        lemma_shares_of_one(a, e, (m - 1) as nat, backend);
        lemma_same_shares(s, t, backend, (a.len() + m - 1) as nat);
    }
}

proof fn lemma_shares_by_weight(
    pool: Seq<UdpBackend>,
    alive: Seq<usize>,
    least: Number,
    g: spec_fn(Number, Number) -> usize,
    i: usize,
)
    requires
        alive.no_duplicates(),
    ensures
        shares_held(
            shares(pool, alive, least, g),
            i,
            shares(pool, alive, least, g).len(),
        ) == if alive.contains(i) {
            share_count(pool[i as int].weight, least, g)
        } else {
            0
        },
    decreases alive.len(),
{
    if alive.len() > 0 {
        let fewer = alive.drop_last();
        assert(fewer.no_duplicates());
        lemma_shares_by_weight(pool, fewer, least, g, i);
        let last = alive.last();
        let m = share_count(pool[last as int].weight, least, g);
        let a = shares(pool, fewer, least, g);
        let e = share_of(pool, last);
        assert(Seq::new(m, |j: int| e) =~= Seq::new(m, |j: int| share_of(pool, alive.last())));
        lemma_shares_of_one(a, e, m, i);
        if i == last {
            assert(alive[alive.len() - 1] == i);
            if fewer.contains(i) {
                let j = choose|j: int| 0 <= j < fewer.len() && fewer[j] == i;
                assert(alive[j] == alive[alive.len() - 1]);
            }
        } else if alive.contains(i) {
            let j = choose|j: int| 0 <= j < alive.len() && alive[j] == i;
            assert(fewer[j] == i);
        } else if fewer.contains(i) {
            let j = choose|j: int| 0 <= j < fewer.len() && fewer[j] == i;
            assert(alive[j] == i);
        }
    }
}

/// Slots go by weight: where `n` is the number of all shares, a backend that
/// is up and counts `w` times holds between `w * (size / n)` and
/// `w * (size / n + 1)` slots, and one that is down holds none.
pub proof fn law_slots_follow_weights(
    pool: Seq<UdpBackend>,
    g: spec_fn(Number, Number) -> usize,
    i: usize,
)
    requires
        pool.len() <= usize::MAX,
        i < pool.len(),
        table_of(pool, g).len() > 0,
    ensures
        ({
            let alive = algorithm::alive_indices(pool);
            let least = least_weight(pool, alive);
            let w = share_count(pool[i as int].weight, least, g);
            let n = shares(pool, alive, least, g).len();
            let k = TABLE_SIZE as nat / n;
            let held = slots_held(table_of(pool, g), i);
            &&& n > 0
            &&& pool[i as int].alive ==> w * k <= held <= w * (k + 1)
            &&& !pool[i as int].alive ==> held == 0
        }),
{
    let alive = algorithm::alive_indices(pool);
    let least = least_weight(pool, alive);
    let entries = shares(pool, alive, least, g);
    algorithm::lemma_alive_below(pool, pool.len());
    lemma_shares_are_alive(pool, alive, least, g);
    lemma_shares_by_weight(pool, alive, least, g, i);
    law_slots_follow_shares(entries, i);
    if !pool[i as int].alive {
        if alive.contains(i) {
            let j = choose|j: int| 0 <= j < alive.len() && alive[j] == i;
            assert(pool[alive[j] as int].alive);
        }
        assert(0 * (TABLE_SIZE as nat / entries.len() + 1) == 0);
    } else {
        assert(alive.contains(i));
    }
}

/// A key that was given a backend is given the same one again, as long as no
/// backend goes up or down.
pub proof fn law_same_key_same_backend(
    pool: Seq<UdpBackend>,
    table: Seq<usize>,
    key: Seq<u8>,
    g: spec_fn(Number, Number) -> usize,
)
    requires
        pool.len() <= usize::MAX,
    ensures
        choice(pool, choice(pool, table, key, g).1, key, g) == choice(pool, table, key, g),
{
    if table_of(pool, g).len() > 0 {
        law_table_holds_live_backends(pool, g, 0);
        law_table_holds_live_backends(pool, g, slot_of(key));
    }
}

/// When a backend goes down, a key of another backend that is up keeps its
/// backend, and the table stays as it is.
pub proof fn law_failure_spares_other_flows(
    pool: Seq<UdpBackend>,
    table: Seq<usize>,
    key: Seq<u8>,
    down: int,
    i: usize,
    g: spec_fn(Number, Number) -> usize,
)
    requires
        0 <= down < pool.len(),
        lookup(table, key) == Some(i),
        i < pool.len(),
        i != down,
        pool[i as int].alive,
    ensures
        choice(algorithm::with_alive(pool, down, false), table, key, g) == (
            Some(i),
            table,
        ),
{
}

/// When the backend of a key goes down, the key is given another backend, one
/// that is up, or none where no table can be filled.
pub proof fn law_failed_flows_move(
    pool: Seq<UdpBackend>,
    table: Seq<usize>,
    key: Seq<u8>,
    i: usize,
    g: spec_fn(Number, Number) -> usize,
)
    requires
        pool.len() <= usize::MAX,
        lookup(table, key) == Some(i),
        i < pool.len(),
        !pool[i as int].alive,
    ensures
        choice(pool, table, key, g).0 is None <==> table_of(pool, g).len() == 0,
        choice(pool, table, key, g).0 matches Some(j) ==> j != i && j < pool.len()
            && pool[j as int].alive,
{
    if table_of(pool, g).len() > 0 {
        law_table_holds_live_backends(pool, g, 0);
        law_table_holds_live_backends(pool, g, slot_of(key));
    }
}

proof fn lemma_least_is_positive(pool: Seq<UdpBackend>, alive: Seq<usize>)
    requires
        forall|j: int|
            0 <= j < alive.len() ==> Number::nought().below(
                pool[(#[trigger] alive[j]) as int].weight,
            ),
    ensures
        Number::nought().below(least_weight(pool, alive)),
    decreases alive.len(),
{
    if alive.len() > 0 {
        assert(Number::nought().below(pool[alive[alive.len() - 1] as int].weight));
        lemma_least_is_positive(pool, alive.drop_last());
    }
}

/// Traffic goes to the backends that are up: where the weights are above zero,
/// a key is given a backend exactly when one is up, whatever the table was,
/// and the one that it is given is up. A table filled for the pool as it is
/// stays, and gives the key the same again.
pub proof fn law_given_exactly_when_one_is_up(
    pool: Seq<UdpBackend>,
    table: Seq<usize>,
    key: Seq<u8>,
    g: spec_fn(Number, Number) -> usize,
)
    requires
        pool.len() <= usize::MAX,
        forall|i: int|
            0 <= i < pool.len() ==> Number::nought().below((#[trigger] pool[i]).weight),
        table.len() == 0 || table.len() == TABLE_SIZE,
        forall|c: int| 0 <= c < table.len() ==> #[trigger] table[c] < pool.len(),
    ensures
        choice(pool, table, key, g).0 is Some <==> exists|i: int|
            0 <= i < pool.len() && (#[trigger] pool[i]).alive,
        choice(pool, table, key, g).0 matches Some(i) ==> i < pool.len() && pool[i as int].alive,
        table == table_of(pool, g) ==> choice(pool, table, key, g) == (lookup(table, key), table),
        choice(pool, choice(pool, table, key, g).1, key, g) == choice(pool, table, key, g),
{
    let alive = algorithm::alive_indices(pool);
    algorithm::lemma_alive_below(pool, pool.len());
    assert forall|j: int| 0 <= j < alive.len() implies Number::nought().below(
        pool[(#[trigger] alive[j]) as int].weight,
    ) by {
        assert(alive[j] < pool.len());
    }
    lemma_least_is_positive(pool, alive);
    law_same_key_same_backend(pool, table, key, g);
    if alive.len() > 0 {
        assert(pool[alive[0] as int].alive);
        lemma_shares_are_alive(pool, alive, least_weight(pool, alive), g);
        lemma_full_table(shares(pool, alive, least_weight(pool, alive), g));
        law_table_holds_live_backends(pool, g, slot_of(key));
    } else {
        assert forall|i: int| 0 <= i < pool.len() implies !(#[trigger] pool[i]).alive by {
            if pool[i].alive {
                assert(alive.contains(i as usize));
            }
        }
    }
}

/// A pool that was down altogether serves again as soon as one of it is up.
pub proof fn law_recovery_brings_traffic_back(
    pool: Seq<UdpBackend>,
    key: Seq<u8>,
    g: spec_fn(Number, Number) -> usize,
    up: int,
)
    requires
        pool.len() <= usize::MAX,
        0 <= up < pool.len(),
        forall|i: int|
            0 <= i < pool.len() ==> !(#[trigger] pool[i]).alive && Number::nought().below(
                pool[i].weight,
            ),
    ensures
        table_of(pool, g).len() == 0,
        choice(algorithm::with_alive(pool, up, true), table_of(pool, g), key, g).0 == Some(
            up as usize,
        ),
{
    let after = algorithm::with_alive(pool, up, true);
    algorithm::lemma_alive_below(pool, pool.len());
    let alive = algorithm::alive_indices(pool);
    if alive.len() > 0 {
        assert(pool[alive[0] as int].alive);
    }
    assert(after[up].alive);
    law_given_exactly_when_one_is_up(after, table_of(pool, g), key, g);
}

/// A key falls into the slot that its hash gives modulo the size of the table,
/// whatever the length of the key.
pub proof fn law_slot_is_the_hash_modulo_the_size(key: Seq<u8>)
    ensures
        slot_of(key) == (hashing::fnv1a(key) as usize) % 65537,
        hashing::fnv1a(key) <= usize::MAX ==> slot_of(key) == hashing::fnv1a(key) as int % 65537,
        0 <= slot_of(key) < 65537,
{
}

/// A request reads the slot that the hash of its whole key gives: where the
/// backend there is up, it is given and the table stays; where it is down, or
/// there is no table, the same slot of the table filled anew is given.
pub proof fn law_request_reads_the_hashed_slot(
    pool: Seq<UdpBackend>,
    table: Seq<usize>,
    key: Seq<u8>,
    g: spec_fn(Number, Number) -> usize,
)
    ensures
        ({
            let slot = ((hashing::fnv1a(key) as usize) % 65537) as int;
            let anew = table_of(pool, g);
            if table.len() > 0 && pool[table[slot] as int].alive {
                choice(pool, table, key, g) == (Some(table[slot]), table)
            } else if anew.len() > 0 {
                choice(pool, table, key, g) == (Some(anew[slot]), anew)
            } else {
                choice(pool, table, key, g) == (None::<usize>, anew)
            }
        }),
{
}

/// Two keys whose hashes agree modulo the size of the table are given the same,
/// and two that do not are given what stands in their two slots: different
/// backends, where different ones stand there.
pub proof fn law_slots_tell_keys_apart(table: Seq<usize>, x: Seq<u8>, y: Seq<u8>)
    requires
        table.len() == 65537,
    ensures
        (hashing::fnv1a(x) as usize) % 65537 == (hashing::fnv1a(y) as usize) % 65537 ==> lookup(
            table,
            x,
        ) == lookup(table, y),
        lookup(table, x) == lookup(table, y) <==> table[((hashing::fnv1a(x) as usize) % 65537) as int]
            == table[((hashing::fnv1a(y) as usize) % 65537) as int],
{
}

/// A share starts where the hash of the backend's address says, modulo the
/// size of the table, and strides by what the hash of the address with an
/// octet of 255 behind it says, between one and the size less one.
pub proof fn law_share_comes_from_the_address(pool: Seq<UdpBackend>, i: usize)
    ensures
        ({
            let bytes = encode_utf8(pool[i as int].label@);
            let share = share_of(pool, i);
            &&& share.0 == i
            &&& share.1 == hashing::fnv1a(bytes) as int % 65537
            &&& share.2 == hashing::fnv1a(bytes.push(255)) as int % 65536 + 1
        }),
{
}

/// Backends with the same address prefer the same slots, whatever their place
/// in the pool and their weight.
pub proof fn law_same_address_same_preferences(
    pool: Seq<UdpBackend>,
    other: Seq<UdpBackend>,
    i: usize,
    j: usize,
    k: int,
)
    requires
        pool[i as int].label@ == other[j as int].label@,
    ensures
        preference(share_of(pool, i), k) == preference(share_of(other, j), k),
{
}

/// From one place in a share's order of preference to the next is one stride,
/// round the end of the table; the first is where the share starts. In as many
/// places as there are slots no slot comes twice.
pub proof fn law_preferences_walk_the_table(e: Entry, j: int, k: int)
    requires
        entry_ok(e),
        0 <= j < k < 65537,
    ensures
        preference(e, 0) == e.1,
        preference(e, k) == (preference(e, k - 1) + e.2) % 65537,
        preference(e, j) != preference(e, k),
{
    lemma_preferences_differ(e, j, k);
    vstd::arithmetic::div_mod::lemma_add_mod_noop(e.1 + (k - 1) * e.2, e.2 as int, 65537);
    vstd::arithmetic::div_mod::lemma_small_mod(e.1 as nat, 65537);
    vstd::arithmetic::div_mod::lemma_small_mod(e.2 as nat, 65537);
    assert((e.1 + (k - 1) * e.2) + e.2 == e.1 + k * e.2) by (nonlinear_arith);
    assert(e.1 + 0 * e.2 == e.1);
}

/// A turn goes to the next share, round the end of the list, and takes for it
/// the free slot that comes first in its order of preference. Nothing else
/// changes.
pub proof fn law_turn_takes_the_preferred_free_slot(entries: Seq<Entry>, turn: nat) -> (k: int)
    requires
        entries.len() > 0,
        forall|i: int| 0 <= i < entries.len() ==> entry_ok(#[trigger] entries[i]),
        turn < 65537,
    ensures
        ({
            let e = entries[turn as int % entries.len() as int];
            let before = after_turns(entries, turn);
            let slot = (e.1 + k * e.2) % 65537;
            &&& 0 <= k < 65537
            &&& before.len() == 65537
            &&& before[slot] == usize::MAX
            &&& forall|j: int|
                0 <= j < k ==> before[#[trigger] preference(e, j)] != usize::MAX
            &&& after_turns(entries, turn + 1) == before.update(slot, e.0)
        }),
        forall|c: int| 0 <= c < 65537 ==> #[trigger] after_turns(entries, 0)[c] == usize::MAX,
{
    lemma_turns_take_slots(entries, turn);
    let before = after_turns(entries, turn);
    let e = entries[turn as int % entries.len() as int];
    assert(entry_ok(e));
    let gap = free_slots(before).choose();
    assert(free_slots(before).contains(gap));
    let bound = lemma_every_slot_is_preferred(e, gap);
    lemma_search_ends(before, e, 0, bound);
    let k = first_free(before, e, 0);
    lemma_all_taken_before(before, e, 0);
    k
}

proof fn lemma_all_taken_before(table: Seq<usize>, e: Entry, from: int)
    requires
        0 <= from <= TABLE_SIZE,
    ensures
        forall|j: int|
            from <= j < first_free(table, e, from) ==> table[#[trigger] preference(e, j)] != FREE,
    decreases TABLE_SIZE - from,
{
    if from < TABLE_SIZE && table[preference(e, from)] != FREE {
        lemma_all_taken_before(table, e, from + 1);
    }
}

/// What a share has taken it keeps: a slot that is taken after some turns holds
/// the same backend in the full table.
pub proof fn law_taken_slots_stay(entries: Seq<Entry>, turns: nat, c: int)
    requires
        entries.len() > 0,
        forall|i: int| 0 <= i < entries.len() ==> entry_ok(#[trigger] entries[i]),
        turns <= 65537,
        0 <= c < 65537,
        after_turns(entries, turns)[c] != usize::MAX,
    ensures
        full_table(entries)[c] == after_turns(entries, turns)[c],
    decreases 65537 - turns,
{
    if turns < 65537 {
        let k = law_turn_takes_the_preferred_free_slot(entries, turns);
        lemma_turns_take_slots(entries, turns);
        lemma_turns_take_slots(entries, turns + 1);
        law_taken_slots_stay(entries, turns + 1, c);
    }
}

/// The first share has the slot that it prefers most.
pub proof fn law_first_share_has_its_first_slot(entries: Seq<Entry>)
    requires
        entries.len() > 0,
        forall|i: int| 0 <= i < entries.len() ==> entry_ok(#[trigger] entries[i]),
    ensures
        full_table(entries)[entries[0].1 as int] == entries[0].0,
{
    let e = entries[0];
    assert(entry_ok(e));
    let k = law_turn_takes_the_preferred_free_slot(entries, 0);
    vstd::arithmetic::div_mod::lemma_small_mod(0, entries.len());
    lemma_preference_in_table(e, 0);
    if k > 0 {
        assert(after_turns(entries, 0)[preference(e, 0)] != usize::MAX);
    }
    vstd::arithmetic::div_mod::lemma_small_mod(e.1 as nat, 65537);
    assert(e.1 + 0 * e.2 == e.1);
    assert(after_turns(entries, 1)[e.1 as int] == e.0);
    law_taken_slots_stay(entries, 1, e.1 as int);
}

/// The shares of a list of backends are those of its front followed by those
/// of its back, wherever the list is cut. A backend alone has as many shares,
/// all alike, as its weight counts beside the least, and one where that is
/// none.
pub proof fn law_shares_follow_each_other(
    pool: Seq<UdpBackend>,
    front: Seq<usize>,
    back: Seq<usize>,
    least: Number,
    g: spec_fn(Number, Number) -> usize,
    i: usize,
)
    ensures
        shares(pool, front + back, least, g) == shares(pool, front, least, g) + shares(
            pool,
            back,
            least,
            g,
        ),
        ({
            let alone = shares(pool, seq![i], least, g);
            let counted = g(pool[i as int].weight, least);
            &&& alone.len() == if counted == 0 {
                1
            } else {
                counted as nat
            }
            &&& forall|j: int| 0 <= j < alone.len() ==> #[trigger] alone[j] == share_of(pool, i)
        }),
    decreases back.len(),
{
    reveal_with_fuel(shares, 2);
    assert(seq![i].drop_last() =~= Seq::<usize>::empty());
    if back.len() == 0 {
        assert(front + back =~= front);
        assert(shares(pool, front + back, least, g) =~= shares(pool, front, least, g) + shares(
            pool,
            back,
            least,
            g,
        ));
    } else {
        law_shares_follow_each_other(pool, front, back.drop_last(), least, g, i);
        assert((front + back).drop_last() =~= front + back.drop_last());
        assert((front + back).last() == back.last());
        assert(shares(pool, front + back, least, g) =~= shares(pool, front, least, g) + shares(
            pool,
            back,
            least,
            g,
        ));
    }
}

/// The least weight of some backends is the weight of one of them, where one
/// of them has a number for a weight below infinity, and no weight among them
/// is below it.
pub proof fn law_least_weight_is_least(pool: Seq<UdpBackend>, alive: Seq<usize>)
    ensures
        least_weight(pool, alive).is_number(),
        forall|j: int|
            0 <= j < alive.len() ==> !pool[#[trigger] alive[j] as int].weight.below(
                least_weight(pool, alive),
            ),
        least_weight(pool, alive) == Number::top() || exists|j: int|
            0 <= j < alive.len() && pool[#[trigger] alive[j] as int].weight == least_weight(
                pool,
                alive,
            ),
    decreases alive.len(),
{
    if alive.len() > 0 {
        let front = alive.drop_last();
        law_least_weight_is_least(pool, front);
        let least = least_weight(pool, alive);
        let before = least_weight(pool, front);
        let last = alive.len() - 1;
        assert forall|j: int| 0 <= j < alive.len() implies !pool[#[trigger] alive[j] as int].weight.below(
            least,
        ) by {
            if j < last {
                assert(alive[j] == front[j]);
            }
        }
        if least == before {
            if before != Number::top() {
                let j = choose|j: int|
                    0 <= j < front.len() && pool[#[trigger] front[j] as int].weight == before;
                assert(alive[j] == front[j]);
            }
        } else {
            assert(pool[alive[last] as int].weight == least);
        }
    }
}

/// A table is empty exactly when nobody is up, or somebody is with a weight
/// that is not above nought; else it has all its slots.
pub proof fn law_when_there_is_a_table(pool: Seq<UdpBackend>, g: spec_fn(Number, Number) -> usize)
    requires
        pool.len() <= usize::MAX,
    ensures
        table_of(pool, g).len() == 0 || table_of(pool, g).len() == 65537,
        table_of(pool, g).len() == 0 <==> (forall|i: int|
            0 <= i < pool.len() ==> !(#[trigger] pool[i]).alive) || (exists|i: int|
            0 <= i < pool.len() && (#[trigger] pool[i]).alive && pool[i].weight.at_most(
                Number::nought(),
            )),
{
    let alive = algorithm::alive_indices(pool);
    let least = least_weight(pool, alive);
    algorithm::lemma_alive_below(pool, pool.len());
    law_least_weight_is_least(pool, alive);
    if alive.len() > 0 && !least.at_most(Number::nought()) {
        lemma_shares_are_alive(pool, alive, least, g);
        lemma_full_table(shares(pool, alive, least, g));
    }
    if alive.len() > 0 {
        assert(pool[alive[0] as int].alive);
    }
    assert forall|i: int| 0 <= i < pool.len() && (#[trigger] pool[i]).alive implies alive.len() > 0 && (
    pool[i].weight.at_most(Number::nought()) ==> least.at_most(Number::nought())) by {
        assert(alive.contains(i as usize));
        let j = choose|j: int| 0 <= j < alive.len() && alive[j] == i as usize;
        assert(!pool[alive[j] as int].weight.below(least));
    }
    if alive.len() > 0 && least.at_most(Number::nought()) {
        let j = choose|j: int|
            0 <= j < alive.len() && pool[#[trigger] alive[j] as int].weight == least;
        assert(pool[alive[j] as int].alive);
    }
}

/// The table of a pool is the one that the shares of those that are up fill in
/// the order of the pool, counted beside the least weight among them; so the
/// first that is up has the slot that the hash of its address gives.
pub proof fn law_table_is_filled_in_the_order_of_the_pool(
    pool: Seq<UdpBackend>,
    g: spec_fn(Number, Number) -> usize,
    first: usize,
)
    requires
        pool.len() <= usize::MAX,
        first < pool.len(),
        pool[first as int].alive,
        forall|i: int| 0 <= i < first ==> !(#[trigger] pool[i]).alive,
        table_of(pool, g).len() > 0,
    ensures
        ({
            let alive = algorithm::alive_indices(pool);
            table_of(pool, g) == full_table(shares(pool, alive, least_weight(pool, alive), g))
        }),
        table_of(pool, g)[hashing::fnv1a(encode_utf8(pool[first as int].label@)) as int % 65537]
            == first,
{
    let alive = algorithm::alive_indices(pool);
    let least = least_weight(pool, alive);
    let entries = shares(pool, alive, least, g);
    algorithm::lemma_alive_below(pool, pool.len());
    algorithm::law_list_of_those_up(pool, first);
    lemma_shares_are_alive(pool, alive, least, g);
    assert(pool[alive[0] as int].alive);
    assert(alive[0] == first) by {
        let j = choose|j: int| 0 <= j < alive.len() && alive[j] == first;
        if j > 0 {
            assert(alive[0] < alive[j]);
        }
    }
    assert(alive =~= seq![first] + alive.skip(1));
    law_shares_follow_each_other(pool, seq![first], alive.skip(1), least, g, first);
    assert(entries[0] == shares(pool, seq![first], least, g)[0]);
    law_share_comes_from_the_address(pool, first);
    law_first_share_has_its_first_slot(entries);
}

/// What is handed in to count weights computes a function exactly when whatever
/// it gives is what the function gives, on all numbers; and it is defined on
/// all of them exactly when it may be called on all of them.
pub proof fn law_handed_in_counts<F: Fn(Number, Number) -> usize>(
    f: F,
    g: spec_fn(Number, Number) -> usize,
)
    ensures
        counts(f, g) <==> forall|a: Number, b: Number, r: usize| #[trigger]
            call_ensures(f, (a, b), r) ==> r == g(a, b),
        counts_all(f) <==> forall|a: Number, b: Number| #[trigger] call_requires(f, (a, b)),
{
}

} // verus!
