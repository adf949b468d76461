//! Counters of what the balancer does, labelled by listener and backend.
use crate::family_ids;
use crate::family_ids::family_id;
use crate::hashing;
use prometheus::proto::{MetricFamily, MetricType};
use prometheus::{Encoder, Registry};
use vstd::prelude::*;
use vstd::utf8::encode_utf8;

verus! {

/// A family of counters, one for each combination of label values.
#[verifier::external_body]
pub struct CounterVec {
    inner: prometheus::IntCounterVec,
}

/// A family of gauges, one for each combination of label values.
#[verifier::external_body]
pub struct GaugeVec {
    inner: prometheus::IntGaugeVec,
}

/// What each counter stands at, by the hash of its label values.
pub uninterp spec fn counts(v: CounterVec) -> Map<u64, u64>;

/// How a family of counters is described: its name, its help and the names of
/// its labels.
pub uninterp spec fn counter_desc(v: CounterVec) -> (Seq<char>, Seq<char>, Seq<Seq<char>>);

/// What each gauge stands at, by the hash of its label values.
pub uninterp spec fn levels(v: GaugeVec) -> Map<u64, i64>;

/// How a family of gauges is described: its name, its help and the names of
/// its labels.
pub uninterp spec fn gauge_desc(v: GaugeVec) -> (Seq<char>, Seq<char>, Seq<Seq<char>>);

/// A registry of families of the `prometheus` crate.
#[verifier::external_type_specification]
#[verifier::external_body]
pub struct ExRegistry(Registry);

/// The families that are registered: their names and kinds.
pub uninterp spec fn enrolled(registry: Registry) -> Set<(Seq<char>, FamilyKind)>;

/// The counters, whatever they come to stand at, are gathered with the
/// registry.
pub uninterp spec fn feeds(registry: Registry, v: CounterVec) -> bool;

/// The gauges, whatever they come to stand at, are gathered with the registry.
pub uninterp spec fn feeds_gauge(registry: Registry, v: GaugeVec) -> bool;

/// What is gathered with `before` is gathered with `after`.
pub open spec fn keeps(before: Registry, after: Registry) -> bool {
    &&& forall|v: CounterVec| feeds(before, v) ==> #[trigger] feeds(after, v)
    &&& forall|v: GaugeVec| feeds_gauge(before, v) ==> #[trigger] feeds_gauge(after, v)
}

/// No family stands in the way of one with this name.
pub open spec fn is_free(families: Set<(Seq<char>, FamilyKind)>, name: Seq<char>) -> bool {
    forall|f: (Seq<char>, FamilyKind)| #[trigger]
        families.contains(f) ==> family_id(f.0) != family_id(name)
}

/// Some counter of the family does not stand at zero.
pub open spec fn is_counted(v: CounterVec) -> bool {
    exists|h: u64| #[trigger] counts(v)[h] != 0
}

/// Some gauge of the family does not stand at zero.
pub open spec fn is_raised(v: GaugeVec) -> bool {
    exists|h: u64| #[trigger] levels(v)[h] != 0
}

/// The texts of label values.
pub open spec fn texts(labels: Seq<&str>) -> Seq<Seq<char>> {
    Seq::new(labels.len(), |i: int| labels[i]@)
}

/// The bytes of the label values, one after the other.
pub open spec fn joined(labels: Seq<Seq<char>>) -> Seq<u8>
    decreases labels.len(),
{
    if labels.len() == 0 {
        Seq::empty()
    } else {
        joined(labels.drop_last()) + encode_utf8(labels.last())
    }
}

/// The hash by which a combination of label values is found. Combinations
/// that run together to the same bytes share a counter.
pub open spec fn label_hash(labels: Seq<Seq<char>>) -> u64 {
    hashing::fnv1a(joined(labels))
}

pub open spec fn is_letter(c: char) -> bool {
    ('a' <= c && c <= 'z') || ('A' <= c && c <= 'Z') || c == '_'
}

/// A letter or an underscore, then letters, underscores and digits. In the
/// name of a metric a colon counts as a letter.
pub open spec fn is_identifier(name: Seq<char>, colon: bool) -> bool {
    &&& name.len() > 0
    &&& forall|i: int|
        0 <= i < name.len() ==> is_letter(#[trigger] name[i]) || (colon && name[i] == ':') || (i > 0
            && '0' <= name[i] && name[i] <= '9')
}

/// A family can be made under this name, with this help and these labels.
pub open spec fn describable(name: Seq<char>, help: Seq<char>, labels: Seq<Seq<char>>) -> bool {
    &&& help.len() > 0
    &&& is_identifier(name, true)
    &&& forall|i: int| 0 <= i < labels.len() ==> is_identifier(#[trigger] labels[i], false)
    &&& forall|i: int, j: int|
        0 <= i < j < labels.len() ==> #[trigger] labels[i] != #[trigger] labels[j]
}

/// A counter, increased by `n` and starting over past the largest number.
pub open spec fn increased(count: u64, n: nat) -> u64 {
    ((count + n) % 0x1_0000_0000_0000_0000) as u64
}

/// What a counter with these labels stands at, zero where the family has
/// another number of labels.
pub open spec fn count_of(v: CounterVec, labels: Seq<Seq<char>>) -> u64 {
    if labels.len() == counter_desc(v).2.len() {
        counts(v)[label_hash(labels)]
    } else {
        0
    }
}

/// `after` is `before` with the counter at these labels increased by `n`; it is
/// gathered where it was gathered before.
pub open spec fn bumped(
    before: CounterVec,
    after: CounterVec,
    labels: Seq<Seq<char>>,
    n: nat,
) -> bool {
    &&& counter_desc(after) == counter_desc(before)
    &&& counts(after) == counts(before).insert(
        label_hash(labels),
        increased(counts(before)[label_hash(labels)], n),
    )
    &&& forall|r: Registry| feeds(r, before) ==> #[trigger] feeds(r, after)
}

/// `after` is `before` with the gauge at these labels at `value`; it is
/// gathered where it was gathered before.
pub open spec fn adjusted(
    before: GaugeVec,
    after: GaugeVec,
    labels: Seq<Seq<char>>,
    value: i64,
) -> bool {
    &&& gauge_desc(after) == gauge_desc(before)
    &&& levels(after) == levels(before).insert(label_hash(labels), value)
    &&& forall|r: Registry| feeds_gauge(r, before) ==> #[trigger] feeds_gauge(r, after)
}

impl CounterVec {
    /// `prometheus::IntCounterVec::new` with `Opts::new`. Claimed: it succeeds
    /// exactly where the help is not empty, the name and the labels are
    /// identifiers and no label comes twice; the family is then described so
    /// and every counter stands at zero. What the error says is left unsaid.
    #[verifier::external_body]
    fn create(name: &str, help: &str, labels: &[&str]) -> (r: Result<CounterVec, String>)
        ensures
            r is Ok <==> describable(name@, help@, texts(labels@)),
            (r matches Ok(v) ==> counter_desc(v) == (name@, help@, texts(labels@))),
            (r matches Ok(v) ==> counts(v) == Map::<u64, u64>::total(|h: u64| 0u64)),
    {
        let opts = prometheus::Opts::new(name, help);
        prometheus::IntCounterVec::new(opts, labels)
            .map(|inner| CounterVec { inner })
            .map_err(|e| e.to_string())
    }

    /// `Registry::register` of `prometheus`, handed a clone that shares the
    /// counters. The registry is one that only families without fixed labels were
    /// registered with, and none was taken out of. Claimed: it succeeds exactly
    /// where no family of the same number is there; the family is there then,
    /// and gathered with the rest, and else nothing changes. What the error says
    /// is left unsaid.
    #[verifier::external_body]
    fn register(&self, registry: &mut Registry) -> (r: Result<(), String>)
        ensures
            r is Ok <==> is_free(enrolled(*old(registry)), counter_desc(*self).0),
            enrolled(*final(registry)) == if r is Ok {
                enrolled(*old(registry)).insert((counter_desc(*self).0, FamilyKind::Counter))
            } else {
                enrolled(*old(registry))
            },
            r is Ok ==> feeds(*final(registry), *self),
            keeps(*old(registry), *final(registry)),
    {
        registry.register(Box::new(self.inner.clone())).map_err(|e| e.to_string())
    }

    /// `with_label_values` and `inc_by` of `prometheus`. It panics on another
    /// number of labels, which is required not to be. Claimed: the counter
    /// that the labels hash to grows, around the largest number, and no other
    /// changes.
    #[verifier::external_body]
    fn raise(&mut self, labels: &[&str], n: u64)
        requires
            labels@.len() == counter_desc(*old(self)).2.len(),
        ensures
            bumped(*old(self), *final(self), texts(labels@), n as nat),
    {
        self.inner.with_label_values(labels).inc_by(n);
    }

    /// `get_metric_with_label_values` and `get` of `prometheus`. Claimed: a
    /// number comes back exactly where the number of labels is right, and it
    /// is what the counter that the labels hash to stands at. That a counter
    /// read for the first time is listed from then on is left unsaid.
    #[verifier::external_body]
    fn read(&self, labels: &[&str]) -> (r: Option<u64>)
        ensures
            r == if labels@.len() == counter_desc(*self).2.len() {
                Some(counts(*self)[label_hash(texts(labels@))])
            } else {
                None
            },
    {
        self.inner.get_metric_with_label_values(labels).map(|m| m.get()).ok()
    }

    /// Increases the counter at these labels.
    pub fn inc_by(&mut self, labels: &[&str], n: u64)
        requires
            labels@.len() == counter_desc(*old(self)).2.len(),
        ensures
            bumped(*old(self), *final(self), texts(labels@), n as nat),
    {
        self.raise(labels, n);
    }

    /// Increases the counter at these labels by one.
    pub fn inc(&mut self, labels: &[&str])
        requires
            labels@.len() == counter_desc(*old(self)).2.len(),
        ensures
            bumped(*old(self), *final(self), texts(labels@), 1),
    {
        self.raise(labels, 1);
    }

    /// What the counter at these labels stands at.
    pub fn get(&self, labels: &[&str]) -> (n: u64)
        ensures
            n == count_of(*self, texts(labels@)),
    {
        match self.read(labels) {
            Some(n) => n,
            None => 0,
        }
    }
}

impl GaugeVec {
    /// `prometheus::IntGaugeVec::new` with `Opts::new`. Claimed: it succeeds
    /// exactly where the help is not empty, the name and the labels are
    /// identifiers and no label comes twice; the family is then described so
    /// and every gauge stands at zero. What the error says is left unsaid.
    #[verifier::external_body]
    fn create(name: &str, help: &str, labels: &[&str]) -> (r: Result<GaugeVec, String>)
        ensures
            r is Ok <==> describable(name@, help@, texts(labels@)),
            (r matches Ok(v) ==> gauge_desc(v) == (name@, help@, texts(labels@))),
            (r matches Ok(v) ==> levels(v) == Map::<u64, i64>::total(|h: u64| 0i64)),
    {
        let opts = prometheus::Opts::new(name, help);
        prometheus::IntGaugeVec::new(opts, labels)
            .map(|inner| GaugeVec { inner })
            .map_err(|e| e.to_string())
    }

    /// `Registry::register` of `prometheus`, handed a clone that shares the
    /// gauges. The registry is one that only families without fixed labels were
    /// registered with, and none was taken out of. Claimed: it succeeds exactly
    /// where no family of the same number is there; the family is there then,
    /// and gathered with the rest, and else nothing changes. What the error says
    /// is left unsaid.
    #[verifier::external_body]
    fn register(&self, registry: &mut Registry) -> (r: Result<(), String>)
        ensures
            r is Ok <==> is_free(enrolled(*old(registry)), gauge_desc(*self).0),
            enrolled(*final(registry)) == if r is Ok {
                enrolled(*old(registry)).insert((gauge_desc(*self).0, FamilyKind::Gauge))
            } else {
                enrolled(*old(registry))
            },
            r is Ok ==> feeds_gauge(*final(registry), *self),
            keeps(*old(registry), *final(registry)),
    {
        registry.register(Box::new(self.inner.clone())).map_err(|e| e.to_string())
    }

    /// `with_label_values` and `set` of `prometheus`. It panics on another
    /// number of labels, which is required not to be. Claimed: the gauge that
    /// the labels hash to takes the value, and no other changes.
    #[verifier::external_body]
    fn put(&mut self, labels: &[&str], value: i64)
        requires
            labels@.len() == gauge_desc(*old(self)).2.len(),
        ensures
            adjusted(*old(self), *final(self), texts(labels@), value),
    {
        self.inner.with_label_values(labels).set(value);
    }

    /// `with_label_values` and `get` of `prometheus`. It panics on another
    /// number of labels, which is required not to be. Claimed: the result is
    /// what the gauge that the labels hash to stands at.
    #[verifier::external_body]
    fn level(&self, labels: &[&str]) -> (value: i64)
        requires
            labels@.len() == gauge_desc(*self).2.len(),
        ensures
            value == levels(*self)[label_hash(texts(labels@))],
    {
        self.inner.with_label_values(labels).get()
    }

    /// Sets the gauge at these labels.
    pub fn set(&mut self, labels: &[&str], value: i64)
        requires
            labels@.len() == gauge_desc(*old(self)).2.len(),
        ensures
            adjusted(*old(self), *final(self), texts(labels@), value),
    {
        self.put(labels, value);
    }

    /// What the gauge at these labels stands at.
    pub fn get(&self, labels: &[&str]) -> (value: i64)
        requires
            labels@.len() == gauge_desc(*self).2.len(),
        ensures
            value == levels(*self)[label_hash(texts(labels@))],
    {
        self.level(labels)
    }
}

pub open spec fn by_listener() -> Seq<Seq<char>> {
    seq!["listener"@]
}

pub open spec fn by_backend() -> Seq<Seq<char>> {
    seq!["listener"@, "backend"@]
}

pub open spec fn by_mirror() -> Seq<Seq<char>> {
    seq!["listener"@, "mirror"@]
}

/// Where the families of the balancer are gathered.
pub struct Exposure {
    registry: Registry,
}

impl Exposure {
    pub closed spec fn held(self) -> Registry {
        self.registry
    }
}

/// Every counter and gauge of the balancer, and where they are gathered.
pub struct Metrics {
    pub exposure: Exposure,
    pub packets_received: CounterVec,
    pub bytes_received: CounterVec,
    pub packets_sent: CounterVec,
    pub bytes_sent: CounterVec,
    pub balancer_packets_sent: CounterVec,
    pub balancer_bytes_sent: CounterVec,
    pub balancer_packets_failed: CounterVec,
    pub balancer_responses_received: CounterVec,
    pub balancer_response_bytes_received: CounterVec,
    pub balancer_backend_alive: GaugeVec,
    pub mirror_packets_sent: CounterVec,
    pub mirror_bytes_sent: CounterVec,
    pub mirror_packets_failed: CounterVec,
    pub health_check_total: CounterVec,
    pub health_check_failed: CounterVec,
}

impl Metrics {
    /// Every family is described as it should be: listeners are counted by
    /// their own label, backends and mirrors by the listener's and theirs. All
    /// of them, and nothing else, are gathered.
    pub open spec fn wf(self) -> bool {
        &&& counter_desc(self.packets_received) == (
            "udp_balancer_packets_received_total"@,
            "Total number of packets received"@,
            by_listener(),
        )
        &&& counter_desc(self.bytes_received) == (
            "udp_balancer_bytes_received_total"@,
            "Total number of bytes received"@,
            by_listener(),
        )
        &&& counter_desc(self.packets_sent) == (
            "udp_balancer_packets_sent_total"@,
            "Total number of packets sent (responses)"@,
            by_listener(),
        )
        &&& counter_desc(self.bytes_sent) == (
            "udp_balancer_bytes_sent_total"@,
            "Total number of bytes sent (responses)"@,
            by_listener(),
        )
        &&& counter_desc(self.balancer_packets_sent) == (
            "udp_balancer_backend_packets_sent_total"@,
            "Total number of packets sent by balancer"@,
            by_backend(),
        )
        &&& counter_desc(self.balancer_bytes_sent) == (
            "udp_balancer_backend_bytes_sent_total"@,
            "Total number of bytes sent by balancer"@,
            by_backend(),
        )
        &&& counter_desc(self.balancer_packets_failed) == (
            "udp_balancer_backend_packets_failed_total"@,
            "Total number of packets that failed to send"@,
            by_backend(),
        )
        &&& counter_desc(self.balancer_responses_received) == (
            "udp_balancer_backend_responses_received_total"@,
            "Total number of response packets received from backends"@,
            by_backend(),
        )
        &&& counter_desc(self.balancer_response_bytes_received) == (
            "udp_balancer_backend_response_bytes_received_total"@,
            "Total number of response bytes received from backends"@,
            by_backend(),
        )
        &&& gauge_desc(self.balancer_backend_alive) == (
            "udp_balancer_backend_alive"@,
            "Whether a backend is alive (1) or dead (0)"@,
            by_backend(),
        )
        &&& counter_desc(self.mirror_packets_sent) == (
            "udp_balancer_mirror_packets_sent_total"@,
            "Total number of packets sent to mirror destinations"@,
            by_mirror(),
        )
        &&& counter_desc(self.mirror_bytes_sent) == (
            "udp_balancer_mirror_bytes_sent_total"@,
            "Total number of bytes sent to mirror destinations"@,
            by_mirror(),
        )
        &&& counter_desc(self.mirror_packets_failed) == (
            "udp_balancer_mirror_packets_failed_total"@,
            "Total number of packets that failed to send to mirror"@,
            by_mirror(),
        )
        &&& counter_desc(self.health_check_total) == (
            "udp_balancer_health_check_total"@,
            "Total number of health checks performed"@,
            by_backend(),
        )
        &&& counter_desc(self.health_check_failed) == (
            "udp_balancer_health_check_failed_total"@,
            "Total number of failed health checks"@,
            by_backend(),
        )
        &&& enrolled(self.exposure.held()) == metric_families().to_set()
        &&& feeds(self.exposure.held(), self.packets_received)
        &&& feeds(self.exposure.held(), self.bytes_received)
        &&& feeds(self.exposure.held(), self.packets_sent)
        &&& feeds(self.exposure.held(), self.bytes_sent)
        &&& feeds(self.exposure.held(), self.balancer_packets_sent)
        &&& feeds(self.exposure.held(), self.balancer_bytes_sent)
        &&& feeds(self.exposure.held(), self.balancer_packets_failed)
        &&& feeds(self.exposure.held(), self.balancer_responses_received)
        &&& feeds(self.exposure.held(), self.balancer_response_bytes_received)
        &&& feeds_gauge(self.exposure.held(), self.balancer_backend_alive)
        &&& feeds(self.exposure.held(), self.mirror_packets_sent)
        &&& feeds(self.exposure.held(), self.mirror_bytes_sent)
        &&& feeds(self.exposure.held(), self.mirror_packets_failed)
        &&& feeds(self.exposure.held(), self.health_check_total)
        &&& feeds(self.exposure.held(), self.health_check_failed)
    }

    /// Everything stands at zero.
    pub open spec fn blank(self) -> bool {
        &&& counts(self.packets_received) == Map::<u64, u64>::total(|h: u64| 0u64)
        &&& counts(self.bytes_received) == Map::<u64, u64>::total(|h: u64| 0u64)
        &&& counts(self.packets_sent) == Map::<u64, u64>::total(|h: u64| 0u64)
        &&& counts(self.bytes_sent) == Map::<u64, u64>::total(|h: u64| 0u64)
        &&& counts(self.balancer_packets_sent) == Map::<u64, u64>::total(|h: u64| 0u64)
        &&& counts(self.balancer_bytes_sent) == Map::<u64, u64>::total(|h: u64| 0u64)
        &&& counts(self.balancer_packets_failed) == Map::<u64, u64>::total(|h: u64| 0u64)
        &&& counts(self.balancer_responses_received) == Map::<u64, u64>::total(|h: u64| 0u64)
        &&& counts(self.balancer_response_bytes_received) == Map::<u64, u64>::total(|h: u64| 0u64)
        &&& levels(self.balancer_backend_alive) == Map::<u64, i64>::total(|h: u64| 0i64)
        &&& counts(self.mirror_packets_sent) == Map::<u64, u64>::total(|h: u64| 0u64)
        &&& counts(self.mirror_bytes_sent) == Map::<u64, u64>::total(|h: u64| 0u64)
        &&& counts(self.mirror_packets_failed) == Map::<u64, u64>::total(|h: u64| 0u64)
        &&& counts(self.health_check_total) == Map::<u64, u64>::total(|h: u64| 0u64)
        &&& counts(self.health_check_failed) == Map::<u64, u64>::total(|h: u64| 0u64)
    }
}

/// `Registry::new` of `prometheus`. Claimed: nothing is registered yet.
#[verifier::external_body]
fn fresh_registry() -> (registry: Registry)
    ensures
        (enrolled(registry) == Set::<(Seq<char>, FamilyKind)>::empty()),
{
    Registry::new()
}

/// The families of the balancer, by name and kind, in the order in which they
/// are registered.
#[verifier::opaque]
pub open spec fn metric_families() -> Seq<(Seq<char>, FamilyKind)> {
    seq![
        ("udp_balancer_packets_received_total"@, FamilyKind::Counter),
        ("udp_balancer_bytes_received_total"@, FamilyKind::Counter),
        ("udp_balancer_packets_sent_total"@, FamilyKind::Counter),
        ("udp_balancer_bytes_sent_total"@, FamilyKind::Counter),
        ("udp_balancer_backend_packets_sent_total"@, FamilyKind::Counter),
        ("udp_balancer_backend_bytes_sent_total"@, FamilyKind::Counter),
        ("udp_balancer_backend_packets_failed_total"@, FamilyKind::Counter),
        ("udp_balancer_backend_responses_received_total"@, FamilyKind::Counter),
        ("udp_balancer_backend_response_bytes_received_total"@, FamilyKind::Counter),
        ("udp_balancer_backend_alive"@, FamilyKind::Gauge),
        ("udp_balancer_mirror_packets_sent_total"@, FamilyKind::Counter),
        ("udp_balancer_mirror_bytes_sent_total"@, FamilyKind::Counter),
        ("udp_balancer_mirror_packets_failed_total"@, FamilyKind::Counter),
        ("udp_balancer_health_check_total"@, FamilyKind::Counter),
        ("udp_balancer_health_check_failed_total"@, FamilyKind::Counter),
    ]
}

/// The first `k` families are registered.
spec fn stage(registry: Registry, k: int) -> bool {
    enrolled(registry) == metric_families().take(k).to_set()
}

proof fn lemma_next_family(k: int)
    requires
        0 <= k < metric_families().len(),
    ensures
        metric_families().take(k + 1).to_set() == metric_families().take(k).to_set().insert(
            metric_families()[k],
        ),
        is_free(metric_families().take(k).to_set(), metric_families()[k].0),
{
    let all = metric_families();
    let before = all.take(k);
    let after = all.take(k + 1);
    assert forall|f: (Seq<char>, FamilyKind)| after.to_set().contains(f) == before.to_set().insert(
        all[k],
    ).contains(f) by {
        if after.contains(f) {
            let i = choose|i: int| 0 <= i < after.len() && after[i] == f;
            if i < k {
                assert(before[i] == f);
            }
        }
        if before.contains(f) {
            let i = choose|i: int| 0 <= i < before.len() && before[i] == f;
            assert(after[i] == f);
        }
        assert(after[k] == all[k]);
    }
    assert(after.to_set() =~= before.to_set().insert(all[k]));
    assert forall|f: (Seq<char>, FamilyKind)| #[trigger]
        before.to_set().contains(f) implies family_id(f.0) != family_id(all[k].0) by {
        let i = choose|i: int| 0 <= i < before.len() && before[i] == f;
        assert(all[i] == f);
        law_families_are_told_apart(i, k);
    }
}

/// A registry can tell all families of the balancer apart, so that none of
/// them is refused.
pub proof fn law_families_are_told_apart(i: int, j: int)
    requires
        0 <= i < j < metric_families().len(),
    ensures
        family_id(metric_families()[i].0) != family_id(metric_families()[j].0),
{
    lemma_family_names();
    family_ids::law_family_ids_differ();
    let ids = family_ids::family_ids();
    assert forall|k: int| 0 <= k < metric_families().len() implies family_id(
        (#[trigger] metric_families()[k]).0,
    ) == ids[k] by {}
}

/// Makes and registers the family at `k`.
fn registered(
    registry: &mut Registry,
    Ghost(k): Ghost<int>,
    name: &str,
    help: &str,
    labels: &[&str],
) -> (v: CounterVec)
    requires
        describable(name@, help@, texts(labels@)),
        0 <= k < metric_families().len(),
        metric_families()[k] == (name@, FamilyKind::Counter),
        stage(*old(registry), k),
    ensures
        counter_desc(v) == (name@, help@, texts(labels@)),
        counts(v) == Map::<u64, u64>::total(|h: u64| 0u64),
        feeds(*final(registry), v),
        stage(*final(registry), k + 1),
        keeps(*old(registry), *final(registry)),
{
    proof {
        lemma_next_family(k);
    }
    let v = CounterVec::create(name, help, labels).unwrap();
    v.register(registry).unwrap();
    v
}

/// Makes and registers the family at `k`.
fn registered_gauge(
    registry: &mut Registry,
    Ghost(k): Ghost<int>,
    name: &str,
    help: &str,
    labels: &[&str],
) -> (v: GaugeVec)
    requires
        describable(name@, help@, texts(labels@)),
        0 <= k < metric_families().len(),
        metric_families()[k] == (name@, FamilyKind::Gauge),
        stage(*old(registry), k),
    ensures
        gauge_desc(v) == (name@, help@, texts(labels@)),
        levels(v) == Map::<u64, i64>::total(|h: u64| 0i64),
        feeds_gauge(*final(registry), v),
        stage(*final(registry), k + 1),
        keeps(*old(registry), *final(registry)),
{
    proof {
        lemma_next_family(k);
    }
    let v = GaugeVec::create(name, help, labels).unwrap();
    v.register(registry).unwrap();
    v
}

proof fn lemma_family_names()
    ensures
        metric_families().len() == 15,
        metric_families()[0] == ("udp_balancer_packets_received_total"@, FamilyKind::Counter),
        metric_families()[1] == ("udp_balancer_bytes_received_total"@, FamilyKind::Counter),
        metric_families()[2] == ("udp_balancer_packets_sent_total"@, FamilyKind::Counter),
        metric_families()[3] == ("udp_balancer_bytes_sent_total"@, FamilyKind::Counter),
        metric_families()[4] == ("udp_balancer_backend_packets_sent_total"@, FamilyKind::Counter),
        metric_families()[5] == ("udp_balancer_backend_bytes_sent_total"@, FamilyKind::Counter),
        metric_families()[6] == ("udp_balancer_backend_packets_failed_total"@, FamilyKind::Counter),
        metric_families()[7] == ("udp_balancer_backend_responses_received_total"@, FamilyKind::Counter),
        metric_families()[8] == ("udp_balancer_backend_response_bytes_received_total"@, FamilyKind::Counter),
        metric_families()[9] == ("udp_balancer_backend_alive"@, FamilyKind::Gauge),
        metric_families()[10] == ("udp_balancer_mirror_packets_sent_total"@, FamilyKind::Counter),
        metric_families()[11] == ("udp_balancer_mirror_bytes_sent_total"@, FamilyKind::Counter),
        metric_families()[12] == ("udp_balancer_mirror_packets_failed_total"@, FamilyKind::Counter),
        metric_families()[13] == ("udp_balancer_health_check_total"@, FamilyKind::Counter),
        metric_families()[14] == ("udp_balancer_health_check_failed_total"@, FamilyKind::Counter),
{
    reveal(metric_families);
}

/// Makes and registers every counter and gauge, all at zero.
pub fn init_metrics() -> (m: Metrics)
    ensures
        m.wf(),
        m.blank(),
{
    let by_listener: [&str; 1] = ["listener"];
    let by_backend: [&str; 2] = ["listener", "backend"];
    let by_mirror: [&str; 2] = ["listener", "mirror"];
    assert(texts(by_listener@) =~= self::by_listener());
    assert(texts(by_backend@) =~= self::by_backend());
    assert(texts(by_mirror@) =~= self::by_mirror());
    proof {
        lemma_descriptions();
        lemma_family_names();
        assert(metric_families().take(0).to_set() =~= Set::<(Seq<char>, FamilyKind)>::empty());
    }
    let mut registry = fresh_registry();
    let packets_received = registered(
        &mut registry,
        Ghost(0),
        "udp_balancer_packets_received_total",
        "Total number of packets received",
        &by_listener,
    );
    let bytes_received = registered(
        &mut registry,
        Ghost(1),
        "udp_balancer_bytes_received_total",
        "Total number of bytes received",
        &by_listener,
    );
    let packets_sent = registered(
        &mut registry,
        Ghost(2),
        "udp_balancer_packets_sent_total",
        "Total number of packets sent (responses)",
        &by_listener,
    );
    let bytes_sent = registered(
        &mut registry,
        Ghost(3),
        "udp_balancer_bytes_sent_total",
        "Total number of bytes sent (responses)",
        &by_listener,
    );
    let balancer_packets_sent = registered(
        &mut registry,
        Ghost(4),
        "udp_balancer_backend_packets_sent_total",
        "Total number of packets sent by balancer",
        &by_backend,
    );
    let balancer_bytes_sent = registered(
        &mut registry,
        Ghost(5),
        "udp_balancer_backend_bytes_sent_total",
        "Total number of bytes sent by balancer",
        &by_backend,
    );
    let balancer_packets_failed = registered(
        &mut registry,
        Ghost(6),
        "udp_balancer_backend_packets_failed_total",
        "Total number of packets that failed to send",
        &by_backend,
    );
    let balancer_responses_received = registered(
        &mut registry,
        Ghost(7),
        "udp_balancer_backend_responses_received_total",
        "Total number of response packets received from backends",
        &by_backend,
    );
    let balancer_response_bytes_received = registered(
        &mut registry,
        Ghost(8),
        "udp_balancer_backend_response_bytes_received_total",
        "Total number of response bytes received from backends",
        &by_backend,
    );
    let balancer_backend_alive = registered_gauge(
        &mut registry,
        Ghost(9),
        "udp_balancer_backend_alive",
        "Whether a backend is alive (1) or dead (0)",
        &by_backend,
    );
    let mirror_packets_sent = registered(
        &mut registry,
        Ghost(10),
        "udp_balancer_mirror_packets_sent_total",
        "Total number of packets sent to mirror destinations",
        &by_mirror,
    );
    let mirror_bytes_sent = registered(
        &mut registry,
        Ghost(11),
        "udp_balancer_mirror_bytes_sent_total",
        "Total number of bytes sent to mirror destinations",
        &by_mirror,
    );
    let mirror_packets_failed = registered(
        &mut registry,
        Ghost(12),
        "udp_balancer_mirror_packets_failed_total",
        "Total number of packets that failed to send to mirror",
        &by_mirror,
    );
    let health_check_total = registered(
        &mut registry,
        Ghost(13),
        "udp_balancer_health_check_total",
        "Total number of health checks performed",
        &by_backend,
    );
    let health_check_failed = registered(
        &mut registry,
        Ghost(14),
        "udp_balancer_health_check_failed_total",
        "Total number of failed health checks",
        &by_backend,
    );
    assert(metric_families().take(15) =~= metric_families());
    Metrics {
        exposure: Exposure { registry },
        packets_received,
        bytes_received,
        packets_sent,
        bytes_sent,
        balancer_packets_sent,
        balancer_bytes_sent,
        balancer_packets_failed,
        balancer_responses_received,
        balancer_response_bytes_received,
        balancer_backend_alive,
        mirror_packets_sent,
        mirror_bytes_sent,
        mirror_packets_failed,
        health_check_total,
        health_check_failed,
    }
}

/// `after` is `before` with a packet of `len` bytes taken in.
pub open spec fn counted_received(before: Metrics, after: Metrics, listener: Seq<char>, len: nat) -> bool {
    &&& bumped(before.packets_received, after.packets_received, seq![listener], 1)
    &&& bumped(before.bytes_received, after.bytes_received, seq![listener], len)
    &&& after == Metrics {
        packets_received: after.packets_received,
        bytes_received: after.bytes_received,
        ..before
    }
}

/// `after` is `before` with a response of `len` bytes sent back.
pub open spec fn counted_replied(before: Metrics, after: Metrics, listener: Seq<char>, len: nat) -> bool {
    &&& bumped(before.packets_sent, after.packets_sent, seq![listener], 1)
    &&& bumped(before.bytes_sent, after.bytes_sent, seq![listener], len)
    &&& after == Metrics {
        packets_sent: after.packets_sent,
        bytes_sent: after.bytes_sent,
        ..before
    }
}

/// `after` is `before` with `sent` bytes gone out to a backend.
pub open spec fn counted_forwarded(before: Metrics, after: Metrics, listener: Seq<char>, backend: Seq<char>, sent: nat) -> bool {
    &&& bumped(before.balancer_packets_sent, after.balancer_packets_sent, seq![listener, backend], 1)
    &&& bumped(before.balancer_bytes_sent, after.balancer_bytes_sent, seq![listener, backend], sent)
    &&& after == Metrics {
        balancer_packets_sent: after.balancer_packets_sent,
        balancer_bytes_sent: after.balancer_bytes_sent,
        ..before
    }
}

/// `after` is `before` with a packet that did not go out to a backend.
pub open spec fn counted_forward_failed(before: Metrics, after: Metrics, listener: Seq<char>, backend: Seq<char>) -> bool {
    &&& bumped(before.balancer_packets_failed, after.balancer_packets_failed, seq![listener, backend], 1)
    &&& after == Metrics {
        balancer_packets_failed: after.balancer_packets_failed,
        ..before
    }
}

/// `after` is `before` with a response of `len` bytes from a backend.
pub open spec fn counted_answered(before: Metrics, after: Metrics, listener: Seq<char>, backend: Seq<char>, len: nat) -> bool {
    &&& bumped(before.balancer_responses_received, after.balancer_responses_received, seq![listener, backend], 1)
    &&& bumped(before.balancer_response_bytes_received, after.balancer_response_bytes_received, seq![listener, backend], len)
    &&& after == Metrics {
        balancer_responses_received: after.balancer_responses_received,
        balancer_response_bytes_received: after.balancer_response_bytes_received,
        ..before
    }
}

/// `after` is `before` with `sent` bytes gone out to a mirror.
pub open spec fn counted_mirrored(before: Metrics, after: Metrics, listener: Seq<char>, mirror: Seq<char>, sent: nat) -> bool {
    &&& bumped(before.mirror_packets_sent, after.mirror_packets_sent, seq![listener, mirror], 1)
    &&& bumped(before.mirror_bytes_sent, after.mirror_bytes_sent, seq![listener, mirror], sent)
    &&& after == Metrics {
        mirror_packets_sent: after.mirror_packets_sent,
        mirror_bytes_sent: after.mirror_bytes_sent,
        ..before
    }
}

/// `after` is `before` with a packet that did not go out to a mirror.
pub open spec fn counted_mirror_failed(before: Metrics, after: Metrics, listener: Seq<char>, mirror: Seq<char>) -> bool {
    &&& bumped(before.mirror_packets_failed, after.mirror_packets_failed, seq![listener, mirror], 1)
    &&& after == Metrics {
        mirror_packets_failed: after.mirror_packets_failed,
        ..before
    }
}

impl Metrics {
    /// A listener took in a packet of `len` bytes.
    pub fn received(&mut self, listener: &str, len: usize)
        requires
            old(self).wf(),
        ensures
            final(self).wf(),
            counted_received(*old(self), *final(self), listener@, len as nat),
    {
        let labels: [&str; 1] = [listener];
        assert(texts(labels@) =~= seq![listener@]);
        self.packets_received.inc(&labels);
        self.bytes_received.inc_by(&labels, len as u64);
    }

    /// A listener sent a response of `len` bytes back to a client.
    pub fn replied(&mut self, listener: &str, len: usize)
        requires
            old(self).wf(),
        ensures
            final(self).wf(),
            counted_replied(*old(self), *final(self), listener@, len as nat),
    {
        let labels: [&str; 1] = [listener];
        assert(texts(labels@) =~= seq![listener@]);
        self.packets_sent.inc(&labels);
        self.bytes_sent.inc_by(&labels, len as u64);
    }

    /// A packet went out to a backend, `sent` bytes of it.
    pub fn forwarded(&mut self, listener: &str, backend: &str, sent: usize)
        requires
            old(self).wf(),
        ensures
            final(self).wf(),
            counted_forwarded(*old(self), *final(self), listener@, backend@, sent as nat),
    {
        let labels: [&str; 2] = [listener, backend];
        assert(texts(labels@) =~= seq![listener@, backend@]);
        self.balancer_packets_sent.inc(&labels);
        self.balancer_bytes_sent.inc_by(&labels, sent as u64);
    }

    /// A packet did not go out to a backend.
    pub fn forward_failed(&mut self, listener: &str, backend: &str)
        requires
            old(self).wf(),
        ensures
            final(self).wf(),
            counted_forward_failed(*old(self), *final(self), listener@, backend@),
    {
        let labels: [&str; 2] = [listener, backend];
        assert(texts(labels@) =~= seq![listener@, backend@]);
        self.balancer_packets_failed.inc(&labels);
    }

    /// A backend responded with `len` bytes.
    pub fn answered(&mut self, listener: &str, backend: &str, len: usize)
        requires
            old(self).wf(),
        ensures
            final(self).wf(),
            counted_answered(*old(self), *final(self), listener@, backend@, len as nat),
    {
        let labels: [&str; 2] = [listener, backend];
        assert(texts(labels@) =~= seq![listener@, backend@]);
        self.balancer_responses_received.inc(&labels);
        self.balancer_response_bytes_received.inc_by(&labels, len as u64);
    }

    /// A packet went out to a mirror, `sent` bytes of it.
    pub fn mirrored(&mut self, listener: &str, mirror: &str, sent: usize)
        requires
            old(self).wf(),
        ensures
            final(self).wf(),
            counted_mirrored(*old(self), *final(self), listener@, mirror@, sent as nat),
    {
        let labels: [&str; 2] = [listener, mirror];
        assert(texts(labels@) =~= seq![listener@, mirror@]);
        self.mirror_packets_sent.inc(&labels);
        self.mirror_bytes_sent.inc_by(&labels, sent as u64);
    }

    /// A packet did not go out to a mirror.
    pub fn mirror_failed(&mut self, listener: &str, mirror: &str)
        requires
            old(self).wf(),
        ensures
            final(self).wf(),
            counted_mirror_failed(*old(self), *final(self), listener@, mirror@),
    {
        let labels: [&str; 2] = [listener, mirror];
        assert(texts(labels@) =~= seq![listener@, mirror@]);
        self.mirror_packets_failed.inc(&labels);
    }
}

/// What a listener took in and sent back: packets in, bytes in, packets out,
/// bytes out.
pub fn get_listener_stats(metrics: &Metrics, listener: &str) -> (r: (u64, u64, u64, u64))
    ensures
        r == listener_counts(*metrics, listener@),
{
    let labels: [&str; 1] = [listener];
    assert(texts(labels@) =~= seq![listener@]);
    (
        metrics.packets_received.get(&labels),
        metrics.bytes_received.get(&labels),
        metrics.packets_sent.get(&labels),
        metrics.bytes_sent.get(&labels),
    )
}

pub open spec fn listener_counts(metrics: Metrics, listener: Seq<char>) -> (u64, u64, u64, u64) {
    (
        count_of(metrics.packets_received, seq![listener]),
        count_of(metrics.bytes_received, seq![listener]),
        count_of(metrics.packets_sent, seq![listener]),
        count_of(metrics.bytes_sent, seq![listener]),
    )
}

/// What went to a backend and came back from it.
#[derive(Clone, Copy, PartialEq, Eq, Debug)]
pub struct BackendStats {
    pub tx_packets: u64,
    pub tx_bytes: u64,
    pub tx_failed: u64,
    pub rx_packets: u64,
    pub rx_bytes: u64,
}

impl Default for BackendStats {
    fn default() -> (s: BackendStats)
        ensures
            s == (BackendStats {
                tx_packets: 0,
                tx_bytes: 0,
                tx_failed: 0,
                rx_packets: 0,
                rx_bytes: 0,
            }),
    {
        BackendStats { tx_packets: 0, tx_bytes: 0, tx_failed: 0, rx_packets: 0, rx_bytes: 0 }
    }
}

/// What went to a mirror.
#[derive(Clone, Copy, PartialEq, Eq, Debug)]
pub struct MirrorStats {
    pub tx_packets: u64,
    pub tx_bytes: u64,
    pub tx_failed: u64,
}

impl Default for MirrorStats {
    fn default() -> (s: MirrorStats)
        ensures
            s == (MirrorStats { tx_packets: 0, tx_bytes: 0, tx_failed: 0 }),
    {
        MirrorStats { tx_packets: 0, tx_bytes: 0, tx_failed: 0 }
    }
}

pub open spec fn mirror_counts(
    metrics: Metrics,
    listener: Seq<char>,
    mirror: Seq<char>,
) -> MirrorStats {
    MirrorStats {
        tx_packets: count_of(metrics.mirror_packets_sent, seq![listener, mirror]),
        tx_bytes: count_of(metrics.mirror_bytes_sent, seq![listener, mirror]),
        tx_failed: count_of(metrics.mirror_packets_failed, seq![listener, mirror]),
    }
}

/// What a listener's mirror was sent.
pub fn get_mirror_stats(metrics: &Metrics, listener: &str, mirror: &str) -> (s: MirrorStats)
    ensures
        s == mirror_counts(*metrics, listener@, mirror@),
{
    let labels: [&str; 2] = [listener, mirror];
    assert(texts(labels@) =~= seq![listener@, mirror@]);
    MirrorStats {
        tx_packets: metrics.mirror_packets_sent.get(&labels),
        tx_bytes: metrics.mirror_bytes_sent.get(&labels),
        tx_failed: metrics.mirror_packets_failed.get(&labels),
    }
}

pub open spec fn backend_counts(
    metrics: Metrics,
    listener: Seq<char>,
    backend: Seq<char>,
) -> BackendStats {
    BackendStats {
        tx_packets: count_of(metrics.balancer_packets_sent, seq![listener, backend]),
        tx_bytes: count_of(metrics.balancer_bytes_sent, seq![listener, backend]),
        tx_failed: count_of(metrics.balancer_packets_failed, seq![listener, backend]),
        rx_packets: count_of(metrics.balancer_responses_received, seq![listener, backend]),
        rx_bytes: count_of(metrics.balancer_response_bytes_received, seq![listener, backend]),
    }
}

/// What a listener's backend was sent and responded.
pub fn get_backend_stats(metrics: &Metrics, listener: &str, backend: &str) -> (s: BackendStats)
    ensures
        s == backend_counts(*metrics, listener@, backend@),
{
    let labels: [&str; 2] = [listener, backend];
    assert(texts(labels@) =~= seq![listener@, backend@]);
    BackendStats {
        tx_packets: metrics.balancer_packets_sent.get(&labels),
        tx_bytes: metrics.balancer_bytes_sent.get(&labels),
        tx_failed: metrics.balancer_packets_failed.get(&labels),
        rx_packets: metrics.balancer_responses_received.get(&labels),
        rx_bytes: metrics.balancer_response_bytes_received.get(&labels),
    }
}

/// A family as it is gathered: its name, help, type and samples.
#[verifier::external_type_specification]
#[verifier::external_body]
pub struct ExMetricFamily(MetricFamily);

/// What the samples of a family are.
#[derive(Clone, Copy, Debug, PartialEq, Eq, Structural)]
pub enum FamilyKind {
    Counter,
    Gauge,
    Summary,
    Untyped,
    Histogram,
}

impl FamilyKind {
    /// How the kind is written in the text format.
    pub open spec fn text(self) -> Seq<char> {
        match self {
            FamilyKind::Counter => "counter"@,
            FamilyKind::Gauge => "gauge"@,
            FamilyKind::Summary => "summary"@,
            FamilyKind::Untyped => "untyped"@,
            FamilyKind::Histogram => "histogram"@,
        }
    }
}

/// The name of a family.
pub uninterp spec fn family_name(family: MetricFamily) -> Seq<char>;

/// What its samples are.
pub uninterp spec fn family_kind(family: MetricFamily) -> FamilyKind;

/// How many samples it has.
pub uninterp spec fn family_size(family: MetricFamily) -> nat;

/// Its samples that are whole numbers: the hash of their label values, that of
/// the listener first, and the number.
pub uninterp spec fn samples(family: MetricFamily) -> Set<(u64, int)>;

/// The lines that describe it and list its samples.
pub uninterp spec fn family_text(family: MetricFamily) -> Seq<char>;

/// Up to here, whole numbers are gathered as they are.
pub const EXACT: u64 = 0x20_0000_0000_0000;

/// The number is gathered as it is.
pub open spec fn is_exact(n: int) -> bool {
    -EXACT <= n <= EXACT
}

/// The line that gives the type of a family.
pub open spec fn type_line(name: Seq<char>, kind: FamilyKind) -> Seq<char> {
    "# TYPE "@ + name + " "@ + kind.text() + "\n"@
}

/// The name and the kind of a family.
pub open spec fn entry(family: MetricFamily) -> (Seq<char>, FamilyKind) {
    (family_name(family), family_kind(family))
}

/// The text format has a form for the family: it has a name, a type and a
/// sample.
pub open spec fn is_exposable(family: MetricFamily) -> bool {
    &&& family_size(family) > 0
    &&& family_name(family).len() > 0
    &&& family_kind(family) != FamilyKind::Untyped
}

pub open spec fn all_exposable(families: Seq<MetricFamily>) -> bool {
    forall|i: int| 0 <= i < families.len() ==> is_exposable(#[trigger] families[i])
}

/// The families, one after the other, in the text format.
pub open spec fn exposition(families: Seq<MetricFamily>) -> Seq<char>
    decreases families.len(),
{
    if families.len() == 0 {
        Seq::empty()
    } else {
        exposition(families.drop_last()) + family_text(families.last())
    }
}

/// `part` stands somewhere in `text`.
pub open spec fn holds_text(text: Seq<char>, part: Seq<char>) -> bool {
    exists|i: int|
        0 <= i <= text.len() - part.len() && #[trigger] text.subrange(i, i + part.len()) == part
}

/// The text gives the type of every family.
pub open spec fn lists_types(text: Seq<char>, families: Seq<MetricFamily>) -> bool {
    forall|i: int|
        0 <= i < families.len() ==> holds_text(
            text,
            type_line(family_name(#[trigger] families[i]), family_kind(families[i])),
        )
}

/// `a` comes before `b` as texts are ordered, by their first difference.
pub open spec fn text_before(a: Seq<char>, b: Seq<char>) -> bool
    decreases a.len(),
{
    if b.len() == 0 {
        false
    } else if a.len() == 0 {
        true
    } else if a[0] != b[0] {
        a[0] < b[0]
    } else {
        text_before(a.drop_first(), b.drop_first())
    }
}

/// The families are such as a registry hands out: none is without a sample,
/// and they come in the order of their names, no name twice.
pub open spec fn is_gathering(families: Seq<MetricFamily>) -> bool {
    &&& forall|i: int| 0 <= i < families.len() ==> family_size(#[trigger] families[i]) > 0
    &&& forall|i: int, j: int|
        0 <= i < j < families.len() ==> text_before(
            family_name(#[trigger] families[i]),
            family_name(#[trigger] families[j]),
        )
}

/// `MetricFamily::get_name` of `prometheus`. Claimed: the result is the name.
#[verifier::external_body]
fn name_of(family: &MetricFamily) -> (name: String)
    ensures
        name@ == family_name(*family),
{
    family.get_name().to_string()
}

/// `MetricFamily::get_field_type` of `prometheus`. Claimed: the result is what
/// the samples are.
#[verifier::external_body]
fn kind_of(family: &MetricFamily) -> (kind: FamilyKind)
    ensures
        kind == family_kind(*family),
{
    match family.get_field_type() {
        MetricType::COUNTER => FamilyKind::Counter,
        MetricType::GAUGE => FamilyKind::Gauge,
        MetricType::SUMMARY => FamilyKind::Summary,
        MetricType::UNTYPED => FamilyKind::Untyped,
        MetricType::HISTOGRAM => FamilyKind::Histogram,
    }
}

/// `MetricFamily::get_metric` of `prometheus`. Claimed: the result is how many
/// samples there are.
#[verifier::external_body]
fn size_of(family: &MetricFamily) -> (n: usize)
    ensures
        n == family_size(*family),
{
    family.get_metric().len()
}

/// All families of counters.
pub open spec fn counters(metrics: Metrics) -> Seq<CounterVec> {
    seq![
        metrics.packets_received,
        metrics.bytes_received,
        metrics.packets_sent,
        metrics.bytes_sent,
        metrics.balancer_packets_sent,
        metrics.balancer_bytes_sent,
        metrics.balancer_packets_failed,
        metrics.balancer_responses_received,
        metrics.balancer_response_bytes_received,
        metrics.mirror_packets_sent,
        metrics.mirror_bytes_sent,
        metrics.mirror_packets_failed,
        metrics.health_check_total,
        metrics.health_check_failed,
    ]
}

/// `Registry::gather` of `prometheus`, as things stand with the counters and
/// gauges at hand. Claimed: each family that comes back is registered and has
/// a sample, and they come in the order of their names, no name twice. Every
/// counter and gauge that does not stand at zero has a sample in its family,
/// and a sample says what its counter or gauge stands at. Past the numbers
/// that a double holds exactly, what a sample says is left unsaid.
#[verifier::external_body]
fn gathered(metrics: &Metrics) -> (families: Vec<MetricFamily>)
    requires
        metrics.wf(),
    ensures
        is_gathering(families@),
        forall|i: int|
            0 <= i < families@.len() ==> enrolled(metrics.exposure.held()).contains(
                entry(#[trigger] families@[i]),
            ),
        (forall|k: int, h: u64|
            0 <= k < counters(*metrics).len() && (#[trigger] counts(counters(*metrics)[k])[h]) != 0
                ==> exists|i: int|
                0 <= i < families@.len() && entry(#[trigger] families@[i]) == (
                    counter_desc(counters(*metrics)[k]).0,
                    FamilyKind::Counter,
                ) && (counts(counters(*metrics)[k])[h] <= EXACT ==> samples(families@[i]).contains(
                    (h, counts(counters(*metrics)[k])[h] as int),
                ))),
        (forall|k: int, i: int, h: u64, n: int|
            0 <= k < counters(*metrics).len() && 0 <= i < families@.len() && entry(families@[i]) == (
                counter_desc(#[trigger] counters(*metrics)[k]).0,
                FamilyKind::Counter,
            ) && #[trigger] samples(families@[i]).contains((h, n)) && counts(
                counters(*metrics)[k],
            )[h] <= EXACT ==> n == counts(counters(*metrics)[k])[h]),
        (forall|h: u64|
            (#[trigger] levels(metrics.balancer_backend_alive)[h]) != 0 ==> exists|i: int|
                0 <= i < families@.len() && entry(#[trigger] families@[i]) == (
                    gauge_desc(metrics.balancer_backend_alive).0,
                    FamilyKind::Gauge,
                ) && (is_exact(levels(metrics.balancer_backend_alive)[h] as int) ==> samples(
                    families@[i],
                ).contains((h, levels(metrics.balancer_backend_alive)[h] as int)))),
        (forall|i: int, h: u64, n: int|
            0 <= i < families@.len() && entry(families@[i]) == (
                gauge_desc(metrics.balancer_backend_alive).0,
                FamilyKind::Gauge,
            ) && #[trigger] samples(families@[i]).contains((h, n)) && is_exact(
                levels(metrics.balancer_backend_alive)[h] as int,
            ) ==> n == levels(metrics.balancer_backend_alive)[h]),
{
    metrics.exposure.registry.gather()
}

/// `TextEncoder::encode` of `prometheus`, handed one family. It fails on a
/// family without a name or a sample and panics on one without a type, which
/// is required not to be. Claimed: what is written depends on nothing but the
/// family, and the line that gives its type is in it.
#[verifier::external_body]
fn encoded(family: &MetricFamily) -> (t: String)
    requires
        is_exposable(*family),
    ensures
        t@ == family_text(*family),
        holds_text(t@, type_line(family_name(*family), family_kind(*family))),
{
    let mut buffer = Vec::new();
    prometheus::TextEncoder::new().encode(std::slice::from_ref(family), &mut buffer).unwrap();
    String::from_utf8(buffer).unwrap()
}

/// What stands in a text stands in it when more comes before and behind.
proof fn lemma_part_stays(before: Seq<char>, text: Seq<char>, behind: Seq<char>, part: Seq<char>)
    requires
        holds_text(text, part),
    ensures
        holds_text(before + text + behind, part),
{
    let i = choose|i: int|
        0 <= i <= text.len() - part.len() && #[trigger] text.subrange(i, i + part.len()) == part;
    let k = before.len() + i;
    assert((before + text + behind).subrange(k, k + part.len()) =~= text.subrange(
        i,
        i + part.len(),
    ));
}

/// The families in the text format that scrapers read, or nothing where the
/// format has no form for one of them.
pub fn exposed(families: &Vec<MetricFamily>) -> (r: Option<String>)
    ensures
        r is Some <==> all_exposable(families@),
        r matches Some(t) ==> t@ == exposition(families@),
        r matches Some(t) ==> lists_types(t@, families@),
{
    let mut text = String::new();
    let mut i: usize = 0;
    while i < families.len()
        invariant
            i <= families@.len(),
            all_exposable(families@.take(i as int)),
            text@ == exposition(families@.take(i as int)),
            lists_types(text@, families@.take(i as int)),
        decreases families@.len() - i,
    {
        let family = &families[i];
        let name = name_of(family);
        if size_of(family) == 0 || name.as_str().unicode_len() == 0 || kind_of(family)
            == FamilyKind::Untyped {
            assert(!is_exposable(families@[i as int]));
            return None;
        }
        let block = encoded(family);
        let ghost before = text@;
        text.append(block.as_str());
        proof {
            let done = families@.take(i as int);
            let more = families@.take(i + 1);
            assert(more =~= done.push(*family));
            assert(more.drop_last() =~= done);
            assert forall|j: int| 0 <= j < more.len() implies holds_text(
                text@,
                type_line(family_name(#[trigger] more[j]), family_kind(more[j])),
            ) by {
                let none = Seq::<char>::empty();
                if j < i {
                    assert(more[j] == done[j]);
                    lemma_part_stays(
                        none,
                        before,
                        block@,
                        type_line(family_name(done[j]), family_kind(done[j])),
                    );
                    assert(none + before + block@ =~= text@);
                } else {
                    lemma_part_stays(
                        before,
                        block@,
                        none,
                        type_line(family_name(*family), family_kind(*family)),
                    );
                    assert(before + block@ + none =~= text@);
                }
            }
        }
        i += 1;
    }
    assert(families@.take(i as int) =~= families@);
    Some(text)
}

/// A family of this name and kind is among them, and has a sample that says
/// `n` under the label values of this hash.
pub open spec fn tells(
    families: Seq<MetricFamily>,
    name: Seq<char>,
    kind: FamilyKind,
    h: u64,
    n: int,
) -> bool {
    exists|i: int|
        0 <= i < families.len() && entry(#[trigger] families[i]) == (name, kind) && (is_exact(n)
            ==> samples(families[i]).contains((h, n)))
}

/// Every counter that has been counted is told, and nothing else is told of
/// its family.
pub open spec fn lists_counted(families: Seq<MetricFamily>, v: CounterVec) -> bool {
    &&& forall|h: u64|
        (#[trigger] counts(v)[h]) != 0 ==> tells(
            families,
            counter_desc(v).0,
            FamilyKind::Counter,
            h,
            counts(v)[h] as int,
        )
    &&& forall|i: int, h: u64, n: int|
        0 <= i < families.len() && entry(families[i]) == (counter_desc(v).0, FamilyKind::Counter)
            && #[trigger] samples(families[i]).contains((h, n)) && is_exact(counts(v)[h] as int)
            ==> n == counts(v)[h]
}

/// The same of gauges.
pub open spec fn lists_raised(families: Seq<MetricFamily>, v: GaugeVec) -> bool {
    &&& forall|h: u64|
        (#[trigger] levels(v)[h]) != 0 ==> tells(
            families,
            gauge_desc(v).0,
            FamilyKind::Gauge,
            h,
            levels(v)[h] as int,
        )
    &&& forall|i: int, h: u64, n: int|
        0 <= i < families.len() && entry(families[i]) == (gauge_desc(v).0, FamilyKind::Gauge)
            && #[trigger] samples(families[i]).contains((h, n)) && is_exact(levels(v)[h] as int)
            ==> n == levels(v)[h]
}

/// The text gives the type of the family as soon as one of its counters has
/// been counted.
pub open spec fn shows_counted(text: Seq<char>, v: CounterVec) -> bool {
    is_counted(v) ==> holds_text(text, type_line(counter_desc(v).0, FamilyKind::Counter))
}

/// Everything that has been counted is told by the families, as it stands, and
/// nothing that is not the balancer's.
pub open spec fn lists_all(metrics: Metrics, families: Seq<MetricFamily>) -> bool {
    &&& is_gathering(families)
    &&& forall|i: int|
        0 <= i < families.len() ==> metric_families().contains(entry(#[trigger] families[i]))
    &&& lists_counted(families, metrics.packets_received)
    &&& lists_counted(families, metrics.bytes_received)
    &&& lists_counted(families, metrics.packets_sent)
    &&& lists_counted(families, metrics.bytes_sent)
    &&& lists_counted(families, metrics.balancer_packets_sent)
    &&& lists_counted(families, metrics.balancer_bytes_sent)
    &&& lists_counted(families, metrics.balancer_packets_failed)
    &&& lists_counted(families, metrics.balancer_responses_received)
    &&& lists_counted(families, metrics.balancer_response_bytes_received)
    &&& lists_raised(families, metrics.balancer_backend_alive)
    &&& lists_counted(families, metrics.mirror_packets_sent)
    &&& lists_counted(families, metrics.mirror_bytes_sent)
    &&& lists_counted(families, metrics.mirror_packets_failed)
    &&& lists_counted(families, metrics.health_check_total)
    &&& lists_counted(families, metrics.health_check_failed)
}

/// The text gives the type of everything that has been counted.
pub open spec fn shows_all(metrics: Metrics, text: Seq<char>) -> bool {
    &&& shows_counted(text, metrics.packets_received)
    &&& shows_counted(text, metrics.bytes_received)
    &&& shows_counted(text, metrics.packets_sent)
    &&& shows_counted(text, metrics.bytes_sent)
    &&& shows_counted(text, metrics.balancer_packets_sent)
    &&& shows_counted(text, metrics.balancer_bytes_sent)
    &&& shows_counted(text, metrics.balancer_packets_failed)
    &&& shows_counted(text, metrics.balancer_responses_received)
    &&& shows_counted(text, metrics.balancer_response_bytes_received)
    &&& is_raised(metrics.balancer_backend_alive) ==> holds_text(
        text,
        type_line(gauge_desc(metrics.balancer_backend_alive).0, FamilyKind::Gauge),
    )
    &&& shows_counted(text, metrics.mirror_packets_sent)
    &&& shows_counted(text, metrics.mirror_bytes_sent)
    &&& shows_counted(text, metrics.mirror_packets_failed)
    &&& shows_counted(text, metrics.health_check_total)
    &&& shows_counted(text, metrics.health_check_failed)
}

/// What everything that has been counted stands at, in the text format that
/// scrapers read, in the order of the names.
pub fn gather_metrics(metrics: &Metrics) -> (t: String)
    requires
        metrics.wf(),
    ensures
        exists|families: Seq<MetricFamily>| #[trigger]
            lists_all(*metrics, families) && t@ == exposition(families) && lists_types(
                t@,
                families,
            ),
        shows_all(*metrics, t@),
{
    let families = gathered(metrics);
    proof {
        lemma_descriptions();
        assert forall|i: int| 0 <= i < families@.len() implies metric_families().contains(
            entry(#[trigger] families@[i]),
        ) && is_exposable(families@[i]) by {
            assert(enrolled(metrics.exposure.held()).contains(entry(families@[i])));
            let k = choose|k: int|
                0 <= k < metric_families().len() && metric_families()[k] == entry(families@[i]);
            lemma_family_names();
            assert(metric_families()[k].0.len() > 0);
        }
        let all = counters(*metrics);
        assert forall|k: int| 0 <= k < all.len() implies lists_counted(
            families@,
            #[trigger] all[k],
        ) by {
            let v = all[k];
            assert forall|h: u64| (#[trigger] counts(v)[h]) != 0 implies tells(
                families@,
                counter_desc(v).0,
                FamilyKind::Counter,
                h,
                counts(v)[h] as int,
            ) by {
                assert(counts(counters(*metrics)[k])[h] != 0);
            }
        }
        assert(lists_counted(families@, all[0]));
        assert(lists_counted(families@, all[1]));
        assert(lists_counted(families@, all[2]));
        assert(lists_counted(families@, all[3]));
        assert(lists_counted(families@, all[4]));
        assert(lists_counted(families@, all[5]));
        assert(lists_counted(families@, all[6]));
        assert(lists_counted(families@, all[7]));
        assert(lists_counted(families@, all[8]));
        assert(lists_counted(families@, all[9]));
        assert(lists_counted(families@, all[10]));
        assert(lists_counted(families@, all[11]));
        assert(lists_counted(families@, all[12]));
        assert(lists_counted(families@, all[13]));
        assert(lists_all(*metrics, families@));
    }
    exposed(&families).unwrap()
}

/// Nothing has been counted before anything has happened.
pub proof fn law_counts_start_at_zero(metrics: Metrics, listener: Seq<char>, other: Seq<char>)
    requires
        metrics.wf(),
        metrics.blank(),
    ensures
        listener_counts(metrics, listener) == (0u64, 0u64, 0u64, 0u64),
        backend_counts(metrics, listener, other) == (BackendStats {
            tx_packets: 0,
            tx_bytes: 0,
            tx_failed: 0,
            rx_packets: 0,
            rx_bytes: 0,
        }),
        mirror_counts(metrics, listener, other) == (MirrorStats {
            tx_packets: 0,
            tx_bytes: 0,
            tx_failed: 0,
        }),
{
}

/// Counting under some labels leaves alone what stands under labels that
/// hash otherwise.
pub proof fn law_counts_are_kept_apart(
    before: CounterVec,
    after: CounterVec,
    labels: Seq<Seq<char>>,
    others: Seq<Seq<char>>,
    n: nat,
)
    requires
        bumped(before, after, labels, n),
        label_hash(labels) != label_hash(others),
    ensures
        count_of(after, others) == count_of(before, others),
{
}

/// What is counted is what is read back: a counter that has not come round
/// has grown by just that much.
pub proof fn law_counts_add_up(
    before: CounterVec,
    after: CounterVec,
    labels: Seq<Seq<char>>,
    n: nat,
)
    requires
        bumped(before, after, labels, n),
        labels.len() == counter_desc(before).2.len(),
        count_of(before, labels) + n <= u64::MAX,
    ensures
        count_of(after, labels) == count_of(before, labels) + n,
{
}

/// What is counted is exposed: once something was counted, the families that
/// tell all have a sample that says what it stands at then, and a text that
/// shows all gives the type of its family.
pub proof fn law_what_is_counted_is_exposed(
    before: CounterVec,
    after: CounterVec,
    labels: Seq<Seq<char>>,
    n: nat,
    families: Seq<MetricFamily>,
    text: Seq<char>,
)
    requires
        bumped(before, after, labels, n),
        0 < n,
        counts(before)[label_hash(labels)] + n <= u64::MAX,
        lists_counted(families, after),
        shows_counted(text, after),
    ensures
        tells(
            families,
            counter_desc(before).0,
            FamilyKind::Counter,
            label_hash(labels),
            counts(before)[label_hash(labels)] + n,
        ),
        holds_text(text, type_line(counter_desc(before).0, FamilyKind::Counter)),
{
    assert(counts(after)[label_hash(labels)] != 0);
}

/// A packet that was received is exposed, under the name of its counter and
/// with the count that it brought it to.
pub proof fn law_received_packets_are_exposed(
    before: Metrics,
    after: Metrics,
    listener: Seq<char>,
    len: nat,
    families: Seq<MetricFamily>,
    text: Seq<char>,
)
    requires
        before.wf(),
        counted_received(before, after, listener, len),
        count_of(before.packets_received, seq![listener]) < u64::MAX,
        lists_all(after, families),
        shows_all(after, text),
    ensures
        tells(
            families,
            "udp_balancer_packets_received_total"@,
            FamilyKind::Counter,
            label_hash(seq![listener]),
            count_of(before.packets_received, seq![listener]) + 1,
        ),
        holds_text(
            text,
            type_line("udp_balancer_packets_received_total"@, FamilyKind::Counter),
        ),
{
    law_what_is_counted_is_exposed(
        before.packets_received,
        after.packets_received,
        seq![listener],
        1,
        families,
        text,
    );
}

/// A description under which a family can be made.
pub open spec fn is_describable(desc: (Seq<char>, Seq<char>, Seq<Seq<char>>)) -> bool {
    describable(desc.0, desc.1, desc.2)
}

/// No family is refused for its description: every name, help and label is
/// one that can be used.
pub proof fn law_every_family_can_be_made(m: Metrics)
    requires
        m.wf(),
    ensures
        is_describable(counter_desc(m.packets_received)),
        is_describable(counter_desc(m.bytes_received)),
        is_describable(counter_desc(m.packets_sent)),
        is_describable(counter_desc(m.bytes_sent)),
        is_describable(counter_desc(m.balancer_packets_sent)),
        is_describable(counter_desc(m.balancer_bytes_sent)),
        is_describable(counter_desc(m.balancer_packets_failed)),
        is_describable(counter_desc(m.balancer_responses_received)),
        is_describable(counter_desc(m.balancer_response_bytes_received)),
        is_describable(gauge_desc(m.balancer_backend_alive)),
        is_describable(counter_desc(m.mirror_packets_sent)),
        is_describable(counter_desc(m.mirror_bytes_sent)),
        is_describable(counter_desc(m.mirror_packets_failed)),
        is_describable(counter_desc(m.health_check_total)),
        is_describable(counter_desc(m.health_check_failed)),
{
    lemma_descriptions();
}

proof fn lemma_descriptions()
    ensures
        describable("udp_balancer_packets_received_total"@, "Total number of packets received"@, by_listener()),
        describable("udp_balancer_bytes_received_total"@, "Total number of bytes received"@, by_listener()),
        describable("udp_balancer_packets_sent_total"@, "Total number of packets sent (responses)"@, by_listener()),
        describable("udp_balancer_bytes_sent_total"@, "Total number of bytes sent (responses)"@, by_listener()),
        describable("udp_balancer_backend_packets_sent_total"@, "Total number of packets sent by balancer"@, by_backend()),
        describable("udp_balancer_backend_bytes_sent_total"@, "Total number of bytes sent by balancer"@, by_backend()),
        describable("udp_balancer_backend_packets_failed_total"@, "Total number of packets that failed to send"@, by_backend()),
        describable("udp_balancer_backend_responses_received_total"@, "Total number of response packets received from backends"@, by_backend()),
        describable("udp_balancer_backend_response_bytes_received_total"@, "Total number of response bytes received from backends"@, by_backend()),
        describable("udp_balancer_backend_alive"@, "Whether a backend is alive (1) or dead (0)"@, by_backend()),
        describable("udp_balancer_mirror_packets_sent_total"@, "Total number of packets sent to mirror destinations"@, by_mirror()),
        describable("udp_balancer_mirror_bytes_sent_total"@, "Total number of bytes sent to mirror destinations"@, by_mirror()),
        describable("udp_balancer_mirror_packets_failed_total"@, "Total number of packets that failed to send to mirror"@, by_mirror()),
        describable("udp_balancer_health_check_total"@, "Total number of health checks performed"@, by_backend()),
        describable("udp_balancer_health_check_failed_total"@, "Total number of failed health checks"@, by_backend()),
{
    reveal_strlit("listener");
    reveal_strlit("backend");
    reveal_strlit("mirror");
    assert("listener"@[0] != "backend"@[0] && "listener"@[0] != "mirror"@[0]);
    assert(describable("udp_balancer_packets_received_total"@, "Total number of packets received"@, by_listener())) by {
        reveal_strlit("udp_balancer_packets_received_total");
        reveal_strlit("Total number of packets received");
    }
    assert(describable("udp_balancer_bytes_received_total"@, "Total number of bytes received"@, by_listener())) by {
        reveal_strlit("udp_balancer_bytes_received_total");
        reveal_strlit("Total number of bytes received");
    }
    assert(describable("udp_balancer_packets_sent_total"@, "Total number of packets sent (responses)"@, by_listener())) by {
        reveal_strlit("udp_balancer_packets_sent_total");
        reveal_strlit("Total number of packets sent (responses)");
    }
    assert(describable("udp_balancer_bytes_sent_total"@, "Total number of bytes sent (responses)"@, by_listener())) by {
        reveal_strlit("udp_balancer_bytes_sent_total");
        reveal_strlit("Total number of bytes sent (responses)");
    }
    assert(describable("udp_balancer_backend_packets_sent_total"@, "Total number of packets sent by balancer"@, by_backend())) by {
        reveal_strlit("udp_balancer_backend_packets_sent_total");
        reveal_strlit("Total number of packets sent by balancer");
    }
    assert(describable("udp_balancer_backend_bytes_sent_total"@, "Total number of bytes sent by balancer"@, by_backend())) by {
        reveal_strlit("udp_balancer_backend_bytes_sent_total");
        reveal_strlit("Total number of bytes sent by balancer");
    }
    assert(describable("udp_balancer_backend_packets_failed_total"@, "Total number of packets that failed to send"@, by_backend())) by {
        reveal_strlit("udp_balancer_backend_packets_failed_total");
        reveal_strlit("Total number of packets that failed to send");
    }
    assert(describable("udp_balancer_backend_responses_received_total"@, "Total number of response packets received from backends"@, by_backend())) by {
        reveal_strlit("udp_balancer_backend_responses_received_total");
        reveal_strlit("Total number of response packets received from backends");
    }
    assert(describable("udp_balancer_backend_response_bytes_received_total"@, "Total number of response bytes received from backends"@, by_backend())) by {
        reveal_strlit("udp_balancer_backend_response_bytes_received_total");
        reveal_strlit("Total number of response bytes received from backends");
    }
    assert(describable("udp_balancer_backend_alive"@, "Whether a backend is alive (1) or dead (0)"@, by_backend())) by {
        reveal_strlit("udp_balancer_backend_alive");
        reveal_strlit("Whether a backend is alive (1) or dead (0)");
    }
    assert(describable("udp_balancer_mirror_packets_sent_total"@, "Total number of packets sent to mirror destinations"@, by_mirror())) by {
        reveal_strlit("udp_balancer_mirror_packets_sent_total");
        reveal_strlit("Total number of packets sent to mirror destinations");
    }
    assert(describable("udp_balancer_mirror_bytes_sent_total"@, "Total number of bytes sent to mirror destinations"@, by_mirror())) by {
        reveal_strlit("udp_balancer_mirror_bytes_sent_total");
        reveal_strlit("Total number of bytes sent to mirror destinations");
    }
    assert(describable("udp_balancer_mirror_packets_failed_total"@, "Total number of packets that failed to send to mirror"@, by_mirror())) by {
        reveal_strlit("udp_balancer_mirror_packets_failed_total");
        reveal_strlit("Total number of packets that failed to send to mirror");
    }
    assert(describable("udp_balancer_health_check_total"@, "Total number of health checks performed"@, by_backend())) by {
        reveal_strlit("udp_balancer_health_check_total");
        reveal_strlit("Total number of health checks performed");
    }
    assert(describable("udp_balancer_health_check_failed_total"@, "Total number of failed health checks"@, by_backend())) by {
        reveal_strlit("udp_balancer_health_check_failed_total");
        reveal_strlit("Total number of failed health checks");
    }
}

/// The labels of a listener hash as the bytes of its address, and those of a
/// backend or a mirror as the bytes of the listener's address followed by those
/// of its own.
pub proof fn law_labels_hash_as_their_bytes(listener: Seq<char>, other: Seq<char>)
    ensures
        label_hash(seq![listener]) == hashing::fnv1a(encode_utf8(listener)),
        label_hash(seq![listener, other]) == hashing::fnv1a(
            encode_utf8(listener) + encode_utf8(other),
        ),
{
    reveal_with_fuel(joined, 3);
    assert(seq![listener].drop_last() =~= Seq::<Seq<char>>::empty());
    assert(seq![listener, other].drop_last() =~= seq![listener]);
    assert(Seq::<u8>::empty() + encode_utf8(listener) =~= encode_utf8(listener));
}

/// A counter grows by what is counted, whatever it stands at, and starts over
/// past the largest number; whatever hashes otherwise stays.
pub proof fn law_counters_grow_by_what_is_counted(
    before: CounterVec,
    after: CounterVec,
    labels: Seq<Seq<char>>,
    others: Seq<Seq<char>>,
    n: nat,
)
    requires
        bumped(before, after, labels, n),
        labels.len() == counter_desc(before).2.len(),
        others.len() == labels.len(),
    ensures
        count_of(after, labels) == (count_of(before, labels) + n) % 0x1_0000_0000_0000_0000,
        label_hash(others) != label_hash(labels) ==> count_of(after, others) == count_of(
            before,
            others,
        ),
        label_hash(others) == label_hash(labels) ==> count_of(after, others) == (count_of(
            before,
            others,
        ) + n) % 0x1_0000_0000_0000_0000,
{
}

/// A packet that a listener takes in adds one packet and its bytes to what the
/// listener took in, and nothing to what it sent back, to any backend or to
/// any mirror.
pub proof fn law_received_packets_count(
    before: Metrics,
    after: Metrics,
    listener: Seq<char>,
    len: nat,
    other: Seq<char>,
    target: Seq<char>,
)
    requires
        before.wf(),
        counted_received(before, after, listener, len),
    ensures
        ({
            let (rx, rx_bytes, tx, tx_bytes) = listener_counts(before, listener);
            &&& listener_counts(after, listener).0 == (rx + 1) % 0x1_0000_0000_0000_0000
            &&& listener_counts(after, listener).1 == (rx_bytes + len) % 0x1_0000_0000_0000_0000
            &&& listener_counts(after, listener).2 == tx
            &&& listener_counts(after, listener).3 == tx_bytes
        }),
        label_hash(seq![other]) != label_hash(seq![listener]) ==> listener_counts(after, other)
            == listener_counts(before, other),
        backend_counts(after, other, target) == backend_counts(before, other, target),
        mirror_counts(after, other, target) == mirror_counts(before, other, target),
        after.health_check_total == before.health_check_total,
        after.health_check_failed == before.health_check_failed,
        after.balancer_backend_alive == before.balancer_backend_alive,
{
}

/// A response that a listener sends back adds one packet and its bytes to what
/// the listener sent back, and nothing to anything else.
pub proof fn law_replies_count(
    before: Metrics,
    after: Metrics,
    listener: Seq<char>,
    len: nat,
    other: Seq<char>,
    target: Seq<char>,
)
    requires
        before.wf(),
        counted_replied(before, after, listener, len),
    ensures
        ({
            let (rx, rx_bytes, tx, tx_bytes) = listener_counts(before, listener);
            &&& listener_counts(after, listener).0 == rx
            &&& listener_counts(after, listener).1 == rx_bytes
            &&& listener_counts(after, listener).2 == (tx + 1) % 0x1_0000_0000_0000_0000
            &&& listener_counts(after, listener).3 == (tx_bytes + len) % 0x1_0000_0000_0000_0000
        }),
        label_hash(seq![other]) != label_hash(seq![listener]) ==> listener_counts(after, other)
            == listener_counts(before, other),
        backend_counts(after, other, target) == backend_counts(before, other, target),
        mirror_counts(after, other, target) == mirror_counts(before, other, target),
        after.health_check_total == before.health_check_total,
        after.health_check_failed == before.health_check_failed,
        after.balancer_backend_alive == before.balancer_backend_alive,
{
}

/// A packet that goes out to a backend adds one packet and the bytes that went
/// to what the backend was sent, and nothing to anything else.
pub proof fn law_forwarded_packets_count(
    before: Metrics,
    after: Metrics,
    listener: Seq<char>,
    backend: Seq<char>,
    sent: nat,
    other: Seq<char>,
    target: Seq<char>,
)
    requires
        before.wf(),
        counted_forwarded(before, after, listener, backend, sent),
    ensures
        ({
            let s = backend_counts(before, listener, backend);
            let t = backend_counts(after, listener, backend);
            &&& t.tx_packets == (s.tx_packets + 1) % 0x1_0000_0000_0000_0000
            &&& t.tx_bytes == (s.tx_bytes + sent) % 0x1_0000_0000_0000_0000
            &&& t.tx_failed == s.tx_failed
            &&& t.rx_packets == s.rx_packets
            &&& t.rx_bytes == s.rx_bytes
        }),
        label_hash(seq![other, target]) != label_hash(seq![listener, backend]) ==> backend_counts(
            after,
            other,
            target,
        ) == backend_counts(before, other, target),
        listener_counts(after, other) == listener_counts(before, other),
        mirror_counts(after, other, target) == mirror_counts(before, other, target),
        after.health_check_total == before.health_check_total,
        after.health_check_failed == before.health_check_failed,
        after.balancer_backend_alive == before.balancer_backend_alive,
{
}

/// A packet that does not go out to a backend adds one to what failed there,
/// and nothing to anything else.
pub proof fn law_failed_packets_count(
    before: Metrics,
    after: Metrics,
    listener: Seq<char>,
    backend: Seq<char>,
    other: Seq<char>,
    target: Seq<char>,
)
    requires
        before.wf(),
        counted_forward_failed(before, after, listener, backend),
    ensures
        ({
            let s = backend_counts(before, listener, backend);
            let t = backend_counts(after, listener, backend);
            &&& t.tx_failed == (s.tx_failed + 1) % 0x1_0000_0000_0000_0000
            &&& t.tx_packets == s.tx_packets
            &&& t.tx_bytes == s.tx_bytes
            &&& t.rx_packets == s.rx_packets
            &&& t.rx_bytes == s.rx_bytes
        }),
        label_hash(seq![other, target]) != label_hash(seq![listener, backend]) ==> backend_counts(
            after,
            other,
            target,
        ) == backend_counts(before, other, target),
        listener_counts(after, other) == listener_counts(before, other),
        mirror_counts(after, other, target) == mirror_counts(before, other, target),
        after.health_check_total == before.health_check_total,
        after.health_check_failed == before.health_check_failed,
        after.balancer_backend_alive == before.balancer_backend_alive,
{
}

/// A response from a backend adds one packet and its bytes to what came from
/// the backend, and nothing to anything else.
pub proof fn law_answers_count(
    before: Metrics,
    after: Metrics,
    listener: Seq<char>,
    backend: Seq<char>,
    len: nat,
    other: Seq<char>,
    target: Seq<char>,
)
    requires
        before.wf(),
        counted_answered(before, after, listener, backend, len),
    ensures
        ({
            let s = backend_counts(before, listener, backend);
            let t = backend_counts(after, listener, backend);
            &&& t.rx_packets == (s.rx_packets + 1) % 0x1_0000_0000_0000_0000
            &&& t.rx_bytes == (s.rx_bytes + len) % 0x1_0000_0000_0000_0000
            &&& t.tx_packets == s.tx_packets
            &&& t.tx_bytes == s.tx_bytes
            &&& t.tx_failed == s.tx_failed
        }),
        label_hash(seq![other, target]) != label_hash(seq![listener, backend]) ==> backend_counts(
            after,
            other,
            target,
        ) == backend_counts(before, other, target),
        listener_counts(after, other) == listener_counts(before, other),
        mirror_counts(after, other, target) == mirror_counts(before, other, target),
        after.health_check_total == before.health_check_total,
        after.health_check_failed == before.health_check_failed,
        after.balancer_backend_alive == before.balancer_backend_alive,
{
}

/// A copy that goes out to a mirror adds one packet and the bytes that went to
/// what the mirror was sent, and nothing to anything else.
pub proof fn law_mirrored_packets_count(
    before: Metrics,
    after: Metrics,
    listener: Seq<char>,
    mirror: Seq<char>,
    sent: nat,
    other: Seq<char>,
    target: Seq<char>,
)
    requires
        before.wf(),
        counted_mirrored(before, after, listener, mirror, sent),
    ensures
        ({
            let s = mirror_counts(before, listener, mirror);
            let t = mirror_counts(after, listener, mirror);
            &&& t.tx_packets == (s.tx_packets + 1) % 0x1_0000_0000_0000_0000
            &&& t.tx_bytes == (s.tx_bytes + sent) % 0x1_0000_0000_0000_0000
            &&& t.tx_failed == s.tx_failed
        }),
        label_hash(seq![other, target]) != label_hash(seq![listener, mirror]) ==> mirror_counts(
            after,
            other,
            target,
        ) == mirror_counts(before, other, target),
        listener_counts(after, other) == listener_counts(before, other),
        backend_counts(after, other, target) == backend_counts(before, other, target),
        after.health_check_total == before.health_check_total,
        after.health_check_failed == before.health_check_failed,
        after.balancer_backend_alive == before.balancer_backend_alive,
{
}

/// A copy that does not go out to a mirror adds one to what failed there, and
/// nothing to anything else.
pub proof fn law_failed_copies_count(
    before: Metrics,
    after: Metrics,
    listener: Seq<char>,
    mirror: Seq<char>,
    other: Seq<char>,
    target: Seq<char>,
)
    requires
        before.wf(),
        counted_mirror_failed(before, after, listener, mirror),
    ensures
        ({
            let s = mirror_counts(before, listener, mirror);
            let t = mirror_counts(after, listener, mirror);
            &&& t.tx_failed == (s.tx_failed + 1) % 0x1_0000_0000_0000_0000
            &&& t.tx_packets == s.tx_packets
            &&& t.tx_bytes == s.tx_bytes
        }),
        label_hash(seq![other, target]) != label_hash(seq![listener, mirror]) ==> mirror_counts(
            after,
            other,
            target,
        ) == mirror_counts(before, other, target),
        listener_counts(after, other) == listener_counts(before, other),
        backend_counts(after, other, target) == backend_counts(before, other, target),
        after.health_check_total == before.health_check_total,
        after.health_check_failed == before.health_check_failed,
        after.balancer_backend_alive == before.balancer_backend_alive,
{
}

/// The three readings are those of the counters that they are named after, at
/// the labels that they are asked for.
pub proof fn law_readings_are_of_their_counters(m: Metrics, listener: Seq<char>, target: Seq<char>)
    requires
        m.wf(),
    ensures
        listener_counts(m, listener) == (
            counts(m.packets_received)[label_hash(seq![listener])],
            counts(m.bytes_received)[label_hash(seq![listener])],
            counts(m.packets_sent)[label_hash(seq![listener])],
            counts(m.bytes_sent)[label_hash(seq![listener])],
        ),
        backend_counts(m, listener, target) == (BackendStats {
            tx_packets: counts(m.balancer_packets_sent)[label_hash(seq![listener, target])],
            tx_bytes: counts(m.balancer_bytes_sent)[label_hash(seq![listener, target])],
            tx_failed: counts(m.balancer_packets_failed)[label_hash(seq![listener, target])],
            rx_packets: counts(m.balancer_responses_received)[label_hash(seq![listener, target])],
            rx_bytes: counts(m.balancer_response_bytes_received)[label_hash(
                seq![listener, target],
            )],
        }),
        mirror_counts(m, listener, target) == (MirrorStats {
            tx_packets: counts(m.mirror_packets_sent)[label_hash(seq![listener, target])],
            tx_bytes: counts(m.mirror_bytes_sent)[label_hash(seq![listener, target])],
            tx_failed: counts(m.mirror_packets_failed)[label_hash(seq![listener, target])],
        }),
{
}

/// A gauge that was set stands at what it was set to, however it stood before,
/// and whatever hashes otherwise stays.
pub proof fn law_gauges_stand_where_set(
    before: GaugeVec,
    after: GaugeVec,
    labels: Seq<Seq<char>>,
    others: Seq<Seq<char>>,
    value: i64,
)
    requires
        adjusted(before, after, labels, value),
    ensures
        levels(after)[label_hash(labels)] == value,
        label_hash(others) != label_hash(labels) ==> levels(after)[label_hash(others)] == levels(
            before,
        )[label_hash(others)],
{
}

/// The line that gives a type: the word for it behind the name, between the
/// mark for such a line and the end of the line.
pub proof fn law_type_lines(name: Seq<char>)
    ensures
        type_line(name, FamilyKind::Counter) == "# TYPE "@ + name + " "@ + "counter"@ + "\n"@,
        type_line(name, FamilyKind::Gauge) == "# TYPE "@ + name + " "@ + "gauge"@ + "\n"@,
{
}

/// Families that follow each other are exposed one after the other, each with
/// its own lines.
pub proof fn law_families_are_exposed_in_order(
    front: Seq<MetricFamily>,
    back: Seq<MetricFamily>,
    family: MetricFamily,
)
    ensures
        exposition(front + back) == exposition(front) + exposition(back),
        exposition(seq![family]) == family_text(family),
        exposition(Seq::empty()) == Seq::<char>::empty(),
    decreases back.len(),
{
    reveal_with_fuel(exposition, 2);
    assert(seq![family].drop_last() =~= Seq::<MetricFamily>::empty());
    assert(Seq::<char>::empty() + family_text(family) =~= family_text(family));
    if back.len() == 0 {
        assert(front + back =~= front);
        assert(exposition(front) + Seq::<char>::empty() =~= exposition(front));
    } else {
        law_families_are_exposed_in_order(front, back.drop_last(), family);
        assert((front + back).drop_last() =~= front + back.drop_last());
        assert((front + back).last() == back.last());
        assert(exposition(front + back) =~= exposition(front) + exposition(back));
    }
}

/// What backends and mirrors did is exposed under the names of their counters,
/// each as it stands.
pub proof fn law_backend_counts_are_exposed(
    m: Metrics,
    families: Seq<MetricFamily>,
    listener: Seq<char>,
    target: Seq<char>,
)
    requires
        m.wf(),
        lists_all(m, families),
    ensures
        ({
            let h = label_hash(seq![listener, target]);
            let b = backend_counts(m, listener, target);
            let c = mirror_counts(m, listener, target);
            let kind = FamilyKind::Counter;
            &&& b.tx_packets != 0 ==> tells(
                families,
                "udp_balancer_backend_packets_sent_total"@,
                kind,
                h,
                b.tx_packets as int,
            )
            &&& b.tx_bytes != 0 ==> tells(
                families,
                "udp_balancer_backend_bytes_sent_total"@,
                kind,
                h,
                b.tx_bytes as int,
            )
            &&& b.tx_failed != 0 ==> tells(
                families,
                "udp_balancer_backend_packets_failed_total"@,
                kind,
                h,
                b.tx_failed as int,
            )
            &&& b.rx_packets != 0 ==> tells(
                families,
                "udp_balancer_backend_responses_received_total"@,
                kind,
                h,
                b.rx_packets as int,
            )
            &&& b.rx_bytes != 0 ==> tells(
                families,
                "udp_balancer_backend_response_bytes_received_total"@,
                kind,
                h,
                b.rx_bytes as int,
            )
            &&& c.tx_packets != 0 ==> tells(
                families,
                "udp_balancer_mirror_packets_sent_total"@,
                kind,
                h,
                c.tx_packets as int,
            )
            &&& c.tx_bytes != 0 ==> tells(
                families,
                "udp_balancer_mirror_bytes_sent_total"@,
                kind,
                h,
                c.tx_bytes as int,
            )
            &&& c.tx_failed != 0 ==> tells(
                families,
                "udp_balancer_mirror_packets_failed_total"@,
                kind,
                h,
                c.tx_failed as int,
            )
        }),
{
}

/// What listeners did is exposed under the names of their counters, each as it
/// stands.
pub proof fn law_listener_counts_are_exposed(
    m: Metrics,
    families: Seq<MetricFamily>,
    listener: Seq<char>,
)
    requires
        m.wf(),
        lists_all(m, families),
    ensures
        ({
            let h = label_hash(seq![listener]);
            let (rx, rx_bytes, tx, tx_bytes) = listener_counts(m, listener);
            let kind = FamilyKind::Counter;
            &&& rx != 0 ==> tells(
                families,
                "udp_balancer_packets_received_total"@,
                kind,
                h,
                rx as int,
            )
            &&& rx_bytes != 0 ==> tells(
                families,
                "udp_balancer_bytes_received_total"@,
                kind,
                h,
                rx_bytes as int,
            )
            &&& tx != 0 ==> tells(
                families,
                "udp_balancer_packets_sent_total"@,
                kind,
                h,
                tx as int,
            )
            &&& tx_bytes != 0 ==> tells(
                families,
                "udp_balancer_bytes_sent_total"@,
                kind,
                h,
                tx_bytes as int,
            )
        }),
{
}

/// What it means that families tell a number: one of them has the name and the
/// kind, and a sample with the number under the hash of the labels, as far as
/// numbers are gathered as they are.
pub proof fn law_what_is_told(
    families: Seq<MetricFamily>,
    name: Seq<char>,
    kind: FamilyKind,
    h: u64,
    n: int,
)
    requires
        tells(families, name, kind, h, n),
    ensures
        exists|i: int|
            0 <= i < families.len() && family_name(#[trigger] families[i]) == name && family_kind(
                families[i],
            ) == kind && (-0x20_0000_0000_0000 <= n <= 0x20_0000_0000_0000 ==> samples(
                families[i],
            ).contains((h, n))),
{
    let i = choose|i: int|
        0 <= i < families.len() && entry(#[trigger] families[i]) == (name, kind) && (is_exact(n)
            ==> samples(families[i]).contains((h, n)));
    assert(family_name(families[i]) == name);
}

/// What it means that a text holds a part: the part stands in it somewhere,
/// character by character.
pub proof fn law_what_a_text_holds(text: Seq<char>, part: Seq<char>)
    requires
        holds_text(text, part),
    ensures
        exists|i: int|
            0 <= i && i + part.len() <= text.len() && #[trigger] text.subrange(
                i,
                i + part.len(),
            ) == part,
{
}

/// A family of counters that are told is told in full: every counter that does
/// not stand at zero, and no number but where its counter stands.
pub proof fn law_counted_families_are_told(
    families: Seq<MetricFamily>,
    v: CounterVec,
    h: u64,
    i: int,
    n: int,
)
    requires
        lists_counted(families, v),
    ensures
        counts(v)[h] != 0 ==> tells(
            families,
            counter_desc(v).0,
            FamilyKind::Counter,
            h,
            counts(v)[h] as int,
        ),
        0 <= i < families.len() && family_name(families[i]) == counter_desc(v).0 && family_kind(
            families[i],
        ) == FamilyKind::Counter && samples(families[i]).contains((h, n)) && counts(v)[h]
            <= 0x20_0000_0000_0000 ==> n == counts(v)[h],
{
}

/// A text that shows what is counted gives the type of each family of which
/// some counter does not stand at zero.
pub proof fn law_counted_families_are_shown(text: Seq<char>, v: CounterVec, h: u64)
    requires
        shows_counted(text, v),
        counts(v)[h] != 0,
    ensures
        holds_text(text, "# TYPE "@ + counter_desc(v).0 + " "@ + "counter"@ + "\n"@),
{
}

/// The gauges that show which backends are up are told as they stand, under
/// their name.
pub proof fn law_backends_up_are_told(
    m: Metrics,
    families: Seq<MetricFamily>,
    listener: Seq<char>,
    backend: Seq<char>,
)
    requires
        m.wf(),
        lists_all(m, families),
        levels(m.balancer_backend_alive)[label_hash(seq![listener, backend])] != 0,
    ensures
        tells(
            families,
            "udp_balancer_backend_alive"@,
            FamilyKind::Gauge,
            label_hash(seq![listener, backend]),
            levels(m.balancer_backend_alive)[label_hash(seq![listener, backend])] as int,
        ),
{
}

/// Every family that is listed has its type given in the text, as a line of
/// its own.
pub proof fn law_listed_types(text: Seq<char>, families: Seq<MetricFamily>, i: int)
    requires
        lists_types(text, families),
        0 <= i < families.len(),
    ensures
        holds_text(
            text,
            "# TYPE "@ + family_name(families[i]) + " "@ + family_kind(families[i]).text() + "\n"@,
        ),
{
}

} // verus!
