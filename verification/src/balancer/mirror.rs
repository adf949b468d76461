//! Copies of packets, sent to every mirror of a listener.
use crate::balancer::backend;
use crate::balancer::backend::{BackendError, Outgoing, SendMode, UdpBackend};
use crate::metrics;
use crate::metrics::Metrics;
use crate::net::{IpAddr, SocketAddr};
use crate::number::Number;
use vstd::prelude::*;

verus! {

/// The mirrors of a listener.
pub struct Mirror {
    backends: Vec<UdpBackend>,
    listener_addr: String,
}

/// How a copy of a packet of the client at `src` goes out to a mirror;
/// `None` where its source cannot be kept.
pub open spec fn copy_of(b: UdpBackend, src: SocketAddr, draw: Number) -> Option<Outgoing> {
    if !backend::sends(b.probability, draw) {
        Some(Outgoing::Nothing)
    } else {
        match backend::source_towards(b.mode, b.address, src) {
            Ok(None) => Some(Outgoing::Socket),
            Ok(Some(source)) => Some(Outgoing::Raw(source)),
            Err(()) => None,
        }
    }
}

/// What is planned for a copy: how it goes out, or why it does not.
pub open spec fn planned_copy(
    b: UdpBackend,
    src: SocketAddr,
    draw: Number,
    r: Result<Outgoing, BackendError>,
) -> bool {
    match copy_of(b, src, draw) {
        Some(outgoing) => r == Ok::<Outgoing, BackendError>(outgoing),
        None => r matches Err(BackendError::SendFailed(m)) && m@
            == "IPv6 client to IPv4 backend requires fallback_source_address"@,
    }
}

/// The counters once a copy has been planned: one that cannot be sent has
/// failed.
pub open spec fn planned_copy_counts(
    before: Metrics,
    after: Metrics,
    listener: Seq<char>,
    b: UdpBackend,
    src: SocketAddr,
    draw: Number,
) -> bool {
    if copy_of(b, src, draw) is Some {
        after == before
    } else {
        metrics::counted_mirror_failed(before, after, listener, b.label@)
    }
}

/// The counters before the first copy is planned and after each: those of all
/// copies are counted one after the other.
pub open spec fn counted_in_turn(
    stages: Seq<Metrics>,
    listener: Seq<char>,
    pool: Seq<UdpBackend>,
    src: SocketAddr,
    draws: Seq<Number>,
) -> bool {
    &&& stages.len() == pool.len() + 1
    &&& forall|k: int|
        0 <= k < pool.len() ==> planned_copy_counts(
            #[trigger] stages[k],
            stages[k + 1],
            listener,
            pool[k],
            src,
            draws[k],
        )
}

impl Mirror {
    pub closed spec fn pool(&self) -> Seq<UdpBackend> {
        self.backends@
    }

    pub closed spec fn listener(&self) -> Seq<char> {
        self.listener_addr@
    }

    pub fn new(backends: Vec<UdpBackend>, listener_addr: String) -> (m: Mirror)
        ensures
            m.pool() == backends@,
            m.listener() == listener_addr@,
    {
        Mirror { backends, listener_addr }
    }

    /// The address by which the listener is counted from now on.
    pub fn set_listener_addr(&mut self, addr: String)
        ensures
            final(self).listener() == addr@,
            final(self).pool() == old(self).pool(),
    {
        self.listener_addr = addr;
    }

    pub fn backends(&self) -> (b: &[UdpBackend])
        ensures
            b@ == self.pool(),
    {
        self.backends.as_slice()
    }

    pub fn listener_addr(&self) -> (a: String)
        ensures
            a@ == self.listener(),
    {
        self.listener_addr.clone()
    }

    /// Plans how a copy of a packet goes out to the mirror at an index. One
    /// whose source cannot be kept has failed.
    pub fn mirror(&self, metrics: &mut Metrics, index: usize, src_addr: SocketAddr, draw: Number) -> (r:
        Result<Outgoing, BackendError>)
        requires
            old(metrics).wf(),
            index < self.pool().len(),
        ensures
            final(metrics).wf(),
            planned_copy(self.pool()[index as int], src_addr, draw, r),
            planned_copy_counts(
                *old(metrics),
                *final(metrics),
                self.listener(),
                self.pool()[index as int],
                src_addr,
                draw,
            ),
    {
        let r = self.backends[index].send(src_addr, draw);
        if r.is_err() {
            metrics.mirror_failed(
                self.listener_addr.as_str(),
                self.backends[index].label.as_str(),
            );
        }
        r
    }

    /// Plans how a copy of a packet goes out to every mirror, each on its own
    /// draw. Those whose source cannot be kept have failed.
    pub fn mirror_all(&self, metrics: &mut Metrics, src_addr: SocketAddr, draws: &Vec<Number>) -> (r:
        Vec<Result<Outgoing, BackendError>>)
        requires
            old(metrics).wf(),
            draws@.len() == self.pool().len(),
        ensures
            final(metrics).wf(),
            r@.len() == self.pool().len(),
            forall|k: int|
                0 <= k < self.pool().len() ==> planned_copy(
                    self.pool()[k],
                    src_addr,
                    draws@[k],
                    #[trigger] r@[k],
                ),
            exists|stages: Seq<Metrics>| #[trigger]
                counted_in_turn(stages, self.listener(), self.pool(), src_addr, draws@)
                    && stages.first() == *old(metrics) && stages.last() == *final(metrics),
    {
        let mut plans: Vec<Result<Outgoing, BackendError>> = Vec::new();
        let ghost mut stages: Seq<Metrics> = seq![*metrics];
        let mut i: usize = 0;
        while i < self.backends.len()
            invariant
                i <= self.pool().len(),
                self.pool() == self.backends@,
                draws@.len() == self.pool().len(),
                metrics.wf(),
                plans@.len() == i,
                stages.len() == i + 1,
                stages.first() == *old(metrics),
                stages.last() == *metrics,
                forall|k: int|
                    0 <= k < i ==> planned_copy(
                        self.pool()[k],
                        src_addr,
                        draws@[k],
                        #[trigger] plans@[k],
                    ),
                forall|k: int|
                    0 <= k < i ==> planned_copy_counts(
                        #[trigger] stages[k],
                        stages[k + 1],
                        self.listener(),
                        self.pool()[k],
                        src_addr,
                        draws@[k],
                    ),
            decreases self.pool().len() - i,
        {
            let plan = self.mirror(metrics, i, src_addr, draws[i]);
            plans.push(plan);
            proof {
                stages = stages.push(*metrics);
            }
            i = i + 1;
        }
        assert(counted_in_turn(stages, self.listener(), self.pool(), src_addr, draws@));
        plans
    }

    /// Counts what sending a copy came to.
    pub fn sent(&self, metrics: &mut Metrics, index: usize, outcome: Result<usize, BackendError>)
        requires
            old(metrics).wf(),
            index < self.pool().len(),
        ensures
            final(metrics).wf(),
            match outcome {
                Ok(n) => if n > 0 {
                    metrics::counted_mirrored(
                        *old(metrics),
                        *final(metrics),
                        self.listener(),
                        self.pool()[index as int].label@,
                        n as nat,
                    )
                } else {
                    *final(metrics) == *old(metrics)
                },
                Err(_) => metrics::counted_mirror_failed(
                    *old(metrics),
                    *final(metrics),
                    self.listener(),
                    self.pool()[index as int].label@,
                ),
            },
    {
        let mirror = self.backends[index].label.as_str();
        match outcome {
            Ok(sent) => {
                if sent > 0 {
                    metrics.mirrored(self.listener_addr.as_str(), mirror, sent);
                }
            },
            Err(_) => metrics.mirror_failed(self.listener_addr.as_str(), mirror),
        }
    }
}

/// A copy goes out on exactly the draws below the mirror's probability, and
/// always where that is one or more, never where it is nought or less.
pub proof fn law_copies_are_sampled(b: UdpBackend, src: SocketAddr, draw: Number)
    requires
        b.probability.is_number(),
    ensures
        copy_of(b, src, draw) == Some(Outgoing::Nothing) <==> !(Number::unit().at_most(
            b.probability,
        ) || (Number::nought().below(b.probability) && draw.below(b.probability))),
{
}

/// How a copy that goes out is sent: through the connected socket towards an
/// ordinary mirror; else with the fixed source, the client's own, or the
/// fallback for an IPv6 client towards IPv4, and always with the client's port.
/// It fails only for want of a fallback.
pub proof fn law_copies_carry_their_source(b: UdpBackend, src: SocketAddr, draw: Number)
    ensures
        copy_of(b, src, draw) == Some(Outgoing::Socket) ==> b.mode is Standard,
        copy_of(b, src, draw) matches Some(Outgoing::Raw(source)) ==> source.port == src.port
            && match b.mode {
            SendMode::Standard => false,
            SendMode::FakeSrcAddr(ip) => source.ip == ip,
            SendMode::PreserveSrcAddr { fallback_ipv4 } => if src.ip.unwrapped() is V6
                && b.address.ip is V4 {
                fallback_ipv4 matches Some(ip) && source.ip == IpAddr::V4(ip)
            } else {
                source.ip == src.ip.unwrapped()
            },
        },
        copy_of(b, src, draw) is None ==> b.mode == (SendMode::PreserveSrcAddr {
            fallback_ipv4: None,
        }) && src.ip.unwrapped() is V6 && b.address.ip is V4,
{
}

/// What is planned for a copy is what would be planned for it alone: it fails
/// in the same words for every client, and only where its source cannot be
/// kept.
pub proof fn law_planned_copies(
    b: UdpBackend,
    src: SocketAddr,
    draw: Number,
    r: Result<Outgoing, BackendError>,
)
    requires
        planned_copy(b, src, draw, r),
    ensures
        r matches Ok(outgoing) ==> copy_of(b, src, draw) == Some(outgoing),
        r is Err <==> copy_of(b, src, draw) is None,
        r matches Err(e) ==> (e matches BackendError::SendFailed(m) && m@
            == "IPv6 client to IPv4 backend requires fallback_source_address"@),
{
}

/// How many of the first `n` copies under some labels cannot be sent.
pub open spec fn failures(
    listener: Seq<char>,
    pool: Seq<UdpBackend>,
    src: SocketAddr,
    draws: Seq<Number>,
    labels: Seq<Seq<char>>,
    n: nat,
) -> nat
    decreases n,
{
    if n == 0 {
        0
    } else {
        failures(listener, pool, src, draws, labels, (n - 1) as nat) + if copy_of(
            pool[n - 1],
            src,
            draws[n - 1],
        ) is None && metrics::label_hash(seq![listener, pool[n - 1].label@])
            == metrics::label_hash(labels) {
            1nat
        } else {
            0nat
        }
    }
}

proof fn lemma_one_copy(
    before: Metrics,
    after: Metrics,
    listener: Seq<char>,
    b: UdpBackend,
    src: SocketAddr,
    draw: Number,
    mirror: Seq<char>,
)
    requires
        metrics::counter_desc(before.mirror_packets_failed).2.len() == 2,
        planned_copy_counts(before, after, listener, b, src, draw),
    ensures
        ({
            let s = metrics::mirror_counts(before, listener, mirror);
            let t = metrics::mirror_counts(after, listener, mirror);
            let failed: int = if copy_of(b, src, draw) is None && metrics::label_hash(
                seq![listener, b.label@],
            ) == metrics::label_hash(seq![listener, mirror]) {
                1
            } else {
                0
            };
            &&& t.tx_failed == (s.tx_failed + failed) % 0x1_0000_0000_0000_0000
            &&& t.tx_packets == s.tx_packets
            &&& t.tx_bytes == s.tx_bytes
        }),
        after == (Metrics { mirror_packets_failed: after.mirror_packets_failed, ..before }),
        metrics::counter_desc(after.mirror_packets_failed) == metrics::counter_desc(
            before.mirror_packets_failed,
        ),
{
}

/// The copy at `k` is counted.
spec fn counted_at(
    stages: Seq<Metrics>,
    listener: Seq<char>,
    pool: Seq<UdpBackend>,
    src: SocketAddr,
    draws: Seq<Number>,
    k: int,
) -> bool {
    planned_copy_counts(stages[k], stages[k + 1], listener, pool[k], src, draws[k])
}

proof fn lemma_failed_copies(
    stages: Seq<Metrics>,
    listener: Seq<char>,
    pool: Seq<UdpBackend>,
    src: SocketAddr,
    draws: Seq<Number>,
    mirror: Seq<char>,
    n: nat,
)
    requires
        n <= pool.len(),
        metrics::counter_desc(stages.first().mirror_packets_failed).2.len() == 2,
        forall|k: int|
            0 <= k < pool.len() ==> #[trigger] counted_at(stages, listener, pool, src, draws, k),
    ensures
        ({
            let s = metrics::mirror_counts(stages.first(), listener, mirror);
            let t = metrics::mirror_counts(stages[n as int], listener, mirror);
            &&& t.tx_failed == (s.tx_failed + failures(
                listener,
                pool,
                src,
                draws,
                seq![listener, mirror],
                n,
            )) % 0x1_0000_0000_0000_0000
            &&& t.tx_packets == s.tx_packets
            &&& t.tx_bytes == s.tx_bytes
        }),
        stages[n as int] == (Metrics {
            mirror_packets_failed: stages[n as int].mirror_packets_failed,
            ..stages.first()
        }),
        metrics::counter_desc(stages[n as int].mirror_packets_failed) == metrics::counter_desc(
            stages.first().mirror_packets_failed,
        ),
    decreases n,
{
    if n > 0 {
        lemma_failed_copies(stages, listener, pool, src, draws, mirror, (n - 1) as nat);
        assert(counted_at(stages, listener, pool, src, draws, n - 1));
        lemma_one_copy(
            stages[n - 1],
            stages[n as int],
            listener,
            pool[n - 1],
            src,
            draws[n - 1],
            mirror,
        );
    }
}

/// Planning the copies of a packet counts each that cannot be sent once, as a
/// failure of its mirror, and counts nothing else.
pub proof fn law_each_failed_copy_counts_once(
    stages: Seq<Metrics>,
    listener: Seq<char>,
    pool: Seq<UdpBackend>,
    src: SocketAddr,
    draws: Seq<Number>,
    mirror: Seq<char>,
    n: nat,
)
    requires
        n <= pool.len(),
        stages.first().wf(),
        counted_in_turn(stages, listener, pool, src, draws),
    ensures
        ({
            let s = metrics::mirror_counts(stages.first(), listener, mirror);
            let t = metrics::mirror_counts(stages[n as int], listener, mirror);
            &&& t.tx_failed == (s.tx_failed + failures(
                listener,
                pool,
                src,
                draws,
                seq![listener, mirror],
                n,
            )) % 0x1_0000_0000_0000_0000
            &&& t.tx_packets == s.tx_packets
            &&& t.tx_bytes == s.tx_bytes
        }),
        stages[n as int] == (Metrics {
            mirror_packets_failed: stages[n as int].mirror_packets_failed,
            ..stages.first()
        }),
        metrics::counter_desc(stages[n as int].mirror_packets_failed) == metrics::counter_desc(
            stages.first().mirror_packets_failed,
        ),
{
    assert forall|k: int| 0 <= k < pool.len() implies #[trigger] counted_at(
        stages,
        listener,
        pool,
        src,
        draws,
        k,
    ) by {}
    lemma_failed_copies(stages, listener, pool, src, draws, mirror, n);
}

} // verus!
