//! The balancer: which backend a packet goes to, and what becomes of it on
//! its way there and back.
use crate::balancer::algorithm;
use crate::balancer::algorithm::Algorithm;
use crate::balancer::backend;
use crate::balancer::backend::{Outgoing, SendMode, UdpBackend};
use crate::balancer::flow;
use crate::balancer::flow::{hash_key, Flow};
use crate::balancer::maglev;
use crate::balancer::maglev::Maglev;
use crate::balancer::rh;
use crate::balancer::rh::RendezvousHashing;
use crate::balancer::session;
use crate::balancer::session::{SessionKey, SessionManager};
use crate::balancer::wrr;
use crate::balancer::wrr::WeightedRoundRobin;
use crate::config::{Algorithm as ConfigAlgorithm, HashKeyField};
use crate::metrics;
use crate::metrics::Metrics;
use crate::net::{IpAddr, SocketAddr};
use crate::number::Number;
use crate::raw_socket::RawSocketError;
use crate::time::{Duration, Instant};
use vstd::prelude::*;

verus! {

/// The arithmetic on numbers that the ways of choosing need.
pub struct Arithmetic<R, L, M, S> {
    /// The rest of a division.
    pub rest: R,
    /// The first number less the second.
    pub lower: L,
    /// How often the second number goes into the first, rounded.
    pub repetitions: M,
    /// The score of a hash under a weight.
    pub score: S,
}

impl<
    R: Fn(Number, Number) -> Number,
    L: Fn(Number, Number) -> Number,
    M: Fn(Number, Number) -> usize,
    S: Fn(u64, Number) -> Number,
> Arithmetic<R, L, M, S> {
    /// It is defined on all numbers.
    pub open spec fn is_total(self) -> bool {
        &&& algorithm::is_total(self.rest)
        &&& algorithm::is_total(self.lower)
        &&& maglev::counts_all(self.repetitions)
        &&& rh::scores_all(self.score)
    }
}

/// A pool with the way in which its backends are chosen.
pub enum Chooser {
    Wrr(WeightedRoundRobin),
    Rh(RendezvousHashing),
    Maglev(Maglev),
}

impl Chooser {
    pub open spec fn pool(self) -> Seq<UdpBackend> {
        match self {
            Chooser::Wrr(w) => w.pool(),
            Chooser::Rh(r) => r.pool(),
            Chooser::Maglev(m) => m.pool(),
        }
    }

    pub open spec fn wf(self) -> bool {
        self matches Chooser::Maglev(m) ==> m.wf()
    }

    /// Where the walk stands and what the table holds is the same in `other`.
    pub open spec fn only_pool_differs(self, other: Chooser) -> bool {
        match (self, other) {
            (Chooser::Wrr(w), Chooser::Wrr(v)) => v.position() == w.position() && v.max() == w.max()
                && v.gcd() == w.gcd(),
            (Chooser::Rh(_), Chooser::Rh(_)) => true,
            (Chooser::Maglev(m), Chooser::Maglev(n)) => n.table() == m.table(),
            _ => false,
        }
    }

    /// `r` is the backend that is chosen for a key, and `after` is how the
    /// chooser stands then.
    pub open spec fn chooses<
        R: Fn(Number, Number) -> Number,
        L: Fn(Number, Number) -> Number,
        M: Fn(Number, Number) -> usize,
        S: Fn(u64, Number) -> Number,
    >(self, key: Seq<u8>, arithmetic: Arithmetic<R, L, M, S>, r: Option<usize>, after: Chooser) -> bool {
        match (self, after) {
            (Chooser::Wrr(w), Chooser::Wrr(v)) => {
                &&& v.max() == w.max()
                &&& v.gcd() == w.gcd()
                &&& forall|f: spec_fn(Number, Number) -> Number| #[trigger]
                    algorithm::computes(arithmetic.lower, f) ==> (r, v.position()) == wrr::choice(
                        w.pool(),
                        w.max(),
                        w.gcd(),
                        f,
                        w.position(),
                    )
            },
            (Chooser::Rh(h), Chooser::Rh(_)) => forall|g: spec_fn(u64, Number) -> Number| #[trigger]
                rh::scores(arithmetic.score, g) ==> r == rh::choice(h.pool(), key, g),
            (Chooser::Maglev(m), Chooser::Maglev(n)) => forall|
                g: spec_fn(Number, Number) -> usize,
            | #[trigger]
                maglev::counts(arithmetic.repetitions, g) ==> (r, n.table()) == maglev::choice(
                    m.pool(),
                    m.table(),
                    key,
                    g,
                ),
            _ => false,
        }
    }

    fn next<
        R: Fn(Number, Number) -> Number,
        L: Fn(Number, Number) -> Number,
        M: Fn(Number, Number) -> usize,
        S: Fn(u64, Number) -> Number,
    >(&mut self, key: &[u8], arithmetic: &Arithmetic<R, L, M, S>) -> (r: Option<usize>)
        requires
            old(self).wf(),
            arithmetic.is_total(),
        ensures
            final(self).wf(),
            final(self).pool() == old(self).pool(),
            old(self).chooses(key@, *arithmetic, r, *final(self)),
            r matches Some(i) ==> i < old(self).pool().len() && old(self).pool()[i as int].alive,
            algorithm::alive_indices(old(self).pool()).len() == 0 ==> r is None,
    {
        proof {
            if algorithm::alive_indices(self.pool()).len() == 0 {
                lemma_nobody(self.pool());
            }
        }
        match self {
            Chooser::Wrr(w) => w.next(&arithmetic.lower),
            Chooser::Rh(h) => h.next(key, &arithmetic.score),
            Chooser::Maglev(m) => m.next(key, &arithmetic.repetitions),
        }
    }

    fn backends(&self) -> (b: &[UdpBackend])
        ensures
            b@ == self.pool(),
    {
        match self {
            Chooser::Wrr(w) => w.backends(),
            Chooser::Rh(h) => h.backends(),
            Chooser::Maglev(m) => m.backends(),
        }
    }

    fn set_alive(&mut self, index: usize, alive: bool)
        requires
            old(self).wf(),
            index < old(self).pool().len(),
        ensures
            final(self).wf(),
            final(self).pool() == algorithm::with_alive(old(self).pool(), index as int, alive),
            old(self).only_pool_differs(*final(self)),
    {
        match self {
            Chooser::Wrr(w) => w.set_alive(index, alive),
            Chooser::Rh(h) => h.set_alive(index, alive),
            Chooser::Maglev(m) => m.set_alive(index, alive),
        }
    }
}

proof fn lemma_nobody(pool: Seq<UdpBackend>)
    requires
        algorithm::alive_indices(pool).len() == 0,
    ensures
        forall|i: int| 0 <= i < pool.len() ==> !(#[trigger] pool[i]).alive,
{
    lemma_nobody_below(pool, pool.len());
}

proof fn lemma_nobody_below(pool: Seq<UdpBackend>, n: nat)
    requires
        n <= pool.len(),
        algorithm::alive_below(pool, n).len() == 0,
    ensures
        forall|i: int| 0 <= i < n ==> !(#[trigger] pool[i]).alive,
    decreases n,
{
    if n > 0 {
        lemma_nobody_below(pool, (n - 1) as nat);
    }
}

/// A balancer: its pool, the sessions through it and the key by which it
/// tells flows apart.
pub struct Balancer {
    algorithm: Chooser,
    algorithm_type: ConfigAlgorithm,
    session_manager: SessionManager,
    hash_key_fields: Vec<HashKeyField>,
    listener_addr: String,
    proxy_timeout: Duration,
}

/// What is to be done with a packet next.
#[derive(Clone, Copy, PartialEq, Eq, Debug)]
pub enum Forward {
    /// Send it through the socket of its session.
    Send { backend: usize, socket: u64 },
    /// Open a socket towards the backend for a new session.
    Open { backend: usize },
    /// Send it through the backend's raw socket, with this source.
    Raw { backend: usize, source: SocketAddr },
    /// Wait for a response on the socket of its session.
    Await { backend: usize, socket: u64 },
    /// Nothing: it is not sent, and there is no response.
    Done,
}

/// What came of a step on the way of a packet.
#[derive(Debug)]
pub enum Event {
    /// A socket was opened and is kept under this number, or why not.
    Opened(Result<u64, String>),
    /// So many bytes went through the session's socket, or why not.
    Sent(Result<usize, String>),
    /// So many bytes went through the raw socket, or why not.
    SentRaw(Result<usize, RawSocketError>),
    /// So many bytes came into the buffer in time, if any.
    Received(Option<usize>, Vec<u8>),
}

/// Where that leaves the packet.
#[derive(Debug)]
pub enum Progress {
    Next(Forward),
    /// It is done with; the response goes back to the client.
    Over(Option<Vec<u8>>),
    /// It could not be forwarded, and why.
    Failed(String),
}

impl Forward {
    /// The backend that the step is about is one of the pool.
    pub open spec fn is_within(self, pool: Seq<UdpBackend>) -> bool {
        match self {
            Forward::Send { backend, .. } => backend < pool.len(),
            Forward::Open { backend } => backend < pool.len(),
            Forward::Raw { backend, .. } => backend < pool.len(),
            Forward::Await { backend, .. } => backend < pool.len(),
            Forward::Done => true,
        }
    }

    /// How many steps a packet still has before it, this one counted.
    pub open spec fn steps_left(self) -> nat {
        match self {
            Forward::Open { .. } => 3,
            Forward::Send { .. } => 2,
            Forward::Raw { .. } => 1,
            Forward::Await { .. } => 1,
            Forward::Done => 0,
        }
    }
}

/// The counters once bytes were to go out to a backend.
pub open spec fn sent_counts(
    before: Metrics,
    after: Metrics,
    listener: Seq<char>,
    b: UdpBackend,
    sent: Option<usize>,
) -> bool {
    match sent {
        Some(n) => if n > 0 {
            metrics::counted_forwarded(before, after, listener, b.label@, n as nat)
        } else {
            after == before
        },
        None => metrics::counted_forward_failed(before, after, listener, b.label@),
    }
}

/// The counters once a response was waited for.
pub open spec fn received_counts(
    before: Metrics,
    after: Metrics,
    listener: Seq<char>,
    b: UdpBackend,
    received: Option<usize>,
) -> bool {
    match received {
        Some(n) => if n > 0 {
            metrics::counted_answered(before, after, listener, b.label@, n as nat)
        } else {
            after == before
        },
        None => after == before,
    }
}

/// What is said when a source cannot be kept.
pub open spec fn no_fallback() -> Seq<char> {
    "failed to send packet: "@
        + "IPv6 client to IPv4 backend requires fallback_source_address"@
}

/// What is to be done with a packet of the client at `src` for the backend at
/// index `i`. Only raw sockets sample by the draw.
pub open spec fn plan(
    b: UdpBackend,
    i: usize,
    sessions: Map<session::Key, session::Session>,
    src: SocketAddr,
    draw: Number,
) -> Result<Forward, Seq<char>> {
    let key = (SessionKey { client_addr: src, backend_addr: b.address }).key();
    if b.mode is Standard {
        if sessions.dom().contains(key) {
            Ok(Forward::Send { backend: i, socket: sessions[key].socket })
        } else {
            Ok(Forward::Open { backend: i })
        }
    } else if !backend::sends(b.probability, draw) {
        Ok(Forward::Done)
    } else {
        match backend::source_towards(b.mode, b.address, src) {
            Ok(Some(source)) => Ok(Forward::Raw { backend: i, source }),
            Ok(None) => Ok(Forward::Done),
            Err(()) => Err(no_fallback()),
        }
    }
}

/// The sessions once a packet has been planned: the one that it goes through
/// is active again.
pub open spec fn sessions_after(
    b: UdpBackend,
    sessions: Map<session::Key, session::Session>,
    src: SocketAddr,
    now: Instant,
) -> Map<session::Key, session::Session> {
    let key = (SessionKey { client_addr: src, backend_addr: b.address }).key();
    if b.mode is Standard && sessions.dom().contains(key) {
        sessions.insert(key, sessions[key].touched(now))
    } else {
        sessions
    }
}

/// The counters once a packet has been planned: one that cannot be sent has
/// failed.
pub open spec fn planned_counts(
    before: Metrics,
    after: Metrics,
    listener: Seq<char>,
    b: UdpBackend,
    planned: Result<Forward, Seq<char>>,
) -> bool {
    match planned {
        Ok(_) => after == before,
        Err(_) => metrics::counted_forward_failed(before, after, listener, b.label@),
    }
}

/// The first `len` bytes, or all where there are not so many.
pub open spec fn cut(buf: Seq<u8>, len: int) -> Seq<u8> {
    if len < buf.len() {
        buf.take(len)
    } else {
        buf
    }
}

/// What goes back to the client: the bytes that came, nothing where none did.
pub open spec fn answers(response: Option<Vec<u8>>, received: Option<usize>, buf: Seq<u8>) -> bool {
    match received {
        Some(len) => if len > 0 {
            response matches Some(r) && r@ == cut(buf, len as int)
        } else {
            response is None
        },
        None => response is None,
    }
}

impl Balancer {
    pub closed spec fn chooser(&self) -> Chooser {
        self.algorithm
    }

    pub open spec fn pool(&self) -> Seq<UdpBackend> {
        self.chooser().pool()
    }

    pub closed spec fn kind(&self) -> ConfigAlgorithm {
        self.algorithm_type
    }

    pub closed spec fn manager(&self) -> SessionManager {
        self.session_manager
    }

    pub closed spec fn fields(&self) -> Seq<HashKeyField> {
        self.hash_key_fields@
    }

    pub closed spec fn listener(&self) -> Seq<char> {
        self.listener_addr@
    }

    pub closed spec fn response_limit(&self) -> Duration {
        self.proxy_timeout
    }

    /// The chooser is of the configured kind, and it and the sessions are
    /// sound.
    pub open spec fn wf(&self) -> bool {
        &&& self.chooser().wf()
        &&& self.manager().wf()
        &&& self.chooser() is Wrr <==> self.kind() is Wrr
        &&& self.chooser() is Rh <==> self.kind() is Rh
        &&& self.chooser() is Maglev <==> self.kind() is Maglev
    }

    /// Everything but the chooser and the sessions is as in `other`.
    pub open spec fn same_setup(&self, other: &Balancer) -> bool {
        &&& self.kind() == other.kind()
        &&& self.fields() == other.fields()
        &&& self.listener() == other.listener()
        &&& self.response_limit() == other.response_limit()
        &&& self.manager().idle_limit() == other.manager().idle_limit()
        &&& self.manager().listener() == other.manager().listener()
    }

    /// `after` is this balancer with a backend marked as up or down.
    pub open spec fn marked(&self, after: Balancer, index: int, alive: bool) -> bool {
        &&& after.same_setup(self)
        &&& after.manager() == self.manager()
        &&& after.pool() == algorithm::with_alive(self.pool(), index, alive)
        &&& self.chooser().only_pool_differs(after.chooser())
    }

    /// A balancer over a pool that has not been chosen from yet.
    pub fn new<
        R: Fn(Number, Number) -> Number,
        L: Fn(Number, Number) -> Number,
        M: Fn(Number, Number) -> usize,
        S: Fn(u64, Number) -> Number,
    >(
        algorithm_type: ConfigAlgorithm,
        backends: Vec<UdpBackend>,
        hash_key_fields: Vec<HashKeyField>,
        listener_addr: String,
        proxy_timeout: Duration,
        arithmetic: &Arithmetic<R, L, M, S>,
    ) -> (b: Balancer)
        requires
            arithmetic.is_total(),
        ensures
            b.wf(),
            b.pool() == backends@,
            b.kind() == algorithm_type,
            b.fields() == hash_key_fields@,
            b.listener() == listener_addr@,
            b.response_limit() == proxy_timeout,
            b.manager().sessions() == Map::<session::Key, session::Session>::empty(),
            b.manager().idle_limit() == proxy_timeout,
            b.manager().listener() == listener_addr@,
            match b.chooser() {
                Chooser::Wrr(w) => {
                    &&& w.position() == (wrr::Position { current: 0, threshold: Number::nought() })
                    &&& w.max() == wrr::largest_weight(backends@, backends@.len())
                    &&& forall|f: spec_fn(Number, Number) -> Number| #[trigger]
                        algorithm::computes(arithmetic.rest, f) ==> w.gcd() == wrr::ladder_step(
                            backends@,
                            f,
                        )
                },
                Chooser::Rh(_) => true,
                Chooser::Maglev(m) => {
                    &&& m.fresh()
                    &&& forall|g: spec_fn(Number, Number) -> usize| #[trigger]
                        maglev::counts(arithmetic.repetitions, g) ==> m.table()
                            == maglev::table_of(backends@, g)
                },
            },
    {
        let algorithm = match algorithm_type {
            ConfigAlgorithm::Wrr => Chooser::Wrr(
                WeightedRoundRobin::new(backends, &arithmetic.rest),
            ),
            ConfigAlgorithm::Rh => Chooser::Rh(RendezvousHashing::new(backends)),
            ConfigAlgorithm::Maglev => Chooser::Maglev(
                Maglev::new(backends, &arithmetic.repetitions),
            ),
        };
        let session_manager = SessionManager::new(listener_addr.clone(), proxy_timeout);
        Balancer {
            algorithm,
            algorithm_type,
            session_manager,
            hash_key_fields,
            listener_addr,
            proxy_timeout,
        }
    }

    pub fn algorithm_type(&self) -> (a: ConfigAlgorithm)
        ensures
            a == self.kind(),
    {
        self.algorithm_type
    }

    /// The address by which the listener is counted from now on.
    pub fn set_listener_addr(&mut self, addr: String)
        requires
            old(self).wf(),
        ensures
            final(self).wf(),
            final(self).listener() == addr@,
            final(self).chooser() == old(self).chooser(),
            final(self).kind() == old(self).kind(),
            final(self).manager() == old(self).manager(),
            final(self).fields() == old(self).fields(),
            final(self).response_limit() == old(self).response_limit(),
    {
        self.listener_addr = addr;
    }

    pub fn listener_addr(&self) -> (a: String)
        ensures
            a@ == self.listener(),
    {
        self.listener_addr.clone()
    }

    pub fn hash_key_fields(&self) -> (f: &[HashKeyField])
        ensures
            f@ == self.fields(),
    {
        self.hash_key_fields.as_slice()
    }

    pub fn backends(&self) -> (b: &[UdpBackend])
        ensures
            b@ == self.pool(),
    {
        self.algorithm.backends()
    }

    /// How long a response is waited for.
    pub fn proxy_timeout(&self) -> (d: Duration)
        ensures
            d == self.response_limit(),
    {
        self.proxy_timeout
    }

    /// The key of a flow, from the configured fields.
    pub fn build_hash_key(
        &self,
        src_ip: IpAddr,
        dst_ip: IpAddr,
        src_port: u16,
        dst_port: u16,
        payload: &[u8],
    ) -> (key: Vec<u8>)
        ensures
            key@ == flow::flow_key(
                self.fields(),
                (Flow { src_ip, dst_ip, src_port, dst_port, payload: payload@ }),
            ),
    {
        hash_key(self.hash_key_fields.as_slice(), src_ip, dst_ip, src_port, dst_port, payload)
    }

    /// Chooses a backend for a packet by the key of its flow.
    pub fn select<
        R: Fn(Number, Number) -> Number,
        L: Fn(Number, Number) -> Number,
        M: Fn(Number, Number) -> usize,
        S: Fn(u64, Number) -> Number,
    >(
        &mut self,
        src_addr: SocketAddr,
        dst_addr: SocketAddr,
        payload: &[u8],
        arithmetic: &Arithmetic<R, L, M, S>,
    ) -> (r: Option<usize>)
        requires
            old(self).wf(),
            arithmetic.is_total(),
        ensures
            final(self).wf(),
            final(self).same_setup(old(self)),
            final(self).manager() == old(self).manager(),
            final(self).pool() == old(self).pool(),
            old(self).chooser().chooses(
                flow::flow_key(
                    old(self).fields(),
                    (Flow {
                        src_ip: src_addr.ip,
                        dst_ip: dst_addr.ip,
                        src_port: src_addr.port,
                        dst_port: dst_addr.port,
                        payload: payload@,
                    }),
                ),
                *arithmetic,
                r,
                final(self).chooser(),
            ),
            r matches Some(i) ==> i < old(self).pool().len() && old(self).pool()[i as int].alive,
            algorithm::alive_indices(old(self).pool()).len() == 0 ==> r is None,
    {
        let key = self.build_hash_key(
            src_addr.ip(),
            dst_addr.ip(),
            src_addr.port(),
            dst_addr.port(),
            payload,
        );
        self.algorithm.next(key.as_slice(), arithmetic)
    }

    /// Plans how a packet of the client at `src_addr` goes to a backend that
    /// was chosen for it.
    pub fn dispatch(
        &mut self,
        metrics: &mut Metrics,
        index: usize,
        src_addr: SocketAddr,
        draw: Number,
        now: Instant,
    ) -> (r: Result<Forward, String>)
        requires
            old(self).wf(),
            old(metrics).wf(),
            index < old(self).pool().len(),
        ensures
            final(self).wf(),
            final(metrics).wf(),
            final(self).same_setup(old(self)),
            final(self).chooser() == old(self).chooser(),
            ({
                let b = old(self).pool()[index as int];
                let planned = plan(b, index, old(self).manager().sessions(), src_addr, draw);
                &&& match planned {
                    Ok(f) => r == Ok::<Forward, String>(f),
                    Err(e) => r matches Err(m) && m@ == e,
                }
                &&& final(self).manager().sessions() == sessions_after(
                    b,
                    old(self).manager().sessions(),
                    src_addr,
                    now,
                )
                &&& planned_counts(
                    *old(metrics),
                    *final(metrics),
                    old(self).listener(),
                    b,
                    planned,
                )
            }),
    {
        let address = self.backends()[index].address();
        match self.backends()[index].mode() {
            SendMode::Standard => {
                match self.session_manager.find_session(src_addr, address, now) {
                    Some(socket) => Ok(Forward::Send { backend: index, socket }),
                    None => Ok(Forward::Open { backend: index }),
                }
            },
            _ => match self.backends()[index].send(src_addr, draw) {
                Ok(Outgoing::Raw(source)) => Ok(Forward::Raw { backend: index, source }),
                Ok(_) => Ok(Forward::Done),
                Err(e) => {
                    metrics.forward_failed(
                        self.listener_addr.as_str(),
                        self.backends()[index].label.as_str(),
                    );
                    Err(e.message())
                },
            },
        }
    }

    /// Chooses a backend for a packet and plans how it goes there.
    pub fn forward<
        R: Fn(Number, Number) -> Number,
        L: Fn(Number, Number) -> Number,
        M: Fn(Number, Number) -> usize,
        S: Fn(u64, Number) -> Number,
    >(
        &mut self,
        metrics: &mut Metrics,
        src_addr: SocketAddr,
        dst_addr: SocketAddr,
        payload: &[u8],
        draw: Number,
        now: Instant,
        arithmetic: &Arithmetic<R, L, M, S>,
    ) -> (r: Result<Forward, String>)
        requires
            old(self).wf(),
            old(metrics).wf(),
            arithmetic.is_total(),
        ensures
            final(self).wf(),
            final(metrics).wf(),
            final(self).same_setup(old(self)),
            final(self).pool() == old(self).pool(),
            exists|chosen: Option<usize>|
                {
                    &&& #[trigger] old(self).chooser().chooses(
                        flow::flow_key(
                            old(self).fields(),
                            (Flow {
                                src_ip: src_addr.ip,
                                dst_ip: dst_addr.ip,
                                src_port: src_addr.port,
                                dst_port: dst_addr.port,
                                payload: payload@,
                            }),
                        ),
                        *arithmetic,
                        chosen,
                        final(self).chooser(),
                    )
                    &&& match chosen {
                        None => {
                            &&& r matches Err(m) && m@ == "no available backends"@
                            &&& final(self).manager() == old(self).manager()
                            &&& *final(metrics) == *old(metrics)
                        },
                        Some(i) => {
                            let b = old(self).pool()[i as int];
                            let planned = plan(
                                b,
                                i,
                                old(self).manager().sessions(),
                                src_addr,
                                draw,
                            );
                            &&& i < old(self).pool().len()
                            &&& b.alive
                            &&& match planned {
                                Ok(f) => r == Ok::<Forward, String>(f),
                                Err(e) => r matches Err(m) && m@ == e,
                            }
                            &&& final(self).manager().sessions() == sessions_after(
                                b,
                                old(self).manager().sessions(),
                                src_addr,
                                now,
                            )
                            &&& planned_counts(
                                *old(metrics),
                                *final(metrics),
                                old(self).listener(),
                                b,
                                planned,
                            )
                        },
                    }
                },
    {
        match self.select(src_addr, dst_addr, payload, arithmetic) {
            Some(index) => self.dispatch(metrics, index, src_addr, draw, now),
            None => Err("no available backends".to_string()),
        }
    }

    /// Goes on once a socket for a new session was opened or could not be, in
    /// which case the packet has failed.
    pub fn session_opened(
        &mut self,
        metrics: &mut Metrics,
        index: usize,
        src_addr: SocketAddr,
        opened: Result<u64, String>,
        now: Instant,
    ) -> (r: Result<u64, String>)
        requires
            old(self).wf(),
            old(metrics).wf(),
            index < old(self).pool().len(),
        ensures
            final(self).wf(),
            final(metrics).wf(),
            final(self).same_setup(old(self)),
            final(self).chooser() == old(self).chooser(),
            ({
                let flow = SessionKey {
                    client_addr: src_addr,
                    backend_addr: old(self).pool()[index as int].address,
                };
                let before = old(self).manager().sessions();
                match opened {
                    Ok(socket) => {
                        &&& r == Ok::<u64, String>(session::socket_for(before, flow, socket))
                        &&& final(self).manager().sessions() == session::claimed(
                            before,
                            flow,
                            socket,
                            now,
                        )
                        &&& *final(metrics) == *old(metrics)
                    },
                    Err(e) => {
                        &&& r matches Err(m) && m@ == "failed to create session: "@ + e@
                        &&& final(self).manager().sessions() == before
                        &&& metrics::counted_forward_failed(
                            *old(metrics),
                            *final(metrics),
                            old(self).listener(),
                            old(self).pool()[index as int].label@,
                        )
                    },
                }
            }),
    {
        let address = self.backends()[index].address();
        match self.session_manager.get_or_create_session(src_addr, address, opened, now) {
            Ok(socket) => Ok(socket),
            Err(e) => {
                metrics.forward_failed(
                    self.listener_addr.as_str(),
                    self.backends()[index].label.as_str(),
                );
                Err("failed to create session: ".to_string().concat(e.as_str()))
            },
        }
    }

    /// Counts what sending through a session's socket came to. Whether bytes
    /// went out, and so a response is to be waited for, comes back.
    pub fn sent(&self, metrics: &mut Metrics, index: usize, outcome: Result<usize, String>) -> (r:
        Result<bool, String>)
        requires
            old(metrics).wf(),
            index < self.pool().len(),
        ensures
            final(metrics).wf(),
            match outcome {
                Ok(n) => r == Ok::<bool, String>(n > 0),
                Err(e) => r == Err::<bool, String>(e),
            },
            sent_counts(
                *old(metrics),
                *final(metrics),
                self.listener(),
                self.pool()[index as int],
                match outcome {
                    Ok(n) => Some(n),
                    Err(_) => None,
                },
            ),
    {
        let backend = self.backends()[index].label.as_str();
        match outcome {
            Ok(sent) => {
                if sent > 0 {
                    metrics.forwarded(self.listener_addr.as_str(), backend, sent);
                    Ok(true)
                } else {
                    Ok(false)
                }
            },
            Err(e) => {
                metrics.forward_failed(self.listener_addr.as_str(), backend);
                Err(e)
            },
        }
    }

    /// Counts what sending through a backend's raw socket came to. No
    /// response is expected.
    pub fn sent_raw(
        &self,
        metrics: &mut Metrics,
        index: usize,
        outcome: Result<usize, RawSocketError>,
    ) -> (r: Result<(), String>)
        requires
            old(metrics).wf(),
            index < self.pool().len(),
        ensures
            final(metrics).wf(),
            match outcome {
                Ok(_) => r is Ok,
                Err(e) => r matches Err(m) && m@ == "failed to send packet: "@ + e.text(),
            },
            sent_counts(
                *old(metrics),
                *final(metrics),
                self.listener(),
                self.pool()[index as int],
                match outcome {
                    Ok(n) => Some(n),
                    Err(_) => None,
                },
            ),
    {
        let backend = self.backends()[index].label.as_str();
        match UdpBackend::sent_raw(outcome) {
            Ok(sent) => {
                if sent > 0 {
                    metrics.forwarded(self.listener_addr.as_str(), backend, sent);
                }
                Ok(())
            },
            Err(e) => {
                metrics.forward_failed(self.listener_addr.as_str(), backend);
                Err(e.message())
            },
        }
    }

    /// What goes back to the client once the wait for a response is over:
    /// the bytes that came, counted, or nothing where none came in time.
    pub fn responded(
        &self,
        metrics: &mut Metrics,
        index: usize,
        received: Option<usize>,
        buf: Vec<u8>,
    ) -> (r: Option<Vec<u8>>)
        requires
            old(metrics).wf(),
            index < self.pool().len(),
        ensures
            final(metrics).wf(),
            answers(r, received, buf@),
            received_counts(
                *old(metrics),
                *final(metrics),
                self.listener(),
                self.pool()[index as int],
                received,
            ),
    {
        match received {
            Some(len) => {
                if len == 0 {
                    return None;
                }
                let backend = self.backends()[index].label.as_str();
                metrics.answered(self.listener_addr.as_str(), backend, len);
                let mut response = buf;
                response.truncate(len);
                assert(response@ =~= cut(buf@, len as int));
                Some(response)
            },
            None => None,
        }
    }

    /// Goes on with a packet once a step has been taken: a socket that was
    /// opened is sent through, a response is waited for once bytes have gone
    /// through a session's socket, and what comes is the answer. A packet for
    /// which no socket could be opened has failed, as one has that could not
    /// be sent. An event
    /// that does not belong to the step leaves everything as it is.
    pub fn advance(
        &mut self,
        metrics: &mut Metrics,
        src_addr: SocketAddr,
        step: Forward,
        event: Event,
        now: Instant,
    ) -> (r: Progress)
        requires
            old(self).wf(),
            old(metrics).wf(),
            step.is_within(old(self).pool()),
        ensures
            final(self).wf(),
            final(metrics).wf(),
            final(self).same_setup(old(self)),
            final(self).chooser() == old(self).chooser(),
            r matches Progress::Next(next) ==> next.is_within(old(self).pool()) && (next == step
                || next.steps_left() < step.steps_left()),
            ({
                let pool = old(self).pool();
                let before = old(self).manager().sessions();
                let after = final(self).manager().sessions();
                match (step, event) {
                    (Forward::Open { backend }, Event::Opened(opened)) => {
                        let flow = SessionKey {
                            client_addr: src_addr,
                            backend_addr: pool[backend as int].address,
                        };
                        match opened {
                            Ok(id) => {
                                let socket = session::socket_for(before, flow, id);
                                &&& *final(metrics) == *old(metrics)
                                &&& r == Progress::Next(Forward::Send { backend, socket })
                                &&& after == session::claimed(before, flow, id, now)
                            },
                            Err(e) => {
                                &&& r matches Progress::Failed(m) && m@
                                    == "failed to create session: "@ + e@
                                &&& after == before
                                &&& metrics::counted_forward_failed(
                                    *old(metrics),
                                    *final(metrics),
                                    old(self).listener(),
                                    pool[backend as int].label@,
                                )
                            },
                        }
                    },
                    (Forward::Send { backend, socket }, Event::Sent(outcome)) => {
                        &&& after == before
                        &&& match outcome {
                            Ok(n) => if n > 0 {
                                r == Progress::Next(Forward::Await { backend, socket })
                            } else {
                                r == Progress::Over(None)
                            },
                            Err(e) => r == Progress::Failed(e),
                        }
                        &&& sent_counts(
                            *old(metrics),
                            *final(metrics),
                            old(self).listener(),
                            pool[backend as int],
                            match outcome {
                                Ok(n) => Some(n),
                                Err(_) => None,
                            },
                        )
                    },
                    (Forward::Raw { backend, .. }, Event::SentRaw(outcome)) => {
                        &&& after == before
                        &&& match outcome {
                            Ok(_) => r == Progress::Over(None),
                            Err(e) => r matches Progress::Failed(m) && m@
                                == "failed to send packet: "@ + e.text(),
                        }
                        &&& sent_counts(
                            *old(metrics),
                            *final(metrics),
                            old(self).listener(),
                            pool[backend as int],
                            match outcome {
                                Ok(n) => Some(n),
                                Err(_) => None,
                            },
                        )
                    },
                    (Forward::Await { backend, .. }, Event::Received(received, buf)) => {
                        &&& after == before
                        &&& r matches Progress::Over(response) && answers(
                            response,
                            received,
                            buf@,
                        )
                        &&& received_counts(
                            *old(metrics),
                            *final(metrics),
                            old(self).listener(),
                            pool[backend as int],
                            received,
                        )
                    },
                    (Forward::Done, _) => {
                        &&& after == before
                        &&& *final(metrics) == *old(metrics)
                        &&& r == Progress::Over(None)
                    },
                    _ => {
                        &&& after == before
                        &&& *final(metrics) == *old(metrics)
                        &&& r == Progress::Next(step)
                    },
                }
            }),
    {
        match (step, event) {
            (Forward::Open { backend }, Event::Opened(opened)) => {
                match self.session_opened(metrics, backend, src_addr, opened, now) {
                    Ok(socket) => Progress::Next(Forward::Send { backend, socket }),
                    Err(e) => Progress::Failed(e),
                }
            },
            (Forward::Send { backend, socket }, Event::Sent(outcome)) => {
                match self.sent(metrics, backend, outcome) {
                    Ok(true) => Progress::Next(Forward::Await { backend, socket }),
                    Ok(false) => Progress::Over(None),
                    Err(e) => Progress::Failed(e),
                }
            },
            (Forward::Raw { backend, .. }, Event::SentRaw(outcome)) => {
                match self.sent_raw(metrics, backend, outcome) {
                    Ok(()) => Progress::Over(None),
                    Err(e) => Progress::Failed(e),
                }
            },
            (Forward::Await { backend, .. }, Event::Received(received, buf)) => {
                Progress::Over(self.responded(metrics, backend, received, buf))
            },
            (Forward::Done, _) => Progress::Over(None),
            _ => Progress::Next(step),
        }
    }

    /// Marks a backend as up or down.
    pub fn set_alive(&mut self, index: usize, alive: bool)
        requires
            old(self).wf(),
            index < old(self).pool().len(),
        ensures
            final(self).wf(),
            old(self).marked(*final(self), index as int, alive),
    {
        self.algorithm.set_alive(index, alive);
    }

    /// Drops the sessions that have expired and tells how many.
    pub fn cleanup_expired(&mut self, now: Instant) -> (removed: usize)
        requires
            old(self).wf(),
        ensures
            final(self).wf(),
            final(self).same_setup(old(self)),
            final(self).chooser() == old(self).chooser(),
            final(self).manager().sessions() == session::live(
                old(self).manager().sessions(),
                now,
                old(self).manager().idle_limit(),
            ),
            removed == session::expired_keys(
                old(self).manager().sessions(),
                now,
                old(self).manager().idle_limit(),
            ).len(),
    {
        self.session_manager.cleanup_expired(now)
    }

    /// How long to wait between two cleanups.
    pub fn cleanup_interval(&self) -> (d: Duration)
        ensures
            d.nanos == self.manager().idle_limit().nanos / 2,
    {
        self.session_manager.cleanup_interval()
    }

    /// The sessions, to look at.
    pub fn session_manager(&self) -> (m: &SessionManager)
        ensures
            *m == self.manager(),
    {
        &self.session_manager
    }
}

/// Flow affinity: packets that agree in every listed field go to the same
/// backend, by score and by table alike, while the pool stays as it is.
pub proof fn law_same_flow_same_backend(
    fields: Seq<HashKeyField>,
    a: Flow,
    b: Flow,
    pool: Seq<UdpBackend>,
    table: Seq<usize>,
    score: spec_fn(u64, Number) -> Number,
    repetitions: spec_fn(Number, Number) -> usize,
)
    requires
        forall|i: int|
            0 <= i < fields.len() ==> flow::field_octets(#[trigger] fields[i], a)
                == flow::field_octets(fields[i], b),
    ensures
        rh::choice(pool, flow::flow_key(fields, a), score) == rh::choice(
            pool,
            flow::flow_key(fields, b),
            score,
        ),
        maglev::choice(pool, table, flow::flow_key(fields, a), repetitions) == maglev::choice(
            pool,
            table,
            flow::flow_key(fields, b),
            repetitions,
        ),
{
    flow::law_listed_fields_decide(fields, a, b);
}

/// Once its session is there, every further packet of a flow to the same
/// backend goes through the same socket.
pub proof fn law_flow_keeps_its_socket(
    b: UdpBackend,
    i: usize,
    sessions: Map<session::Key, session::Session>,
    src: SocketAddr,
    opened: u64,
    now: Instant,
    draw: Number,
)
    requires
        b.mode is Standard,
    ensures
        ({
            let flow = SessionKey { client_addr: src, backend_addr: b.address };
            plan(b, i, session::claimed(sessions, flow, opened, now), src, draw) == Ok::<
                Forward,
                Seq<char>,
            >(Forward::Send { backend: i, socket: session::socket_for(sessions, flow, opened) })
        }),
{
}

/// Towards an ordinary backend every packet is planned, whatever the draw: it
/// goes through the socket of its session, or a socket is opened for a new one.
pub proof fn law_ordinary_packets_go_through_sessions(
    b: UdpBackend,
    i: usize,
    sessions: Map<session::Key, session::Session>,
    src: SocketAddr,
    draw: Number,
)
    requires
        b.mode is Standard,
    ensures
        ({
            let key = (SessionKey { client_addr: src, backend_addr: b.address }).key();
            match plan(b, i, sessions, src, draw) {
                Ok(Forward::Send { backend, socket }) => backend == i && sessions.dom().contains(key)
                    && socket == sessions[key].socket,
                Ok(Forward::Open { backend }) => backend == i && !sessions.dom().contains(key),
                _ => false,
            }
        }),
{
}

/// Towards a backend that carries a source, a packet with a probability
/// between nought and one goes out on exactly the draws below it, through the
/// raw socket; with one of nought or less it never does, with one or more it
/// always does.
pub proof fn law_raw_packets_are_sampled(
    b: UdpBackend,
    i: usize,
    sessions: Map<session::Key, session::Session>,
    src: SocketAddr,
    draw: Number,
)
    requires
        !(b.mode is Standard),
        b.probability.is_number(),
    ensures
        ({
            let planned = plan(b, i, sessions, src, draw);
            let goes = Number::unit().at_most(b.probability) || (Number::nought().below(
                b.probability,
            ) && draw.below(b.probability));
            &&& !goes <==> planned == Ok::<Forward, Seq<char>>(Forward::Done)
            &&& goes ==> match planned {
                Ok(Forward::Raw { backend, .. }) => backend == i,
                Err(_) => src.ip.unwrapped() is V6 && b.address.ip is V4
                    && b.mode == (SendMode::PreserveSrcAddr { fallback_ipv4: None }),
                _ => false,
            }
        }),
{
}

/// The source of a packet that goes through a raw socket: the fixed one, the
/// client's own, or the fallback for an IPv6 client towards IPv4, and in any
/// case with the client's port.
pub proof fn law_raw_packets_carry_their_source(
    b: UdpBackend,
    i: usize,
    sessions: Map<session::Key, session::Session>,
    src: SocketAddr,
    draw: Number,
)
    ensures
        plan(b, i, sessions, src, draw) matches Ok(Forward::Raw { backend, source }) ==> backend == i
            && source.port == src.port && match b.mode {
            SendMode::Standard => false,
            SendMode::FakeSrcAddr(ip) => source.ip == ip,
            SendMode::PreserveSrcAddr { fallback_ipv4 } => if src.ip.unwrapped() is V6
                && b.address.ip is V4 {
                fallback_ipv4 matches Some(ip) && source.ip == IpAddr::V4(ip)
            } else {
                source.ip == src.ip.unwrapped()
            },
        },
{
}

/// What cannot be sent for want of a fallback is told in the same words for
/// every client and backend.
pub proof fn law_missing_fallback_is_told(
    b: UdpBackend,
    i: usize,
    sessions: Map<session::Key, session::Session>,
    src: SocketAddr,
    draw: Number,
)
    ensures
        plan(b, i, sessions, src, draw) matches Err(words) ==> words == "failed to send packet: "@
            + "IPv6 client to IPv4 backend requires fallback_source_address"@,
{
}

/// Planning a packet touches the session of its own flow and no other: the
/// session's time of activity becomes that of the packet, its socket and its
/// ends stay, and no session comes or goes.
pub proof fn law_planning_touches_one_session(
    b: UdpBackend,
    sessions: Map<session::Key, session::Session>,
    src: SocketAddr,
    now: Instant,
    other: SessionKey,
)
    requires
        other != (SessionKey { client_addr: src, backend_addr: b.address }),
    ensures
        ({
            let flow = SessionKey { client_addr: src, backend_addr: b.address };
            let after = sessions_after(b, sessions, src, now);
            &&& after.dom() == sessions.dom()
            &&& after[other.key()] == sessions[other.key()]
            &&& b.mode is Standard && sessions.dom().contains(flow.key()) ==> {
                &&& after[flow.key()].last_activity == now
                &&& after[flow.key()].socket == sessions[flow.key()].socket
                &&& after[flow.key()].client_addr == sessions[flow.key()].client_addr
                &&& after[flow.key()].backend_addr == sessions[flow.key()].backend_addr
            }
            &&& !(b.mode is Standard) ==> after == sessions
        }),
{
    let flow = SessionKey { client_addr: src, backend_addr: b.address };
    session::law_flows_are_kept_apart(flow, other);
    assert(sessions_after(b, sessions, src, now).dom() =~= sessions.dom());
}

/// Bytes that went out to a backend are counted as one packet with so many
/// bytes; none as nothing; and a failure as one failure.
pub proof fn law_what_went_out_is_counted(
    before: Metrics,
    after: Metrics,
    listener: Seq<char>,
    b: UdpBackend,
    sent: Option<usize>,
)
    requires
        before.wf(),
        sent_counts(before, after, listener, b, sent),
    ensures
        ({
            let s = metrics::backend_counts(before, listener, b.label@);
            let t = metrics::backend_counts(after, listener, b.label@);
            &&& match sent {
                Some(n) => {
                    &&& n > 0 ==> t.tx_packets == (s.tx_packets + 1) % 0x1_0000_0000_0000_0000 && t.tx_bytes == (
                    s.tx_bytes + n) % 0x1_0000_0000_0000_0000 && t.tx_failed == s.tx_failed
                    &&& n == 0 ==> after == before
                },
                None => t.tx_failed == (s.tx_failed + 1) % 0x1_0000_0000_0000_0000 && t.tx_packets == s.tx_packets
                    && t.tx_bytes == s.tx_bytes,
            }
            &&& t.rx_packets == s.rx_packets
            &&& t.rx_bytes == s.rx_bytes
            &&& metrics::listener_counts(after, listener) == metrics::listener_counts(
                before,
                listener,
            )
        }),
{
}

/// A response of some bytes is counted as one with so many bytes; none, or an
/// empty one, is not counted.
pub proof fn law_what_came_back_is_counted(
    before: Metrics,
    after: Metrics,
    listener: Seq<char>,
    b: UdpBackend,
    received: Option<usize>,
)
    requires
        before.wf(),
        received_counts(before, after, listener, b, received),
    ensures
        ({
            let s = metrics::backend_counts(before, listener, b.label@);
            let t = metrics::backend_counts(after, listener, b.label@);
            match received {
                Some(n) => {
                    &&& n > 0 ==> t.rx_packets == (s.rx_packets + 1) % 0x1_0000_0000_0000_0000 && t.rx_bytes == (
                    s.rx_bytes + n) % 0x1_0000_0000_0000_0000
                    &&& n > 0 ==> t.tx_packets == s.tx_packets && t.tx_bytes == s.tx_bytes
                        && t.tx_failed == s.tx_failed
                    &&& n == 0 ==> after == before
                },
                None => after == before,
            }
        }),
{
}

/// A packet that can be planned is not counted; one that cannot is counted as
/// one failure of its backend.
pub proof fn law_unplanned_packets_are_counted(
    before: Metrics,
    after: Metrics,
    listener: Seq<char>,
    b: UdpBackend,
    planned: Result<Forward, Seq<char>>,
)
    requires
        before.wf(),
        planned_counts(before, after, listener, b, planned),
    ensures
        planned is Ok ==> after == before,
        planned is Err ==> metrics::backend_counts(after, listener, b.label@).tx_failed == (
        metrics::backend_counts(before, listener, b.label@).tx_failed + 1) % 0x1_0000_0000_0000_0000,
        planned is Err ==> metrics::backend_counts(after, listener, b.label@).tx_packets
            == metrics::backend_counts(before, listener, b.label@).tx_packets,
{
}

/// What goes back to the client is, byte for byte, what came into the buffer,
/// however long it is.
pub proof fn law_response_is_what_came(
    response: Option<Vec<u8>>,
    received: Option<usize>,
    buf: Seq<u8>,
)
    requires
        answers(response, received, buf),
    ensures
        response is Some <==> (received matches Some(len) && len > 0),
        (received matches Some(len) && 0 < len && len <= buf.len()) ==> response->0@.len()
            == received->0 && forall|i: int|
            0 <= i < received->0 ==> #[trigger] response->0@[i] == buf[i],
        (received matches Some(len) && len > buf.len()) ==> response->0@ == buf,
{
}

/// A balancer that chooses by score asks for the score of the whole key of the
/// flow and leaves nothing behind; one that chooses by table looks the whole
/// key up in the table; one that goes round does not look at the key.
pub proof fn law_choosers_go_by_the_key<
    R: Fn(Number, Number) -> Number,
    L: Fn(Number, Number) -> Number,
    M: Fn(Number, Number) -> usize,
    S: Fn(u64, Number) -> Number,
>(
    chooser: Chooser,
    after: Chooser,
    key: Seq<u8>,
    other: Seq<u8>,
    arithmetic: Arithmetic<R, L, M, S>,
    r: Option<usize>,
    lower: spec_fn(Number, Number) -> Number,
    repetitions: spec_fn(Number, Number) -> usize,
    score: spec_fn(u64, Number) -> Number,
)
    requires
        chooser.chooses(key, arithmetic, r, after),
        algorithm::computes(arithmetic.lower, lower),
        maglev::counts(arithmetic.repetitions, repetitions),
        rh::scores(arithmetic.score, score),
    ensures
        chooser is Wrr <==> after is Wrr,
        chooser is Rh <==> after is Rh,
        chooser is Maglev <==> after is Maglev,
        chooser matches Chooser::Rh(h) ==> r == rh::choice(h.pool(), key, score),
        chooser matches Chooser::Maglev(m) ==> r == maglev::choice(
            m.pool(),
            m.table(),
            key,
            repetitions,
        ).0 && after->Maglev_0.table() == maglev::choice(
            m.pool(),
            m.table(),
            key,
            repetitions,
        ).1,
        chooser is Wrr ==> chooser.chooses(other, arithmetic, r, after),
        chooser matches Chooser::Wrr(w) ==> r == wrr::choice(
            w.pool(),
            w.max(),
            w.gcd(),
            lower,
            w.position(),
        ).0 && after->Wrr_0.position() == wrr::choice(
            w.pool(),
            w.max(),
            w.gcd(),
            lower,
            w.position(),
        ).1,
{
}

/// Marking a backend leaves the walk, the table and the sessions as they are,
/// and of the pool changes only whether that backend is up.
pub proof fn law_marking_leaves_the_rest(before: Balancer, after: Balancer, index: int, alive: bool)
    requires
        before.marked(after, index, alive),
        0 <= index < before.pool().len(),
    ensures
        after.pool().len() == before.pool().len(),
        after.pool()[index].alive == alive,
        after.pool()[index].address == before.pool()[index].address,
        after.pool()[index].weight == before.pool()[index].weight,
        forall|j: int|
            0 <= j < before.pool().len() && j != index ==> after.pool()[j] == before.pool()[j],
        after.manager().sessions() == before.manager().sessions(),
        after.kind() == before.kind(),
        after.fields() == before.fields(),
        after.listener() == before.listener(),
        after.response_limit() == before.response_limit(),
        after.manager().idle_limit() == before.manager().idle_limit(),
        before.chooser() matches Chooser::Maglev(m) ==> after.chooser() is Maglev
            && after.chooser()->Maglev_0.table() == m.table(),
        before.chooser() matches Chooser::Wrr(w) ==> after.chooser() is Wrr
            && after.chooser()->Wrr_0.position() == w.position() && after.chooser()->Wrr_0.max()
            == w.max() && after.chooser()->Wrr_0.gcd() == w.gcd(),
        before.chooser() is Rh ==> after.chooser() is Rh,
{
}

/// The pool of a balancer is that of its way of choosing.
pub proof fn law_pool_of_a_chooser(w: WeightedRoundRobin, r: RendezvousHashing, m: Maglev)
    ensures
        Chooser::Wrr(w).pool() == w.pool(),
        Chooser::Rh(r).pool() == r.pool(),
        Chooser::Maglev(m).pool() == m.pool(),
{
}

/// What is set up once stays: two balancers of the same setup have the same
/// algorithm, key, listener and timeouts.
pub proof fn law_same_setup(a: Balancer, b: Balancer)
    requires
        a.same_setup(&b),
    ensures
        a.kind() == b.kind(),
        a.fields() == b.fields(),
        a.listener() == b.listener(),
        a.response_limit() == b.response_limit(),
        a.manager().idle_limit() == b.manager().idle_limit(),
        a.manager().listener() == b.manager().listener(),
{
}

/// A step is within a pool exactly when the backend that it is about is.
pub proof fn law_steps_within_a_pool(
    pool: Seq<UdpBackend>,
    backend: usize,
    socket: u64,
    source: SocketAddr,
)
    ensures
        (Forward::Send { backend, socket }).is_within(pool) <==> backend < pool.len(),
        (Forward::Open { backend }).is_within(pool) <==> backend < pool.len(),
        (Forward::Raw { backend, source }).is_within(pool) <==> backend < pool.len(),
        (Forward::Await { backend, socket }).is_within(pool) <==> backend < pool.len(),
        Forward::Done.is_within(pool),
{
}

} // verus!
