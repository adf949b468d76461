//! The status report: what each server does and what it has counted.
use crate::balancer::backend::UdpBackend;
use crate::balancer::dispatch::Balancer;
use crate::balancer::mirror::Mirror;
use crate::config::{copy_hash_key, Algorithm, HashKeyField};
use crate::metrics;
use crate::metrics::{get_backend_stats, get_listener_stats, get_mirror_stats, Metrics};
use crate::net::SocketAddr;
use crate::number::Number;
use vstd::prelude::*;

verus! {

/// What a server is made of.
pub struct ServerInfo {
    pub balancer: Option<Balancer>,
    pub mirror: Option<Mirror>,
}

/// All servers.
pub struct AppState {
    pub servers: Vec<ServerInfo>,
}

impl AppState {
    /// Every balancer is sound.
    pub open spec fn wf(self) -> bool {
        forall|j: int|
            0 <= j < self.servers@.len() ==> ((#[trigger] self.servers@[j]).balancer matches Some(b)
                ==> b.wf())
    }
}

#[derive(Debug)]
pub struct PingResponse {
    pub status: String,
}

#[derive(Clone, Copy, PartialEq, Eq, Debug)]
pub struct ListenerStats {
    pub rx_packets: u64,
    pub rx_bytes: u64,
    pub tx_packets: u64,
    pub tx_bytes: u64,
}

#[derive(Clone, Copy, PartialEq, Eq, Debug)]
pub struct BackendStats {
    pub rx_packets: u64,
    pub rx_bytes: u64,
    pub tx_packets: u64,
    pub tx_bytes: u64,
    pub tx_failed: u64,
}

#[derive(Clone, Copy, PartialEq, Eq, Debug)]
pub struct MirrorStats {
    pub tx_packets: u64,
    pub tx_bytes: u64,
    pub tx_failed: u64,
}

#[derive(Debug)]
pub struct BackendStatus {
    pub address: String,
    pub alive: bool,
    pub weight: Number,
    pub stats: BackendStats,
}

#[derive(Debug)]
pub struct MirrorStatus {
    pub address: String,
    pub probability: Number,
    pub stats: MirrorStats,
}

#[derive(Debug)]
pub struct ServerStatus {
    pub listener: String,
    pub algorithm: Option<Algorithm>,
    pub hash_key: Vec<HashKeyField>,
    pub stats: ListenerStats,
    pub backends: Vec<BackendStatus>,
    pub mirrors: Vec<MirrorStatus>,
}

#[derive(Debug)]
pub struct StatusResponse {
    pub version: String,
    pub servers: Vec<ServerStatus>,
}

/// Where the status is served, and of what.
pub struct StatusServer {
    pub address: SocketAddr,
    pub state: AppState,
}

impl StatusServer {
    pub fn new(address: SocketAddr, servers: Vec<ServerInfo>) -> (s: StatusServer)
        ensures
            s.address == address,
            s.state.servers@ == servers@,
    {
        StatusServer { address, state: AppState { servers } }
    }
}

/// The answer to a ping.
pub fn ping_handler() -> (r: PingResponse)
    ensures
        r.status@ == "ok"@,
{
    PingResponse { status: "ok".to_string() }
}

/// A server without a balancer and without mirrors is not reported.
pub open spec fn is_reported(s: ServerInfo) -> bool {
    s.balancer is Some || s.mirror is Some
}

/// The address that a server is reported and counted under: the balancer's,
/// or the mirrors' where there is no balancer.
pub open spec fn listener_of(s: ServerInfo) -> Seq<char> {
    match s.balancer {
        Some(b) => b.listener(),
        None => s.mirror->0.listener(),
    }
}

pub open spec fn listener_stats_of(m: Metrics, listener: Seq<char>) -> ListenerStats {
    let (rx_packets, rx_bytes, tx_packets, tx_bytes) = metrics::listener_counts(m, listener);
    ListenerStats { rx_packets, rx_bytes, tx_packets, tx_bytes }
}

pub open spec fn backend_stats_of(m: Metrics, listener: Seq<char>, backend: Seq<char>) -> BackendStats {
    let s = metrics::backend_counts(m, listener, backend);
    BackendStats {
        rx_packets: s.rx_packets,
        rx_bytes: s.rx_bytes,
        tx_packets: s.tx_packets,
        tx_bytes: s.tx_bytes,
        tx_failed: s.tx_failed,
    }
}

pub open spec fn mirror_stats_of(m: Metrics, listener: Seq<char>, mirror: Seq<char>) -> MirrorStats {
    let s = metrics::mirror_counts(m, listener, mirror);
    MirrorStats { tx_packets: s.tx_packets, tx_bytes: s.tx_bytes, tx_failed: s.tx_failed }
}

/// What is reported of a backend.
pub open spec fn reports_backend(
    status: BackendStatus,
    m: Metrics,
    listener: Seq<char>,
    b: UdpBackend,
) -> bool {
    &&& status.address@ == b.label@
    &&& status.alive == b.alive
    &&& status.weight == b.weight
    &&& status.stats == backend_stats_of(m, listener, b.label@)
}

/// What is reported of a mirror.
pub open spec fn reports_mirror(
    status: MirrorStatus,
    m: Metrics,
    listener: Seq<char>,
    b: UdpBackend,
) -> bool {
    &&& status.address@ == b.label@
    &&& status.probability == b.probability
    &&& status.stats == mirror_stats_of(m, listener, b.label@)
}

pub open spec fn reports_backends(
    list: Seq<BackendStatus>,
    m: Metrics,
    listener: Seq<char>,
    pool: Seq<UdpBackend>,
) -> bool {
    &&& list.len() == pool.len()
    &&& forall|i: int|
        0 <= i < pool.len() ==> reports_backend(#[trigger] list[i], m, listener, pool[i])
}

pub open spec fn reports_mirrors(
    list: Seq<MirrorStatus>,
    m: Metrics,
    listener: Seq<char>,
    pool: Seq<UdpBackend>,
) -> bool {
    &&& list.len() == pool.len()
    &&& forall|i: int|
        0 <= i < pool.len() ==> reports_mirror(#[trigger] list[i], m, listener, pool[i])
}

/// What is reported of a server. Round robin has no key to report.
pub open spec fn reports_server(status: ServerStatus, m: Metrics, s: ServerInfo) -> bool {
    let listener = listener_of(s);
    &&& status.listener@ == listener
    &&& status.stats == listener_stats_of(m, listener)
    &&& match s.balancer {
        Some(b) => {
            &&& status.algorithm == Some(b.kind())
            &&& status.hash_key@ == if b.kind() is Wrr {
                Seq::empty()
            } else {
                b.fields()
            }
            &&& reports_backends(status.backends@, m, listener, b.pool())
        },
        None => status.algorithm is None && status.hash_key@.len() == 0
            && status.backends@.len() == 0,
    }
    &&& match s.mirror {
        Some(mirror) => reports_mirrors(status.mirrors@, m, listener, mirror.pool()),
        None => status.mirrors@.len() == 0,
    }
}

/// The servers that are reported, in order.
pub open spec fn reported(servers: Seq<ServerInfo>) -> Seq<ServerInfo>
    decreases servers.len(),
{
    if servers.len() == 0 {
        Seq::empty()
    } else if is_reported(servers.last()) {
        reported(servers.drop_last()).push(servers.last())
    } else {
        reported(servers.drop_last())
    }
}

fn backend_list(metrics: &Metrics, listener: &str, pool: &[UdpBackend]) -> (list: Vec<BackendStatus>)
    ensures
        reports_backends(list@, *metrics, listener@, pool@),
{
    let mut list: Vec<BackendStatus> = Vec::new();
    let mut i: usize = 0;
    while i < pool.len()
        invariant
            i <= pool@.len(),
            list@.len() == i,
            forall|j: int|
                0 <= j < i ==> reports_backend(
                    #[trigger] list@[j],
                    *metrics,
                    listener@,
                    pool@[j],
                ),
        decreases pool@.len() - i,
    {
        let address = pool[i].label.clone();
        let stats = get_backend_stats(metrics, listener, address.as_str());
        list.push(
            BackendStatus {
                address,
                alive: pool[i].is_alive(),
                weight: pool[i].weight(),
                stats: BackendStats {
                    rx_packets: stats.rx_packets,
                    rx_bytes: stats.rx_bytes,
                    tx_packets: stats.tx_packets,
                    tx_bytes: stats.tx_bytes,
                    tx_failed: stats.tx_failed,
                },
            },
        );
        i = i + 1;
    }
    list
}

fn mirror_list(metrics: &Metrics, listener: &str, pool: &[UdpBackend]) -> (list: Vec<MirrorStatus>)
    ensures
        reports_mirrors(list@, *metrics, listener@, pool@),
{
    let mut list: Vec<MirrorStatus> = Vec::new();
    let mut i: usize = 0;
    while i < pool.len()
        invariant
            i <= pool@.len(),
            list@.len() == i,
            forall|j: int|
                0 <= j < i ==> reports_mirror(#[trigger] list@[j], *metrics, listener@, pool@[j]),
        decreases pool@.len() - i,
    {
        let address = pool[i].label.clone();
        let stats = get_mirror_stats(metrics, listener, address.as_str());
        list.push(
            MirrorStatus {
                address,
                probability: pool[i].probability(),
                stats: MirrorStats {
                    tx_packets: stats.tx_packets,
                    tx_bytes: stats.tx_bytes,
                    tx_failed: stats.tx_failed,
                },
            },
        );
        i = i + 1;
    }
    list
}

/// What is reported of one server, if it is.
pub fn server_status(metrics: &Metrics, server_info: &ServerInfo) -> (r: Option<ServerStatus>)
    ensures
        match r {
            Some(status) => is_reported(*server_info) && reports_server(
                status,
                *metrics,
                *server_info,
            ),
            None => !is_reported(*server_info),
        },
{
    let listener = match (&server_info.balancer, &server_info.mirror) {
        (Some(balancer), _) => balancer.listener_addr(),
        (None, Some(mirror)) => mirror.listener_addr(),
        (None, None) => {
            return None;
        },
    };
    let (rx_packets, rx_bytes, tx_packets, tx_bytes) = get_listener_stats(
        metrics,
        listener.as_str(),
    );
    let mut backends: Vec<BackendStatus> = Vec::new();
    let mut algorithm: Option<Algorithm> = None;
    let mut hash_key: Vec<HashKeyField> = Vec::new();
    if let Some(balancer) = &server_info.balancer {
        algorithm = Some(balancer.algorithm_type());
        if balancer.algorithm_type() != Algorithm::Wrr {
            hash_key = copy_hash_key(balancer.hash_key_fields());
        }
        backends = backend_list(metrics, listener.as_str(), balancer.backends());
    }
    let mut mirrors: Vec<MirrorStatus> = Vec::new();
    if let Some(mirror) = &server_info.mirror {
        mirrors = mirror_list(metrics, listener.as_str(), mirror.backends());
    }
    Some(
        ServerStatus {
            listener,
            algorithm,
            hash_key,
            stats: ListenerStats { rx_packets, rx_bytes, tx_packets, tx_bytes },
            backends,
            mirrors,
        },
    )
}

/// The status of everything, under a version.
pub fn api_status_handler(metrics: &Metrics, state: &AppState, version: String) -> (r: StatusResponse)
    ensures
        r.version@ == version@,
        r.servers@.len() == reported(state.servers@).len(),
        forall|i: int|
            0 <= i < r.servers@.len() ==> reports_server(
                #[trigger] r.servers@[i],
                *metrics,
                reported(state.servers@)[i],
            ),
{
    let mut servers: Vec<ServerStatus> = Vec::new();
    let mut i: usize = 0;
    while i < state.servers.len()
        invariant
            i <= state.servers@.len(),
            servers@.len() == reported(state.servers@.take(i as int)).len(),
            forall|j: int|
                0 <= j < servers@.len() ==> reports_server(
                    #[trigger] servers@[j],
                    *metrics,
                    reported(state.servers@.take(i as int))[j],
                ),
        decreases state.servers@.len() - i,
    {
        let ghost before = servers@;
        assert(state.servers@.take(i + 1).drop_last() =~= state.servers@.take(i as int));
        if let Some(status) = server_status(metrics, &state.servers[i]) {
            servers.push(status);
        }
        assert forall|j: int| 0 <= j < servers@.len() implies reports_server(
            #[trigger] servers@[j],
            *metrics,
            reported(state.servers@.take(i + 1))[j],
        ) by {
            if j < before.len() {
                assert(servers@[j] == before[j]);
            }
        }
        i = i + 1;
    }
    assert(state.servers@.take(i as int) =~= state.servers@);
    StatusResponse { version, servers }
}

/// Every server that has something to report is reported, and in order.
pub proof fn law_nothing_is_left_out(servers: Seq<ServerInfo>)
    requires
        forall|i: int| 0 <= i < servers.len() ==> is_reported(#[trigger] servers[i]),
    ensures
        reported(servers) == servers,
    decreases servers.len(),
{
    if servers.len() > 0 {
        let front = servers.drop_last();
        assert forall|i: int| 0 <= i < front.len() implies is_reported(#[trigger] front[i]) by {
            assert(front[i] == servers[i]);
        }
        law_nothing_is_left_out(front);
        assert(is_reported(servers[servers.len() - 1]));
        assert(front.push(servers.last()) =~= servers);
    } else {
        assert(reported(servers) =~= servers);
    }
}

/// The report of a list of servers is that of its front followed by that of its
/// back; a server is in it exactly when it has a balancer or mirrors.
pub proof fn law_reports_follow_each_other(
    front: Seq<ServerInfo>,
    back: Seq<ServerInfo>,
    s: ServerInfo,
)
    ensures
        reported(front + back) == reported(front) + reported(back),
        s.balancer is Some || s.mirror is Some ==> reported(seq![s]) == seq![s],
        s.balancer is None && s.mirror is None ==> reported(seq![s]) == Seq::<ServerInfo>::empty(),
        reported(Seq::empty()) == Seq::<ServerInfo>::empty(),
    decreases back.len(),
{
    reveal_with_fuel(reported, 2);
    assert(seq![s].drop_last() =~= Seq::<ServerInfo>::empty());
    assert(Seq::<ServerInfo>::empty().push(s) =~= seq![s]);
    if back.len() == 0 {
        assert(front + back =~= front);
        assert(reported(front) + Seq::<ServerInfo>::empty() =~= reported(front));
    } else {
        law_reports_follow_each_other(front, back.drop_last(), s);
        assert((front + back).drop_last() =~= front + back.drop_last());
        assert((front + back).last() == back.last());
        assert(reported(front + back) =~= reported(front) + reported(back));
    }
}

/// A server is reported under the address of its balancer, or of its mirrors
/// where there is no balancer, with what was counted under that address.
pub proof fn law_listener_is_reported(status: ServerStatus, m: Metrics, s: ServerInfo)
    requires
        is_reported(s),
        reports_server(status, m, s),
    ensures
        s.balancer matches Some(b) ==> status.listener@ == b.listener(),
        s.balancer is None ==> status.listener@ == s.mirror->0.listener(),
        (
            status.stats.rx_packets,
            status.stats.rx_bytes,
            status.stats.tx_packets,
            status.stats.tx_bytes,
        ) == metrics::listener_counts(m, status.listener@),
{
}

/// Every backend is reported in its place, with its address, its weight,
/// whether it is up and what was counted of it; and nothing else is reported
/// among the backends.
pub proof fn law_backends_are_reported(status: ServerStatus, m: Metrics, s: ServerInfo, i: int)
    requires
        reports_server(status, m, s),
    ensures
        s.balancer is None ==> status.backends@.len() == 0 && status.algorithm is None
            && status.hash_key@.len() == 0,
        s.balancer matches Some(b) ==> {
            &&& status.algorithm == Some(b.kind())
            &&& b.kind() is Wrr ==> status.hash_key@.len() == 0
            &&& !(b.kind() is Wrr) ==> status.hash_key@ == b.fields()
            &&& status.backends@.len() == b.pool().len()
            &&& 0 <= i < b.pool().len() ==> {
                let r = status.backends@[i];
                let counted = metrics::backend_counts(m, status.listener@, b.pool()[i].label@);
                &&& r.address@ == b.pool()[i].label@
                &&& r.alive == b.pool()[i].alive
                &&& r.weight == b.pool()[i].weight
                &&& r.stats.rx_packets == counted.rx_packets
                &&& r.stats.rx_bytes == counted.rx_bytes
                &&& r.stats.tx_packets == counted.tx_packets
                &&& r.stats.tx_bytes == counted.tx_bytes
                &&& r.stats.tx_failed == counted.tx_failed
            }
        },
{
    if s.balancer is Some && 0 <= i < s.balancer->0.pool().len() {
        assert(reports_backend(
            status.backends@[i],
            m,
            listener_of(s),
            s.balancer->0.pool()[i],
        ));
    }
}

/// Every mirror is reported in its place, with its address, its probability and
/// what was counted of it; and nothing else is reported among the mirrors.
pub proof fn law_mirrors_are_reported(status: ServerStatus, m: Metrics, s: ServerInfo, i: int)
    requires
        reports_server(status, m, s),
    ensures
        s.mirror is None ==> status.mirrors@.len() == 0,
        s.mirror matches Some(mirror) ==> {
            &&& status.mirrors@.len() == mirror.pool().len()
            &&& 0 <= i < mirror.pool().len() ==> {
                let r = status.mirrors@[i];
                let counted = metrics::mirror_counts(m, status.listener@, mirror.pool()[i].label@);
                &&& r.address@ == mirror.pool()[i].label@
                &&& r.probability == mirror.pool()[i].probability
                &&& r.stats.tx_packets == counted.tx_packets
                &&& r.stats.tx_bytes == counted.tx_bytes
                &&& r.stats.tx_failed == counted.tx_failed
            }
        },
{
    if s.mirror is Some && 0 <= i < s.mirror->0.pool().len() {
        assert(reports_mirror(status.mirrors@[i], m, listener_of(s), s.mirror->0.pool()[i]));
    }
}

} // verus!
