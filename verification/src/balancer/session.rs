//! Sessions: each client keeps its own socket towards each backend for as
//! long as it is active.
use crate::metrics;
use crate::metrics::Metrics;
use crate::net::{IpAddr, SocketAddr};
use crate::time::{Duration, Instant};
use dashmap::DashMap;
use std::collections::hash_map::RandomState;
use vstd::prelude::*;

verus! {

/// A concurrent map of the `dashmap` crate.
#[verifier::external_type_specification]
#[verifier::external_body]
#[verifier::reject_recursive_types(K)]
#[verifier::reject_recursive_types(V)]
#[verifier::reject_recursive_types(S)]
pub struct ExDashMap<K, V, S>(DashMap<K, V, S>);

/// An address in the form that sessions are found by: whether it is IPv6, its
/// octets with zeros behind them, its port, flow label and scope.
pub type End = (bool, [u8; 16], u16, u32, u32);

/// The client's end and the backend's.
pub type Key = (End, End);

/// A client's flow to a backend.
#[derive(Clone, Copy, Debug)]
pub struct Session {
    pub client_addr: SocketAddr,
    pub backend_addr: SocketAddr,
    /// The number under which the socket is kept.
    pub socket: u64,
    pub last_activity: Instant,
}

/// Who talks to whom.
#[derive(Clone, Copy, PartialEq, Eq, Debug)]
pub struct SessionKey {
    pub client_addr: SocketAddr,
    pub backend_addr: SocketAddr,
}

/// What a map of sessions holds.
pub uninterp spec fn contents(m: DashMap<Key, Session, RandomState>) -> Map<Key, Session>;

/// The octets, with zeros behind them up to sixteen.
pub open spec fn padded(octets: Seq<u8>) -> Seq<u8> {
    octets + Seq::new((16 - octets.len()) as nat, |i: int| 0u8)
}

pub open spec fn end_of(a: SocketAddr, end: End) -> bool {
    &&& end.0 == (a.ip is V6)
    &&& end.1@ == padded(a.ip.octets())
    &&& end.2 == a.port
    &&& end.3 == a.flowinfo
    &&& end.4 == a.scope_id
}

fn end(a: SocketAddr) -> (e: End)
    ensures
        end_of(a, e),
{
    match a.ip {
        IpAddr::V4(ip) => {
            let o = ip.octets;
            let octets: [u8; 16] = [o[0], o[1], o[2], o[3], 0, 0, 0, 0, 0, 0, 0, 0, 0, 0, 0, 0];
            assert(octets@ =~= padded(ip.octets@));
            (false, octets, a.port, a.flowinfo, a.scope_id)
        },
        IpAddr::V6(ip) => {
            assert(ip.octets@ =~= padded(ip.octets@));
            (true, ip.octets, a.port, a.flowinfo, a.scope_id)
        },
    }
}

proof fn lemma_one_end(a: SocketAddr, d: End, e: End)
    requires
        end_of(a, d),
        end_of(a, e),
    ensures
        d == e,
{
    assert(d.1 =~= e.1);
}

proof fn lemma_ends_tell_apart(a: SocketAddr, b: SocketAddr, e: End)
    requires
        end_of(a, e),
        end_of(b, e),
    ensures
        a == b,
{
    let s = a.ip.octets();
    let t = b.ip.octets();
    assert(s.len() == t.len());
    assert forall|i: int| 0 <= i < s.len() implies s[i] == t[i] by {
        assert(padded(s)[i] == s[i]);
        assert(padded(t)[i] == t[i]);
    }
    assert(s =~= t);
    match (a.ip, b.ip) {
        (IpAddr::V4(x), IpAddr::V4(y)) => {
            assert(x.octets =~= y.octets);
        },
        (IpAddr::V6(x), IpAddr::V6(y)) => {
            assert(x.octets =~= y.octets);
        },
        _ => {},
    }
}

impl SessionKey {
    pub open spec fn matches_key(self, key: Key) -> bool {
        end_of(self.client_addr, key.0) && end_of(self.backend_addr, key.1)
    }

    /// The form that the session is found by.
    pub open spec fn key(self) -> Key {
        choose|key: Key| self.matches_key(key)
    }

    fn to_key(&self) -> (key: Key)
        ensures
            key == self.key(),
    {
        let key = (end(self.client_addr), end(self.backend_addr));
        proof {
            assert(self.matches_key(key));
            let other = self.key();
            lemma_one_end(self.client_addr, key.0, other.0);
            lemma_one_end(self.backend_addr, key.1, other.1);
        }
        key
    }
}

/// Two flows that differ in the client or in the backend never share a
/// session.
pub proof fn law_flows_are_kept_apart(a: SessionKey, b: SessionKey)
    requires
        a != b,
    ensures
        a.key() != b.key(),
{
    lemma_every_flow_has_a_key(a);
    lemma_every_flow_has_a_key(b);
    if a.key() == b.key() {
        lemma_ends_tell_apart(a.client_addr, b.client_addr, a.key().0);
        lemma_ends_tell_apart(a.backend_addr, b.backend_addr, a.key().1);
    }
}

proof fn lemma_every_flow_has_a_key(k: SessionKey)
    ensures
        k.matches_key(k.key()),
{
    let key = (lemma_every_address_has_an_end(k.client_addr), lemma_every_address_has_an_end(
        k.backend_addr,
    ));
    assert(k.matches_key(key));
}

proof fn lemma_every_address_has_an_end(a: SocketAddr) -> (e: End)
    ensures
        end_of(a, e),
{
    match a.ip {
        IpAddr::V4(ip) => {
            let o = ip.octets;
            let octets: [u8; 16] = [o[0], o[1], o[2], o[3], 0, 0, 0, 0, 0, 0, 0, 0, 0, 0, 0, 0];
            assert(octets@ =~= padded(ip.octets@));
            (false, octets, a.port, a.flowinfo, a.scope_id)
        },
        IpAddr::V6(ip) => {
            assert(ip.octets@ =~= padded(ip.octets@));
            (true, ip.octets, a.port, a.flowinfo, a.scope_id)
        },
    }
}

impl Session {
    /// The session, active again at `now`.
    pub open spec fn touched(self, now: Instant) -> Session {
        Session { last_activity: now, ..self }
    }

    /// It has been idle for longer than the timeout.
    pub open spec fn is_expired(self, now: Instant, timeout: Duration) -> bool {
        now.since(self.last_activity) > timeout.nanos
    }

    pub open spec fn flow(self) -> SessionKey {
        SessionKey { client_addr: self.client_addr, backend_addr: self.backend_addr }
    }

    /// Marks it as active and hands out its socket.
    pub fn touch(&mut self, now: Instant) -> (socket: u64)
        ensures
            *final(self) == old(self).touched(now),
            socket == old(self).socket,
    {
        self.last_activity = now;
        self.socket
    }

    /// Whether it has been idle for no longer than the timeout.
    pub fn is_live(&self, now: Instant, timeout: Duration) -> (b: bool)
        ensures
            b == !self.is_expired(now, timeout),
    {
        now.duration_since(self.last_activity).nanos <= timeout.nanos
    }
}

/// The sessions that are not expired.
pub open spec fn live(map: Map<Key, Session>, now: Instant, timeout: Duration) -> Map<Key, Session> {
    Map::new(
        |k: Key| map.dom().contains(k) && !map[k].is_expired(now, timeout),
        |k: Key| map[k],
    )
}

/// The sessions that are expired.
pub open spec fn expired_keys(map: Map<Key, Session>, now: Instant, timeout: Duration) -> Set<Key> {
    Set::new(|k: Key| map.dom().contains(k) && map[k].is_expired(now, timeout))
}

/// `dashmap::DashMap::new`. Claimed: the map is empty.
#[verifier::external_body]
fn no_sessions() -> (m: DashMap<Key, Session, RandomState>)
    ensures
        (contents(m) == Map::<Key, Session>::empty()),
{
    DashMap::new()
}

/// `dashmap::DashMap::get_mut`, with the session marked as active where there
/// is one. Claimed: a socket comes back exactly where the key is there, and it
/// is that session's; that session is touched and nothing else changes.
#[verifier::external_body]
fn touch_entry(m: &mut DashMap<Key, Session, RandomState>, key: &Key, now: Instant) -> (r: Option<
    u64,
>)
    ensures
        r == if contents(*old(m)).dom().contains(*key) {
            Some(contents(*old(m))[*key].socket)
        } else {
            None
        },
        contents(*final(m)) == if contents(*old(m)).dom().contains(*key) {
            contents(*old(m)).insert(*key, contents(*old(m))[*key].touched(now))
        } else {
            contents(*old(m))
        },
{
    m.get_mut(key).map(|mut session| session.touch(now))
}

/// `dashmap::DashMap::entry` and `or_insert`. Claimed: the session is there
/// afterwards where the key was free, and nothing changes where it was taken.
#[verifier::external_body]
fn claim_entry(m: &mut DashMap<Key, Session, RandomState>, key: Key, session: Session)
    ensures
        contents(*final(m)) == if contents(*old(m)).dom().contains(key) {
            contents(*old(m))
        } else {
            contents(*old(m)).insert(key, session)
        },
{
    m.entry(key).or_insert(session);
}

/// `dashmap::DashMap::retain`, asked to keep the sessions that are live.
/// Claimed: those stay as they are and no others do.
#[verifier::external_body]
fn retain_live(m: &mut DashMap<Key, Session, RandomState>, now: Instant, timeout: Duration)
    ensures
        contents(*final(m)) == live(contents(*old(m)), now, timeout),
{
    m.retain(|_, session| session.is_live(now, timeout));
}

/// There are just `n` sessions.
pub open spec fn has_size(map: Map<Key, Session>, n: nat) -> bool {
    map.dom().finite() && map.dom().len() == n
}

/// `dashmap::DashMap::len`. Claimed: the result is how many sessions the map
/// holds.
#[verifier::external_body]
fn count_entries(m: &DashMap<Key, Session, RandomState>) -> (n: usize)
    ensures
        has_size(contents(*m), n as nat),
{
    m.len()
}

/// `dashmap::DashMap::contains_key`. Claimed: whether the key is there.
#[verifier::external_body]
fn has_entry(m: &DashMap<Key, Session, RandomState>, key: &Key) -> (b: bool)
    ensures
        b == contents(*m).dom().contains(*key),
{
    m.contains_key(key)
}

/// `dashmap::DashMap::iter`, its keys and sessions copied out. Claimed: every
/// session is listed with its key, each once, in an order that is left open.
#[verifier::external_body]
fn list_entries(m: &DashMap<Key, Session, RandomState>) -> (r: Vec<(Key, Session)>)
    ensures
        forall|i: int|
            0 <= i < r@.len() ==> contents(*m).dom().contains((#[trigger] r@[i]).0) && contents(
                *m,
            )[r@[i].0] == r@[i].1,
        (forall|i: int, j: int|
            0 <= i < j < r@.len() ==> (#[trigger] r@[i]).0 != (#[trigger] r@[j]).0),
        forall|k: Key| #[trigger]
            contents(*m).dom().contains(k) ==> exists|i: int| 0 <= i < r@.len() && r@[i].0 == k,
{
    m.iter().map(|entry| (*entry.key(), *entry.value())).collect()
}

/// The sessions of one balancer.
pub struct SessionManager {
    sessions: DashMap<Key, Session, RandomState>,
    listener_addr: String,
    timeout: Duration,
}

/// The sessions after a flow has claimed one with the socket `opened`: the
/// one that is there is touched, or a new one is made.
pub open spec fn claimed(map: Map<Key, Session>, flow: SessionKey, opened: u64, now: Instant) -> Map<
    Key,
    Session,
> {
    if map.dom().contains(flow.key()) {
        map.insert(flow.key(), map[flow.key()].touched(now))
    } else {
        map.insert(
            flow.key(),
            Session {
                client_addr: flow.client_addr,
                backend_addr: flow.backend_addr,
                socket: opened,
                last_activity: now,
            },
        )
    }
}

/// The socket that a flow uses, with `opened` at hand.
pub open spec fn socket_for(map: Map<Key, Session>, flow: SessionKey, opened: u64) -> u64 {
    if map.dom().contains(flow.key()) {
        map[flow.key()].socket
    } else {
        opened
    }
}

impl SessionManager {
    /// The sessions, by the form in which they are found.
    pub closed spec fn sessions(&self) -> Map<Key, Session> {
        contents(self.sessions)
    }

    pub closed spec fn idle_limit(&self) -> Duration {
        self.timeout
    }

    pub closed spec fn listener(&self) -> Seq<char> {
        self.listener_addr@
    }

    /// Every session is found under its own flow.
    pub open spec fn wf(&self) -> bool {
        forall|k: Key| #[trigger]
            self.sessions().dom().contains(k) ==> self.sessions()[k].flow().key() == k
    }

    pub fn new(listener_addr: String, timeout: Duration) -> (m: SessionManager)
        ensures
            m.wf(),
            m.sessions() == Map::<Key, Session>::empty(),
            m.idle_limit() == timeout,
            m.listener() == listener_addr@,
    {
        SessionManager { sessions: no_sessions(), listener_addr, timeout }
    }

    /// The socket of a flow that has a session, which is marked as active.
    pub fn find_session(&mut self, client_addr: SocketAddr, backend_addr: SocketAddr, now: Instant) -> (r:
        Option<u64>)
        requires
            old(self).wf(),
        ensures
            final(self).wf(),
            final(self).idle_limit() == old(self).idle_limit(),
            final(self).listener() == old(self).listener(),
            ({
                let key = (SessionKey { client_addr, backend_addr }).key();
                if old(self).sessions().dom().contains(key) {
                    &&& r == Some(old(self).sessions()[key].socket)
                    &&& final(self).sessions() == old(self).sessions().insert(
                        key,
                        old(self).sessions()[key].touched(now),
                    )
                } else {
                    &&& r is None
                    &&& final(self).sessions() == old(self).sessions()
                }
            }),
    {
        let key = SessionKey { client_addr, backend_addr }.to_key();
        touch_entry(&mut self.sessions, &key, now)
    }

    /// The socket of a flow that had no session when a socket was asked for,
    /// with the socket that was opened or why none was. Where somebody made
    /// the session meanwhile, theirs is used.
    pub fn get_or_create_session(
        &mut self,
        client_addr: SocketAddr,
        backend_addr: SocketAddr,
        opened: Result<u64, String>,
        now: Instant,
    ) -> (r: Result<u64, String>)
        requires
            old(self).wf(),
        ensures
            final(self).wf(),
            final(self).idle_limit() == old(self).idle_limit(),
            final(self).listener() == old(self).listener(),
            ({
                let flow = SessionKey { client_addr, backend_addr };
                match opened {
                    Ok(socket) => {
                        &&& r == Ok::<u64, String>(
                            socket_for(old(self).sessions(), flow, socket),
                        )
                        &&& final(self).sessions() == claimed(
                            old(self).sessions(),
                            flow,
                            socket,
                            now,
                        )
                    },
                    Err(e) => {
                        &&& r == Err::<u64, String>(e)
                        &&& final(self).sessions() == old(self).sessions()
                    },
                }
            }),
    {
        match opened {
            Ok(socket) => {
                let key = SessionKey { client_addr, backend_addr }.to_key();
                let session = Session { client_addr, backend_addr, socket, last_activity: now };
                claim_entry(&mut self.sessions, key, session);
                proof {
                    let before = old(self).sessions();
                    if !before.dom().contains(key) {
                        assert(contents(self.sessions).insert(key, session.touched(now))
                            =~= before.insert(key, session));
                    }
                }
                match touch_entry(&mut self.sessions, &key, now) {
                    Some(current) => Ok(current),
                    None => Ok(socket),
                }
            },
            Err(e) => Err(e),
        }
    }

    /// Marks the session of a flow as active, where there is one.
    pub fn update_activity(&mut self, client_addr: SocketAddr, backend_addr: SocketAddr, now: Instant)
        requires
            old(self).wf(),
        ensures
            final(self).wf(),
            final(self).idle_limit() == old(self).idle_limit(),
            final(self).listener() == old(self).listener(),
            ({
                let key = (SessionKey { client_addr, backend_addr }).key();
                final(self).sessions() == if old(self).sessions().dom().contains(key) {
                    old(self).sessions().insert(key, old(self).sessions()[key].touched(now))
                } else {
                    old(self).sessions()
                }
            }),
    {
        self.find_session(client_addr, backend_addr, now);
    }

    /// How many sessions there are.
    pub fn session_count(&self) -> (n: usize)
        ensures
            has_size(self.sessions(), n as nat),
    {
        count_entries(&self.sessions)
    }

    /// Whether a flow has a session.
    pub fn has_session(&self, client_addr: SocketAddr, backend_addr: SocketAddr) -> (b: bool)
        ensures
            b == self.sessions().dom().contains((SessionKey { client_addr, backend_addr }).key()),
    {
        let key = SessionKey { client_addr, backend_addr }.to_key();
        has_entry(&self.sessions, &key)
    }

    /// Drops the sessions that have been idle for longer than the timeout and
    /// tells how many.
    pub fn cleanup_expired(&mut self, now: Instant) -> (removed: usize)
        requires
            old(self).wf(),
        ensures
            final(self).wf(),
            final(self).idle_limit() == old(self).idle_limit(),
            final(self).listener() == old(self).listener(),
            final(self).sessions() == live(old(self).sessions(), now, old(self).idle_limit()),
            removed == expired_keys(old(self).sessions(), now, old(self).idle_limit()).len(),
    {
        let before: usize = count_entries(&self.sessions);
        retain_live(&mut self.sessions, now, self.timeout);
        let after: usize = count_entries(&self.sessions);
        proof {
            lemma_split(old(self).sessions(), now, old(self).timeout);
        }
        before - after
    }

    /// How long to wait between two cleanups: half of the timeout.
    pub fn cleanup_interval(&self) -> (d: Duration)
        ensures
            d.nanos == self.idle_limit().nanos / 2,
    {
        self.timeout.half()
    }
}

proof fn lemma_split(map: Map<Key, Session>, now: Instant, timeout: Duration)
    requires
        map.dom().finite(),
    ensures
        live(map, now, timeout).dom().finite(),
        expired_keys(map, now, timeout).finite(),
        map.dom().len() == live(map, now, timeout).dom().len() + expired_keys(
            map,
            now,
            timeout,
        ).len(),
{
    let kept = live(map, now, timeout).dom();
    let gone = expired_keys(map, now, timeout);
    assert(kept =~= map.dom().difference(gone));
    assert(gone.subset_of(map.dom()));
    vstd::set_lib::lemma_len_subset(gone, map.dom());
    vstd::set_lib::lemma_set_disjoint_lens(kept, gone);
    assert(kept + gone =~= map.dom());
}

/// What a look at a session's socket found.
#[derive(Clone, Copy, PartialEq, Eq, Debug)]
pub enum Received {
    /// A datagram of so many bytes.
    Data(usize),
    /// Nothing yet.
    WouldBlock,
    /// The socket reported an error.
    Failed,
}

impl SessionManager {
    /// Every session, each once, in an order that is left open.
    pub fn routes(&self) -> (r: Vec<Session>)
        requires
            self.wf(),
        ensures
            has_size(self.sessions(), r@.len()),
            forall|i: int|
                0 <= i < r@.len() ==> self.sessions().dom().contains(
                    (#[trigger] r@[i]).flow().key(),
                ) && self.sessions()[r@[i].flow().key()] == r@[i],
            forall|k: Key| #[trigger]
                self.sessions().dom().contains(k) ==> exists|i: int|
                    0 <= i < r@.len() && (#[trigger] r@[i]).flow().key() == k,
            forall|i: int, j: int|
                0 <= i < j < r@.len() ==> (#[trigger] r@[i]).flow() != (#[trigger] r@[j]).flow(),
    {
        let entries = list_entries(&self.sessions);
        let mut r: Vec<Session> = Vec::new();
        let mut i: usize = 0;
        while i < entries.len()
            invariant
                i <= entries@.len(),
                r@.len() == i,
                forall|j: int| 0 <= j < i ==> #[trigger] r@[j] == entries@[j].1,
            decreases entries@.len() - i,
        {
            r.push(entries[i].1);
            i = i + 1;
        }
        proof {
            let keys = entries@.map_values(|e: (Key, Session)| e.0);
            assert forall|a: int, b: int| 0 <= a < b < keys.len() implies keys[a] != keys[b] by {
                assert(entries@[a].0 != entries@[b].0);
            }
            keys.unique_seq_to_set();
            assert forall|k: Key| self.sessions().dom().contains(k) <==> keys.to_set().contains(
                k,
            ) by {
                if self.sessions().dom().contains(k) {
                    let a = choose|a: int| 0 <= a < entries@.len() && entries@[a].0 == k;
                    assert(keys[a] == k);
                }
                if keys.to_set().contains(k) {
                    let a = choose|a: int| 0 <= a < keys.len() && keys[a] == k;
                    assert(entries@[a].0 == k);
                }
            }
            assert(self.sessions().dom() =~= keys.to_set());
            assert forall|a: int| 0 <= a < r@.len() implies self.sessions().dom().contains(
                (#[trigger] r@[a]).flow().key(),
            ) && self.sessions()[r@[a].flow().key()] == r@[a] by {
                assert(entries@[a].1 == r@[a]);
                assert(self.sessions().dom().contains(entries@[a].0));
            }
            assert forall|k: Key| #[trigger] self.sessions().dom().contains(k) implies exists|a: int|
                0 <= a < r@.len() && (#[trigger] r@[a]).flow().key() == k by {
                let a = choose|a: int| 0 <= a < entries@.len() && entries@[a].0 == k;
                assert(r@[a] == entries@[a].1);
            }
            assert forall|a: int, b: int| 0 <= a < b < r@.len() implies (#[trigger] r@[a]).flow()
                != (#[trigger] r@[b]).flow() by {
                assert(self.sessions().dom().contains(entries@[a].0));
                assert(self.sessions().dom().contains(entries@[b].0));
                assert(entries@[a].0 != entries@[b].0);
            }
        }
        r
    }

    /// What to do with what a look at a session's socket found: a datagram is
    /// counted and goes on to the client, whose address comes back.
    pub fn forward_response(
        &self,
        metrics: &mut Metrics,
        session: &Session,
        backend: &str,
        received: Received,
    ) -> (to: Option<SocketAddr>)
        requires
            old(metrics).wf(),
        ensures
            final(metrics).wf(),
            match received {
                Received::Data(len) => {
                    &&& to == Some(session.client_addr)
                    &&& metrics::counted_answered(
                        *old(metrics),
                        *final(metrics),
                        self.listener(),
                        backend@,
                        len as nat,
                    )
                },
                _ => to is None && *final(metrics) == *old(metrics),
            },
    {
        match received {
            Received::Data(len) => {
                metrics.answered(self.listener_addr.as_str(), backend, len);
                Some(session.client_addr)
            },
            _ => None,
        }
    }
}

/// A flow keeps its socket: whoever claims the session again gets the socket
/// of the first, and no session is added.
pub proof fn law_session_is_reused(
    map: Map<Key, Session>,
    flow: SessionKey,
    first: u64,
    second: u64,
    then: Instant,
    now: Instant,
)
    ensures
        socket_for(claimed(map, flow, first, then), flow, second) == socket_for(map, flow, first),
        claimed(claimed(map, flow, first, then), flow, second, now).dom() == claimed(
            map,
            flow,
            first,
            then,
        ).dom(),
{
    assert(claimed(claimed(map, flow, first, then), flow, second, now).dom() =~= claimed(
        map,
        flow,
        first,
        then,
    ).dom());
}

/// Each new flow adds one session, and other flows keep theirs as they are.
pub proof fn law_new_flow_adds_a_session(
    map: Map<Key, Session>,
    flow: SessionKey,
    other: SessionKey,
    socket: u64,
    now: Instant,
)
    requires
        map.dom().finite(),
        !map.dom().contains(flow.key()),
        other != flow,
    ensures
        claimed(map, flow, socket, now).dom().len() == map.dom().len() + 1,
        claimed(map, flow, socket, now).dom().contains(other.key()) == map.dom().contains(
            other.key(),
        ),
        claimed(map, flow, socket, now)[other.key()] == map[other.key()],
{
    law_flows_are_kept_apart(flow, other);
}

/// A session that was active within the timeout outlives a cleanup, one that
/// was not does not.
pub proof fn law_activity_keeps_a_session(
    map: Map<Key, Session>,
    key: Key,
    then: Instant,
    now: Instant,
    timeout: Duration,
)
    requires
        map.dom().contains(key),
    ensures
        live(map.insert(key, map[key].touched(then)), now, timeout).dom().contains(key) <==> now.since(
            then,
        ) <= timeout.nanos,
{
}

/// Cleaning up twice at one time removes no more than once.
pub proof fn law_cleanup_is_idempotent(map: Map<Key, Session>, now: Instant, timeout: Duration)
    ensures
        live(live(map, now, timeout), now, timeout) == live(map, now, timeout),
        expired_keys(live(map, now, timeout), now, timeout) == Set::<Key>::empty(),
{
    assert(live(live(map, now, timeout), now, timeout) =~= live(map, now, timeout));
    assert(expired_keys(live(map, now, timeout), now, timeout) =~= Set::<Key>::empty());
}

/// A session expires exactly when more time than the timeout has passed since
/// it was last active, however long the timeout is.
pub proof fn law_sessions_expire_past_the_timeout(s: Session, now: Instant, timeout: Duration)
    ensures
        s.is_expired(now, timeout) <==> now.nanos > s.last_activity.nanos + timeout.nanos,
{
}

/// Activity changes the time of the last activity and nothing else.
pub proof fn law_activity_is_noted(s: Session, now: Instant)
    ensures
        s.touched(now).last_activity == now,
        s.touched(now).socket == s.socket,
        s.touched(now).client_addr == s.client_addr,
        s.touched(now).backend_addr == s.backend_addr,
        s.touched(now).flow() == s.flow(),
{
}

/// Claiming a session leaves one there for the flow, active now: the one that
/// was there with its socket, or else one between the two ends with the socket
/// that was opened. No other flow's session changes, comes or goes.
pub proof fn law_claimed_session(
    map: Map<Key, Session>,
    flow: SessionKey,
    opened: u64,
    now: Instant,
    other: SessionKey,
)
    requires
        other != flow,
    ensures
        ({
            let after = claimed(map, flow, opened, now);
            let session = after[flow.key()];
            &&& after.dom() == map.dom().insert(flow.key())
            &&& session.last_activity == now
            &&& map.dom().contains(flow.key()) ==> session.socket == map[flow.key()].socket
                && session.client_addr == map[flow.key()].client_addr && session.backend_addr
                == map[flow.key()].backend_addr && socket_for(map, flow, opened)
                == map[flow.key()].socket
            &&& !map.dom().contains(flow.key()) ==> session.socket == opened && session.client_addr
                == flow.client_addr && session.backend_addr == flow.backend_addr && socket_for(
                map,
                flow,
                opened,
            ) == opened
            &&& after.dom().contains(other.key()) <==> map.dom().contains(other.key())
            &&& after[other.key()] == map[other.key()]
        }),
{
    law_flows_are_kept_apart(flow, other);
    assert(claimed(map, flow, opened, now).dom() =~= map.dom().insert(flow.key()));
}

/// A cleanup drops the sessions that were idle for longer than the timeout and
/// leaves every other one just as it is; what it drops are those that it
/// counts.
pub proof fn law_cleanup_drops_exactly_the_idle(
    map: Map<Key, Session>,
    now: Instant,
    timeout: Duration,
    k: Key,
)
    ensures
        live(map, now, timeout).dom().contains(k) <==> map.dom().contains(k) && now.nanos
            <= map[k].last_activity.nanos + timeout.nanos,
        live(map, now, timeout).dom().contains(k) ==> live(map, now, timeout)[k] == map[k],
        expired_keys(map, now, timeout).contains(k) <==> map.dom().contains(k) && now.nanos
            > map[k].last_activity.nanos + timeout.nanos,
{
}

/// The form in which an end is found holds its family, its octets, its port,
/// its flow label and its scope, so that ends that differ in any of them are
/// found apart.
pub proof fn law_ends_hold_the_whole_address(a: SocketAddr, e: End, i: int)
    requires
        end_of(a, e),
        0 <= i < 16,
    ensures
        e.0 <==> a.ip is V6,
        e.1@[i] == if i < a.ip.octets().len() {
            a.ip.octets()[i]
        } else {
            0
        },
        e.2 == a.port,
        e.3 == a.flowinfo,
        e.4 == a.scope_id,
{
}

/// As many sessions as are counted are there.
pub proof fn law_sessions_are_counted(map: Map<Key, Session>, n: nat)
    requires
        has_size(map, n),
    ensures
        map.dom().len() == n,
        n == 0 ==> map =~= Map::<Key, Session>::empty(),
{
    if n == 0 {
        assert(map.dom() =~= Set::<Key>::empty());
    }
}

} // verus!
