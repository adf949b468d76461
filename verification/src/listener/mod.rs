//! Packets as listeners take them in and answer them.
pub mod batch;
pub mod standard;

use crate::metrics;
use crate::metrics::Metrics;
use crate::net::{IpAddr, SocketAddr};
use vstd::prelude::*;

verus! {

/// The room for a datagram: more than any holds.
pub const BUFFER_SIZE: usize = 65535;

/// A packet on its way from a client.
#[derive(Clone, Debug)]
pub struct Packet {
    pub src_addr: SocketAddr,
    pub dst_addr: SocketAddr,
    pub payload: Vec<u8>,
}

impl Packet {
    pub fn new(src_addr: SocketAddr, dst_ip: IpAddr, dst_port: u16, payload: Vec<u8>) -> (p: Packet)
        ensures
            p.src_addr == src_addr,
            p.dst_addr == SocketAddr::of(dst_ip, dst_port),
            p.payload@ == payload@,
    {
        Packet { src_addr, dst_addr: SocketAddr::new(dst_ip, dst_port), payload }
    }

    pub fn src_ip(&self) -> (ip: IpAddr)
        ensures
            ip == self.src_addr.ip,
    {
        self.src_addr.ip()
    }

    pub fn src_port(&self) -> (port: u16)
        ensures
            port == self.src_addr.port,
    {
        self.src_addr.port()
    }

    pub fn dst_ip(&self) -> (ip: IpAddr)
        ensures
            ip == self.dst_addr.ip,
    {
        self.dst_addr.ip()
    }

    pub fn dst_port(&self) -> (port: u16)
        ensures
            port == self.dst_addr.port,
    {
        self.dst_addr.port()
    }

    pub fn len(&self) -> (n: usize)
        ensures
            n == self.payload@.len(),
    {
        self.payload.len()
    }

    pub fn is_empty(&self) -> (b: bool)
        ensures
            b == (self.payload@.len() == 0),
    {
        self.payload.len() == 0
    }
}

/// What comes of a datagram of `len` bytes that a listener at `dst` read into
/// its buffer: an empty one is passed over, any other is counted and becomes
/// a packet.
pub open spec fn took_in(
    before: Metrics,
    after: Metrics,
    listener: Seq<char>,
    dst: SocketAddr,
    src: SocketAddr,
    data: Seq<u8>,
    r: Option<Packet>,
) -> bool {
    if data.len() == 0 {
        r is None && after == before
    } else {
        &&& r matches Some(p) && p.src_addr == src && p.dst_addr == dst && p.payload@ == data
        &&& metrics::counted_received(before, after, listener, data.len())
    }
}

/// What is counted once a response of `len` bytes was handed to the socket:
/// it, if it went out.
pub open spec fn gave_back(
    before: Metrics,
    after: Metrics,
    listener: Seq<char>,
    len: nat,
    went_out: bool,
) -> bool {
    if went_out {
        metrics::counted_replied(before, after, listener, len)
    } else {
        after == before
    }
}

fn copy_front(buf: &[u8], len: usize) -> (v: Vec<u8>)
    requires
        len <= buf@.len(),
    ensures
        v@ == buf@.take(len as int),
{
    let mut v: Vec<u8> = Vec::new();
    let mut i: usize = 0;
    while i < len
        invariant
            i <= len <= buf@.len(),
            v@ == buf@.take(i as int),
        decreases len - i,
    {
        v.push(buf[i]);
        assert(buf@.take(i + 1) =~= buf@.take(i as int).push(buf@[i as int]));
        i = i + 1;
    }
    v
}

/// Takes in a datagram of `len` bytes.
pub(crate) fn take_in(
    metrics: &mut Metrics,
    listener: &str,
    dst_addr: SocketAddr,
    src_addr: SocketAddr,
    buf: &[u8],
    len: usize,
) -> (r: Option<Packet>)
    requires
        old(metrics).wf(),
        len <= buf@.len(),
    ensures
        final(metrics).wf(),
        took_in(
            *old(metrics),
            *final(metrics),
            listener@,
            dst_addr,
            src_addr,
            buf@.take(len as int),
            r,
        ),
{
    if len == 0 {
        return None;
    }
    metrics.received(listener, len);
    let payload = copy_front(buf, len);
    Some(Packet { src_addr, dst_addr, payload })
}

/// Counts a response.
pub(crate) fn give_back(metrics: &mut Metrics, listener: &str, len: usize, went_out: bool)
    requires
        old(metrics).wf(),
    ensures
        final(metrics).wf(),
        gave_back(*old(metrics), *final(metrics), listener@, len as nat, went_out),
{
    if went_out {
        metrics.replied(listener, len);
    }
}

/// What goes back to the client once a packet was forwarded: the response,
/// where there is one. Whatever goes back, the packet is mirrored after that.
pub fn after_forward(outcome: Result<Option<Vec<u8>>, String>, client: SocketAddr) -> (r: Option<
    (SocketAddr, Vec<u8>),
>)
    ensures
        r == match outcome {
            Ok(Some(response)) => Some((client, response)),
            _ => None,
        },
{
    match outcome {
        Ok(Some(response)) => Some((client, response)),
        _ => None,
    }
}

/// A datagram with anything in it becomes a packet from its sender to the
/// listener with just those bytes, however many they are, and is counted once
/// with them; an empty one becomes nothing and is not counted.
pub proof fn law_datagrams_become_packets(
    before: Metrics,
    after: Metrics,
    listener: Seq<char>,
    dst: SocketAddr,
    src: SocketAddr,
    data: Seq<u8>,
    r: Option<Packet>,
)
    requires
        before.wf(),
        took_in(before, after, listener, dst, src, data, r),
    ensures
        r is Some <==> data.len() > 0,
        r matches Some(p) ==> p.payload@ == data && p.src_addr == src && p.dst_addr == dst,
        data.len() == 0 ==> after == before,
        data.len() > 0 ==> ({
            let (rx, rx_bytes, tx, tx_bytes) = metrics::listener_counts(before, listener);
            let counted = metrics::listener_counts(after, listener);
            &&& counted.0 == (rx + 1) % 0x1_0000_0000_0000_0000
            &&& counted.1 == (rx_bytes + data.len()) % 0x1_0000_0000_0000_0000
            &&& counted.2 == tx
            &&& counted.3 == tx_bytes
        }),
{
}

/// A response that went out is counted once with its bytes; one that did not
/// is not counted.
pub proof fn law_responses_that_went_out_count(
    before: Metrics,
    after: Metrics,
    listener: Seq<char>,
    len: nat,
    went_out: bool,
)
    requires
        before.wf(),
        gave_back(before, after, listener, len, went_out),
    ensures
        !went_out ==> after == before,
        went_out ==> ({
            let (rx, rx_bytes, tx, tx_bytes) = metrics::listener_counts(before, listener);
            let counted = metrics::listener_counts(after, listener);
            &&& counted.0 == rx
            &&& counted.1 == rx_bytes
            &&& counted.2 == (tx + 1) % 0x1_0000_0000_0000_0000
            &&& counted.3 == (tx_bytes + len) % 0x1_0000_0000_0000_0000
        }),
{
}

/// There is room for any datagram.
pub proof fn law_room_for_any_datagram(len: nat)
    requires
        len <= 65535,
    ensures
        len <= BUFFER_SIZE,
{
}

} // verus!
