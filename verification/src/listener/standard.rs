//! A listener that reads its packets from one socket.
use crate::listener;
use crate::listener::{give_back, take_in, Packet};
use crate::metrics::Metrics;
use crate::net::SocketAddr;
use vstd::prelude::*;

verus! {

/// Where the listener is bound.
pub struct StandardListener {
    address: SocketAddr,
    listener_addr_str: String,
}

impl StandardListener {
    pub closed spec fn bound(&self) -> SocketAddr {
        self.address
    }

    /// The address in its usual notation.
    pub closed spec fn label(&self) -> Seq<char> {
        self.listener_addr_str@
    }

    /// A listener on a socket that is bound to `address`.
    pub fn new(address: SocketAddr, listener_addr_str: String) -> (l: StandardListener)
        ensures
            l.bound() == address,
            l.label() == listener_addr_str@,
    {
        StandardListener { address, listener_addr_str }
    }

    pub fn bound_addr(&self) -> (a: SocketAddr)
        ensures
            a == self.bound(),
    {
        self.address
    }

    pub fn address(&self) -> (a: SocketAddr)
        ensures
            a == self.bound(),
    {
        self.address
    }

    /// Takes in a datagram of `len` bytes that was read into `buf`.
    pub fn receive(&self, metrics: &mut Metrics, src_addr: SocketAddr, buf: &[u8], len: usize) -> (r:
        Option<Packet>)
        requires
            old(metrics).wf(),
            len <= buf@.len(),
        ensures
            final(metrics).wf(),
            listener::took_in(
                *old(metrics),
                *final(metrics),
                self.label(),
                self.bound(),
                src_addr,
                buf@.take(len as int),
                r,
            ),
    {
        take_in(metrics, self.listener_addr_str.as_str(), self.address, src_addr, buf, len)
    }

    /// Counts a response of `len` bytes that was handed to the socket.
    pub fn replied(&self, metrics: &mut Metrics, len: usize, went_out: bool)
        requires
            old(metrics).wf(),
        ensures
            final(metrics).wf(),
            listener::gave_back(
                *old(metrics),
                *final(metrics),
                self.label(),
                len as nat,
                went_out,
            ),
    {
        give_back(metrics, self.listener_addr_str.as_str(), len, went_out);
    }
}

} // verus!
