//! A listener whose workers each read from a socket of their own.
use crate::listener;
use crate::listener::{give_back, take_in, Packet};
use crate::metrics::Metrics;
use crate::net::SocketAddr;
use vstd::prelude::*;

verus! {

/// Where the listener is bound, and by how many workers.
pub struct BatchListener {
    address: SocketAddr,
    listener_addr_str: String,
    num_workers: usize,
}

/// How many workers run: as many as asked for, or one for each processor
/// where none is asked for.
pub fn worker_count(asked: usize, processors: usize) -> (n: usize)
    ensures
        n == if asked == 0 {
            processors
        } else {
            asked
        },
{
    if asked == 0 {
        processors
    } else {
        asked
    }
}

impl BatchListener {
    pub closed spec fn bound(&self) -> SocketAddr {
        self.address
    }

    /// The address in its usual notation.
    pub closed spec fn label(&self) -> Seq<char> {
        self.listener_addr_str@
    }

    pub closed spec fn workers(&self) -> usize {
        self.num_workers
    }

    /// A listener on sockets that are bound to `address`.
    pub fn new(
        address: SocketAddr,
        listener_addr_str: String,
        num_workers: usize,
        processors: usize,
    ) -> (l: BatchListener)
        ensures
            l.bound() == address,
            l.label() == listener_addr_str@,
            l.workers() == if num_workers == 0 {
                processors
            } else {
                num_workers
            },
    {
        BatchListener {
            address,
            listener_addr_str,
            num_workers: worker_count(num_workers, processors),
        }
    }

    pub fn bound_addr(&self) -> (a: SocketAddr)
        ensures
            a == self.bound(),
    {
        self.address
    }

    pub fn address(&self) -> (a: SocketAddr)
        ensures
            a == self.bound(),
    {
        self.address
    }

    pub fn num_workers(&self) -> (n: usize)
        ensures
            n == self.workers(),
    {
        self.num_workers
    }

    /// Takes in a datagram of `len` bytes that a worker read into `buf`.
    pub fn receive(&self, metrics: &mut Metrics, src_addr: SocketAddr, buf: &[u8], len: usize) -> (r:
        Option<Packet>)
        requires
            old(metrics).wf(),
            len <= buf@.len(),
        ensures
            final(metrics).wf(),
            listener::took_in(
                *old(metrics),
                *final(metrics),
                self.label(),
                self.bound(),
                src_addr,
                buf@.take(len as int),
                r,
            ),
    {
        take_in(metrics, self.listener_addr_str.as_str(), self.address, src_addr, buf, len)
    }

    /// Counts a response of `len` bytes that was handed to the socket.
    pub fn replied(&self, metrics: &mut Metrics, len: usize, went_out: bool)
        requires
            old(metrics).wf(),
        ensures
            final(metrics).wf(),
            listener::gave_back(
                *old(metrics),
                *final(metrics),
                self.label(),
                len as nat,
                went_out,
            ),
    {
        give_back(metrics, self.listener_addr_str.as_str(), len, went_out);
    }
}

} // verus!
