//! A destination that packets are sent to.
use crate::net::{IpAddr, Ipv4Addr, SocketAddr};
use crate::number::Number;
use crate::raw_socket;
use crate::raw_socket::RawSocketError;
use vstd::prelude::*;

verus! {

/// Which source address a packet to a backend carries.
#[derive(Clone, Copy, PartialEq, Eq, Debug)]
pub enum SendMode {
    /// The balancer's own.
    Standard,
    /// The client's; an IPv6 client's is replaced towards an IPv4 backend.
    PreserveSrcAddr { fallback_ipv4: Option<Ipv4Addr> },
    /// A fixed one, with the client's port.
    FakeSrcAddr(IpAddr),
}

/// A backend: where it is, how it is sent to, how much it counts for and
/// whether it is up.
#[derive(Clone, Debug)]
pub struct UdpBackend {
    pub address: SocketAddr,
    /// The address in its usual notation.
    pub label: String,
    pub mode: SendMode,
    pub probability: Number,
    pub alive: bool,
    pub weight: Number,
}

/// Why a backend could not be set up or sent to.
#[derive(Debug)]
pub enum BackendError {
    /// No socket; with what the system said.
    SocketCreation(String),
    /// The packet did not go out; with the reason.
    SendFailed(String),
    RawSocketNotSupported,
}

impl BackendError {
    pub open spec fn text(self) -> Seq<char> {
        match self {
            BackendError::SocketCreation(e) => "failed to create socket: "@ + e@,
            BackendError::SendFailed(e) => "failed to send packet: "@ + e@,
            BackendError::RawSocketNotSupported => "raw socket not supported on this platform"@,
        }
    }

    /// The error in words.
    pub fn message(&self) -> (m: String)
        ensures
            m@ == self.text(),
    {
        match self {
            BackendError::SocketCreation(e) => "failed to create socket: ".to_string().concat(
                e.as_str(),
            ),
            BackendError::SendFailed(e) => "failed to send packet: ".to_string().concat(
                e.as_str(),
            ),
            BackendError::RawSocketNotSupported => {
                "raw socket not supported on this platform".to_string()
            },
        }
    }
}

/// The socket that a backend is sent to through.
#[derive(Clone, Copy, PartialEq, Eq, Structural, Debug)]
pub enum Transport {
    /// An ordinary one, connected to the backend.
    Connected,
    RawV4,
    RawV6,
}

/// Why that socket could not be opened.
#[derive(Debug)]
pub enum OpenFailure {
    Connected(String),
    Raw(RawSocketError),
}

/// Where an ordinary socket towards an address is bound: any address of the
/// same family, at a port of the system's choice.
pub open spec fn bind_text(address: SocketAddr) -> Seq<char> {
    if address.ip is V4 {
        "0.0.0.0:0"@
    } else {
        "[::]:0"@
    }
}

pub fn bind_addr(address: SocketAddr) -> (t: &'static str)
    ensures
        t@ == bind_text(address),
{
    if address.is_ipv4() {
        "0.0.0.0:0"
    } else {
        "[::]:0"
    }
}

/// A packet with this probability is sent on a draw from 0 up to, but not
/// including, 1.
pub open spec fn sends(probability: Number, draw: Number) -> bool {
    Number::unit().at_most(probability) || (!probability.at_most(Number::nought()) && draw.below(
        probability,
    ))
}

/// How a packet goes out.
#[derive(Clone, Copy, PartialEq, Eq, Debug)]
pub enum Outgoing {
    /// Not at all: the draw was against it.
    Nothing,
    /// Through the connected socket.
    Socket,
    /// Through the raw socket, with this source.
    Raw(SocketAddr),
}

/// The source that a packet of the client at `src` carries to `address`:
/// `None` for the balancer's own, and an error where an IPv6 client's cannot
/// be kept towards IPv4. A client that a dual-stack socket reports as
/// `::ffff:a.b.c.d` is an IPv4 client.
pub open spec fn source_towards(mode: SendMode, address: SocketAddr, src: SocketAddr) -> Result<
    Option<SocketAddr>,
    (),
> {
    match mode {
        SendMode::Standard => Ok(None),
        SendMode::PreserveSrcAddr { fallback_ipv4 } => {
            let client = src.unwrapped();
            if client.ip is V6 && address.ip is V4 {
                match fallback_ipv4 {
                    Some(fallback) => Ok(Some(SocketAddr::of(IpAddr::V4(fallback), src.port))),
                    None => Err(()),
                }
            } else {
                Ok(Some(client))
            }
        },
        SendMode::FakeSrcAddr(ip) => Ok(Some(SocketAddr::of(ip, src.port))),
    }
}

impl UdpBackend {
    /// A backend, from whether the socket towards it could be opened. It
    /// counts as up until a health check says otherwise.
    pub fn new(
        address: SocketAddr,
        label: String,
        mode: SendMode,
        probability: Number,
        weight: Number,
        opened: Result<(), OpenFailure>,
    ) -> (r: Result<UdpBackend, BackendError>)
        ensures
            match opened {
                Ok(()) => r == Ok::<UdpBackend, BackendError>(
                    (UdpBackend { address, label, mode, probability, alive: true, weight }),
                ),
                Err(OpenFailure::Connected(e)) => r == Err::<UdpBackend, BackendError>(
                    BackendError::SocketCreation(e),
                ),
                Err(OpenFailure::Raw(RawSocketError::NotSupported)) => r == Err::<
                    UdpBackend,
                    BackendError,
                >(BackendError::RawSocketNotSupported),
                Err(OpenFailure::Raw(e)) => r matches Err(BackendError::SendFailed(m)) && m@
                    == e.text(),
            },
    {
        match opened {
            Ok(()) => Ok(UdpBackend { address, label, mode, probability, alive: true, weight }),
            Err(OpenFailure::Connected(e)) => Err(BackendError::SocketCreation(e)),
            Err(OpenFailure::Raw(e)) => match e {
                RawSocketError::NotSupported => Err(BackendError::RawSocketNotSupported),
                other => Err(BackendError::SendFailed(other.message())),
            },
        }
    }

    /// The socket that the backend needs.
    pub fn transport(address: SocketAddr, mode: SendMode) -> (t: Transport)
        ensures
            t == if mode is Standard {
                Transport::Connected
            } else if address.ip is V4 {
                Transport::RawV4
            } else {
                Transport::RawV6
            },
    {
        match mode {
            SendMode::Standard => Transport::Connected,
            _ => if address.is_ipv4() {
                Transport::RawV4
            } else {
                Transport::RawV6
            },
        }
    }

    pub fn address(&self) -> (a: SocketAddr)
        ensures
            a == self.address,
    {
        self.address
    }

    pub fn mode(&self) -> (m: SendMode)
        ensures
            m == self.mode,
    {
        self.mode
    }

    pub fn weight(&self) -> (w: Number)
        ensures
            w == self.weight,
    {
        self.weight
    }

    pub fn probability(&self) -> (p: Number)
        ensures
            p == self.probability,
    {
        self.probability
    }

    pub fn is_alive(&self) -> (b: bool)
        ensures
            b == self.alive,
    {
        self.alive
    }

    pub fn set_alive(&mut self, alive: bool)
        ensures
            *final(self) == (UdpBackend { alive, ..*old(self) }),
    {
        self.alive = alive;
    }

    /// Whether a packet is sent, on a draw from 0 up to, but not including, 1.
    pub fn should_send(&self, draw: Number) -> (b: bool)
        ensures
            b == sends(self.probability, draw),
            Number::unit().at_most(self.probability) ==> b,
            self.probability.at_most(Number::nought()) ==> !b,
            Number::nought().below(self.probability) && self.probability.below(Number::unit()) ==> (
            b <==> draw.below(self.probability)),
    {
        if Number::one().is_at_most(self.probability) {
            return true;
        }
        if self.probability.is_at_most(Number::zero()) {
            return false;
        }
        draw.is_below(self.probability)
    }

    /// How a packet of the client at `src_addr` goes out to this backend.
    pub fn send(&self, src_addr: SocketAddr, draw: Number) -> (r: Result<Outgoing, BackendError>)
        ensures
            !sends(self.probability, draw) ==> r == Ok::<Outgoing, BackendError>(Outgoing::Nothing),
            sends(self.probability, draw) ==> match source_towards(
                self.mode,
                self.address,
                src_addr,
            ) {
                Ok(None) => r == Ok::<Outgoing, BackendError>(Outgoing::Socket),
                Ok(Some(source)) => r == Ok::<Outgoing, BackendError>(Outgoing::Raw(source)),
                Err(()) => r matches Err(BackendError::SendFailed(m)) && m@
                    == "IPv6 client to IPv4 backend requires fallback_source_address"@,
            },
            r == Ok::<Outgoing, BackendError>(Outgoing::Nothing) <==> !sends(
                self.probability,
                draw,
            ),
            r matches Ok(Outgoing::Raw(source)) ==> source.port == src_addr.port && match self.mode {
                SendMode::Standard => false,
                SendMode::FakeSrcAddr(ip) => source.ip == ip,
                SendMode::PreserveSrcAddr { fallback_ipv4 } => if src_addr.ip.unwrapped() is V6
                    && self.address.ip is V4 {
                    fallback_ipv4 matches Some(ip) && source.ip == IpAddr::V4(ip)
                } else {
                    source.ip == src_addr.ip.unwrapped()
                },
            },
            r == Ok::<Outgoing, BackendError>(Outgoing::Socket) ==> self.mode is Standard,
            r is Err ==> self.mode == (SendMode::PreserveSrcAddr { fallback_ipv4: None })
                && src_addr.ip.unwrapped() is V6 && self.address.ip is V4,
    {
        if !self.should_send(draw) {
            return Ok(Outgoing::Nothing);
        }
        match self.mode {
            SendMode::Standard => Ok(Outgoing::Socket),
            SendMode::PreserveSrcAddr { fallback_ipv4 } => {
                let client = src_addr.unwrap_ipv4();
                if client.is_ipv6() && self.address.is_ipv4() {
                    match fallback_ipv4 {
                        Some(fallback) => Ok(
                            Outgoing::Raw(SocketAddr::new(IpAddr::V4(fallback), src_addr.port())),
                        ),
                        None => Err(
                            BackendError::SendFailed(
                                "IPv6 client to IPv4 backend requires fallback_source_address".to_string(),
                            ),
                        ),
                    }
                } else {
                    Ok(Outgoing::Raw(client))
                }
            },
            SendMode::FakeSrcAddr(fake_ip) => Ok(
                Outgoing::Raw(SocketAddr::new(fake_ip, src_addr.port())),
            ),
        }
    }

    /// What sending through the connected socket comes to.
    pub fn sent(outcome: Result<usize, String>) -> (r: Result<usize, BackendError>)
        ensures
            match outcome {
                Ok(n) => r == Ok::<usize, BackendError>(n),
                Err(e) => r == Err::<usize, BackendError>(BackendError::SendFailed(e)),
            },
    {
        match outcome {
            Ok(n) => Ok(n),
            Err(e) => Err(BackendError::SendFailed(e)),
        }
    }

    /// What sending through the raw socket comes to.
    pub fn sent_raw(outcome: Result<usize, RawSocketError>) -> (r: Result<usize, BackendError>)
        ensures
            match outcome {
                Ok(n) => r == Ok::<usize, BackendError>(n),
                Err(e) => r matches Err(BackendError::SendFailed(m)) && m@ == e.text(),
            },
    {
        match outcome {
            Ok(n) => Ok(n),
            Err(e) => Err(BackendError::SendFailed(e.message())),
        }
    }
}

/// A probability of one or more sends always, one of zero or less never.
pub proof fn law_certain_and_impossible_sampling(probability: Number, draw: Number)
    ensures
        Number::unit().at_most(probability) ==> sends(probability, draw),
        probability.at_most(Number::nought()) ==> !sends(probability, draw),
{
    assert(Number::unit().place() > 0);
}

/// A larger probability sends on every draw on which a smaller one does.
pub proof fn law_likelier_sends_more(smaller: Number, larger: Number, draw: Number)
    requires
        smaller.at_most(larger),
        sends(smaller, draw),
    ensures
        sends(larger, draw),
{
}

/// A source never crosses from IPv6 to IPv4: what leaves for an IPv4 backend
/// carries an IPv4 source wherever the configuration checks that a fixed
/// source is one.
pub proof fn law_no_ipv6_source_towards_ipv4(mode: SendMode, address: SocketAddr, src: SocketAddr)
    requires
        address.ip is V4,
        mode matches SendMode::FakeSrcAddr(ip) ==> ip is V4,
    ensures
        source_towards(mode, address, src) matches Ok(Some(source)) ==> source.ip is V4,
{
}

/// The client's port is kept whatever source a packet carries.
pub proof fn law_client_port_is_kept(mode: SendMode, address: SocketAddr, src: SocketAddr)
    ensures
        source_towards(mode, address, src) matches Ok(Some(source)) ==> source.port == src.port,
{
}

/// A source that is kept crosses families as it should: IPv4 to IPv4 and IPv6
/// to IPv6 directly, IPv4 to IPv6 under the prefix for translated addresses,
/// and IPv6 to IPv4 only by way of a fallback. An IPv4 client is one whether
/// or not a dual-stack socket reported it.
pub proof fn law_kept_sources_by_family(
    address: SocketAddr,
    src: SocketAddr,
    fallback_ipv4: Option<Ipv4Addr>,
    payload: Seq<u8>,
)
    ensures
        ({
            let mode = SendMode::PreserveSrcAddr { fallback_ipv4 };
            let source = source_towards(mode, address, src);
            let client = src.unwrapped();
            let s = client.ip.octets();
            let d = address.ip.octets();
            let raw = |from: SocketAddr|
                raw_socket::datagram(address.ip is V6, from, address, payload);
            match (client.ip, address.ip) {
                (IpAddr::V4(_), IpAddr::V4(_)) => {
                    &&& source == Ok::<Option<SocketAddr>, ()>(Some(client))
                    &&& raw(client) == Some(
                        raw_socket::header_v4(s, d, payload) + raw_socket::segment_v4(
                            s,
                            d,
                            src.port,
                            address.port,
                            payload,
                        ),
                    )
                },
                (IpAddr::V4(_), IpAddr::V6(_)) => {
                    &&& source == Ok::<Option<SocketAddr>, ()>(Some(client))
                    &&& raw(client) == Some(
                        raw_socket::packet_v6(
                            raw_socket::mapped(s),
                            d,
                            src.port,
                            address.port,
                            payload,
                        ),
                    )
                },
                (IpAddr::V6(_), IpAddr::V6(_)) => {
                    &&& source == Ok::<Option<SocketAddr>, ()>(Some(src))
                    &&& raw(src) == Some(
                        raw_socket::packet_v6(s, d, src.port, address.port, payload),
                    )
                },
                (IpAddr::V6(_), IpAddr::V4(_)) => match fallback_ipv4 {
                    None => source == Err::<Option<SocketAddr>, ()>(()),
                    Some(ip) => {
                        let from = SocketAddr::of(IpAddr::V4(ip), src.port);
                        &&& source == Ok::<Option<SocketAddr>, ()>(Some(from))
                        &&& raw(from) is Some
                    },
                },
            }
        }),
{
}

/// An IPv4 client is the same client whether an IPv4 socket or a dual-stack
/// socket reports it: its packets carry the same source.
pub proof fn law_dual_stack_clients_are_ipv4_clients(
    mode: SendMode,
    address: SocketAddr,
    plain: SocketAddr,
    reported: SocketAddr,
)
    requires
        plain.ip is V4,
        plain == SocketAddr::of(plain.ip, plain.port),
        reported.ip.is_wrapped_ipv4(),
        reported.ip.unwrapped() == plain.ip,
        reported.port == plain.port,
    ensures
        source_towards(mode, address, reported) == source_towards(mode, address, plain),
{
}

/// Whatever is planned for a raw socket of the backend's family can be sent
/// through it, wherever the configuration checks that a fixed source fits.
pub proof fn law_planned_sources_fit_the_socket(
    mode: SendMode,
    address: SocketAddr,
    src: SocketAddr,
    payload: Seq<u8>,
)
    requires
        mode matches SendMode::FakeSrcAddr(ip) ==> ip is V4 || address.ip is V6,
    ensures
        source_towards(mode, address, src) matches Ok(Some(source)) ==> raw_socket::datagram(
            address.ip is V6,
            source,
            address,
            payload,
        ) is Some,
{
}

/// Between never and always, it is the draw that decides: a packet with a
/// probability between nought and one is sent on exactly the draws below it.
/// For the draws there are, from nought up to one, that is decided by the bits.
pub proof fn law_sampled_by_the_draw(probability: Number, draw: Number)
    requires
        Number::nought().below(probability),
        probability.below(Number::unit()),
        Number::nought().at_most(draw),
        draw.below(Number::unit()),
    ensures
        sends(probability, draw) <==> draw.below(probability),
        draw.bits < 0x3FF0_0000_0000_0000 ==> (sends(probability, draw) <==> draw.bits
            < probability.bits),
{
}

/// A smaller draw sends wherever a larger one does, so that the draws that
/// send are those up to a limit, and the limit is the probability.
pub proof fn law_smaller_draws_send_too(probability: Number, smaller: Number, larger: Number)
    requires
        smaller.at_most(larger),
        sends(probability, larger),
    ensures
        sends(probability, smaller),
{
}

/// On every draw below one, a probability that is a number sends exactly when
/// the draw is below it, unless it is not above nought.
pub proof fn law_every_probability_samples(probability: Number, draw: Number)
    requires
        probability.is_number(),
        Number::nought().at_most(draw),
        draw.below(Number::unit()),
    ensures
        sends(probability, draw) <==> draw.below(probability),
{
}

/// Nothing is sent by a probability that is not a number.
pub proof fn law_no_probability_sends_nothing(probability: Number, draw: Number)
    requires
        !probability.is_number(),
    ensures
        !sends(probability, draw),
{
}

/// A fixed source is what every packet carries, with the client's port, no
/// matter which families the client, the source and the target are of.
pub proof fn law_fixed_source_is_carried(
    ip: IpAddr,
    address: SocketAddr,
    other: SocketAddr,
    src: SocketAddr,
)
    ensures
        source_towards(SendMode::FakeSrcAddr(ip), address, src) matches Ok(Some(source))
            && source.ip == ip && source.port == src.port && source.flowinfo == 0 && source.scope_id
            == 0,
        source_towards(SendMode::FakeSrcAddr(ip), address, src) == source_towards(
            SendMode::FakeSrcAddr(ip),
            other,
            src,
        ),
{
}

/// A kept source is the client's own address and port, but for an IPv6 client
/// towards an IPv4 target: there it is the fallback, with the client's port,
/// and without one nothing can be sent.
pub proof fn law_kept_source_is_the_client(
    fallback: Option<Ipv4Addr>,
    address: SocketAddr,
    src: SocketAddr,
)
    ensures
        ({
            let source = source_towards(
                SendMode::PreserveSrcAddr { fallback_ipv4: fallback },
                address,
                src,
            );
            if src.ip.unwrapped() is V6 && address.ip is V4 {
                match fallback {
                    Some(ip) => source matches Ok(Some(s)) && s.ip == IpAddr::V4(ip) && s.port
                        == src.port,
                    None => source is Err,
                }
            } else {
                &&& source matches Ok(Some(s)) && s.ip == src.ip.unwrapped() && s.port == src.port
                &&& src.ip.unwrapped() == src.ip ==> source == Ok::<Option<SocketAddr>, ()>(
                    Some(src),
                )
            }
        }),
{
}

/// Without a source to carry, the balancer's own is used, for every client and
/// every target.
pub proof fn law_standard_sends_as_itself(address: SocketAddr, src: SocketAddr)
    ensures
        source_towards(SendMode::Standard, address, src) == Ok::<Option<SocketAddr>, ()>(None),
{
}

/// An ordinary socket is bound to any address of the target's family, at port
/// nought, whatever the target's address and port.
pub proof fn law_bound_by_family(address: SocketAddr)
    ensures
        address.ip is V4 ==> bind_text(address) == "0.0.0.0:0"@,
        address.ip is V6 ==> bind_text(address) == "[::]:0"@,
{
}

/// The errors of a backend, in words, with what the system said.
pub proof fn law_backend_errors_in_words(e: String)
    ensures
        BackendError::SocketCreation(e).text() == "failed to create socket: "@ + e@,
        BackendError::SendFailed(e).text() == "failed to send packet: "@ + e@,
        BackendError::RawSocketNotSupported.text() == "raw socket not supported on this platform"@,
{
}

} // verus!
