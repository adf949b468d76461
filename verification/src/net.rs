//! Internet addresses as plain values.
use vstd::prelude::*;

verus! {

#[derive(Clone, Copy, PartialEq, Eq, Debug)]
pub struct Ipv4Addr {
    pub octets: [u8; 4],
}

#[derive(Clone, Copy, PartialEq, Eq, Debug)]
pub struct Ipv6Addr {
    pub octets: [u8; 16],
}

#[derive(Clone, Copy, PartialEq, Eq, Debug)]
pub enum IpAddr {
    V4(Ipv4Addr),
    V6(Ipv6Addr),
}

impl IpAddr {
    /// The octets of the address, in network order.
    pub open spec fn octets(self) -> Seq<u8> {
        match self {
            IpAddr::V4(ip) => ip.octets@,
            IpAddr::V6(ip) => ip.octets@,
        }
    }

    /// The address is an IPv4 address as a dual-stack socket reports it:
    /// `::ffff:a.b.c.d`.
    pub open spec fn is_wrapped_ipv4(self) -> bool {
        self matches IpAddr::V6(ip) && {
            let o = ip.octets@;
            &&& forall|i: int| 0 <= i < 10 ==> #[trigger] o[i] == 0
            &&& o[10] == 0xFF
            &&& o[11] == 0xFF
        }
    }

    /// The IPv4 address in one that a dual-stack socket reports, and any other
    /// address as it is.
    pub open spec fn unwrapped(self) -> IpAddr {
        match self {
            IpAddr::V6(ip) if self.is_wrapped_ipv4() => IpAddr::V4(
                Ipv4Addr {
                    octets: [ip.octets[12], ip.octets[13], ip.octets[14], ip.octets[15]],
                },
            ),
            _ => self,
        }
    }

    /// The IPv4 address in one that a dual-stack socket reports, and any other
    /// address as it is.
    pub fn unwrap_ipv4(self) -> (ip: IpAddr)
        ensures
            ip == self.unwrapped(),
    {
        match self {
            IpAddr::V6(ip) => {
                let o: [u8; 16] = ip.octets;
                let mut i: usize = 0;
                while i < 10
                    invariant
                        i <= 10,
                        o == ip.octets,
                        self == IpAddr::V6(ip),
                        forall|j: int| 0 <= j < i ==> #[trigger] o@[j] == 0,
                    decreases 10 - i,
                {
                    if o[i] != 0 {
                        assert(ip.octets@[i as int] != 0);
                        return self;
                    }
                    i = i + 1;
                }
                if o[10] == 0xFF && o[11] == 0xFF {
                    IpAddr::V4(Ipv4Addr { octets: [o[12], o[13], o[14], o[15]] })
                } else {
                    self
                }
            },
            IpAddr::V4(_) => self,
        }
    }

    pub fn is_ipv4(&self) -> (b: bool)
        ensures
            b == (*self is V4),
    {
        match self {
            IpAddr::V4(_) => true,
            IpAddr::V6(_) => false,
        }
    }

    pub fn is_ipv6(&self) -> (b: bool)
        ensures
            b == (*self is V6),
    {
        !self.is_ipv4()
    }
}

/// An address and a port. The flow label and the scope are those of an IPv6
/// address and zero for IPv4.
#[derive(Clone, Copy, PartialEq, Eq, Debug)]
pub struct SocketAddr {
    pub ip: IpAddr,
    pub port: u16,
    pub flowinfo: u32,
    pub scope_id: u32,
}

impl SocketAddr {
    pub open spec fn of(ip: IpAddr, port: u16) -> SocketAddr {
        SocketAddr { ip, port, flowinfo: 0, scope_id: 0 }
    }

    pub fn new(ip: IpAddr, port: u16) -> (a: SocketAddr)
        ensures
            a == SocketAddr::of(ip, port),
    {
        SocketAddr { ip, port, flowinfo: 0, scope_id: 0 }
    }

    /// The address of the client itself: the IPv4 address in one that a
    /// dual-stack socket reports, and any other as it is.
    pub open spec fn unwrapped(self) -> SocketAddr {
        if self.ip.is_wrapped_ipv4() {
            SocketAddr::of(self.ip.unwrapped(), self.port)
        } else {
            self
        }
    }

    /// The address of the client itself: the IPv4 address in one that a
    /// dual-stack socket reports, and any other as it is.
    pub fn unwrap_ipv4(self) -> (a: SocketAddr)
        ensures
            a == self.unwrapped(),
    {
        if self.ip.is_ipv4() {
            return self;
        }
        let ip = self.ip.unwrap_ipv4();
        if ip.is_ipv4() {
            SocketAddr::new(ip, self.port)
        } else {
            self
        }
    }

    pub fn ip(&self) -> (ip: IpAddr)
        ensures
            ip == self.ip,
    {
        self.ip
    }

    pub fn port(&self) -> (port: u16)
        ensures
            port == self.port,
    {
        self.port
    }

    pub fn is_ipv4(&self) -> (b: bool)
        ensures
            b == (self.ip is V4),
    {
        self.ip.is_ipv4()
    }

    pub fn is_ipv6(&self) -> (b: bool)
        ensures
            b == (self.ip is V6),
    {
        self.ip.is_ipv6()
    }
}

/// A dual-stack socket's address is an IPv4 address exactly when it starts
/// with ten octets of zero and two of 255, and then the last four octets are
/// that address. Every other address stands for itself.
pub proof fn law_unwrapped_addresses(ip: IpAddr)
    ensures
        ip is V4 ==> ip.unwrapped() == ip,
        ip matches IpAddr::V6(six) ==> if six.octets@.take(12) == seq![
            0u8, 0, 0, 0, 0, 0, 0, 0, 0, 0, 255, 255,
        ] {
            ip.unwrapped() is V4 && ip.unwrapped().octets() == six.octets@.skip(12)
        } else {
            ip.unwrapped() == ip
        },
{
    if let IpAddr::V6(six) = ip {
        let start = seq![0u8, 0, 0, 0, 0, 0, 0, 0, 0, 0, 255, 255];
        let o = six.octets@;
        if o.take(12) == start {
            assert forall|i: int| 0 <= i < 10 implies #[trigger] o[i] == 0 by {
                assert(o.take(12)[i] == start[i]);
            }
            assert(o.take(12)[10] == start[10]);
            assert(o.take(12)[11] == start[11]);
            assert(ip.unwrapped().octets() =~= o.skip(12));
        } else if ip.is_wrapped_ipv4() {
            assert(o.take(12) =~= start);
        }
    }
}

/// The address of a client keeps its port, whatever it is reported as, and
/// nothing else is changed of one that is not an IPv4 address in disguise.
pub proof fn law_unwrapped_ends(a: SocketAddr)
    ensures
        a.unwrapped().ip == a.ip.unwrapped(),
        a.unwrapped().port == a.port,
        a.ip.unwrapped() == a.ip ==> a.unwrapped() == a,
        a.ip.unwrapped() != a.ip ==> a.unwrapped().flowinfo == 0 && a.unwrapped().scope_id == 0,
        a.unwrapped().unwrapped() == a.unwrapped(),
{
}

/// An address with a port is just that: no flow label and no scope.
pub proof fn law_plain_ends(ip: IpAddr, port: u16)
    ensures
        SocketAddr::of(ip, port).ip == ip,
        SocketAddr::of(ip, port).port == port,
        SocketAddr::of(ip, port).flowinfo == 0,
        SocketAddr::of(ip, port).scope_id == 0,
{
}

/// The octets of an address tell it from every other of its family: four of
/// them for IPv4, sixteen for IPv6.
pub proof fn law_octets_are_the_address(ip: IpAddr)
    ensures
        ip matches IpAddr::V4(four) ==> ip.octets() == four.octets@ && ip.octets().len() == 4,
        ip matches IpAddr::V6(six) ==> ip.octets() == six.octets@ && ip.octets().len() == 16,
{
}

} // verus!
