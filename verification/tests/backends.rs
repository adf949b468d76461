use udp_balancer::balancer::backend::{
    bind_addr, BackendError, OpenFailure, Outgoing, SendMode, Transport, UdpBackend,
};
use udp_balancer::balancer::mirror::Mirror;
use udp_balancer::metrics::{get_mirror_stats, init_metrics, MirrorStats};
use udp_balancer::net::{IpAddr, Ipv4Addr, Ipv6Addr, SocketAddr};
use udp_balancer::number::Number;
use udp_balancer::raw_socket::RawSocketError;

fn n(x: f64) -> Number {
    Number::from_bits(x.to_bits())
}

fn f(x: Number) -> f64 {
    f64::from_bits(x.to_bits())
}

fn v4(a: u8, b: u8, c: u8, d: u8, port: u16) -> SocketAddr {
    SocketAddr::new(IpAddr::V4(Ipv4Addr { octets: [a, b, c, d] }), port)
}

fn localhost6(port: u16) -> SocketAddr {
    let mut octets = [0u8; 16];
    octets[15] = 1;
    SocketAddr::new(IpAddr::V6(Ipv6Addr { octets }), port)
}

fn open(address: SocketAddr, mode: SendMode, probability: f64, weight: f64) -> UdpBackend {
    UdpBackend::new(address, "label".to_string(), mode, n(probability), n(weight), Ok(())).unwrap()
}

#[test]
fn test_backend_standard_mode_creation() {
    let addr = v4(127, 0, 0, 1, 9999);
    let backend = UdpBackend::new(
        addr,
        "127.0.0.1:9999".to_string(),
        SendMode::Standard,
        n(1.0),
        n(1.0),
        Ok(()),
    );
    assert!(backend.is_ok());
    let backend = backend.unwrap();
    assert_eq!(backend.address(), addr);
    assert!(backend.is_alive());
    assert_eq!(UdpBackend::transport(addr, SendMode::Standard), Transport::Connected);
    assert_eq!(bind_addr(addr), "0.0.0.0:0");
}

#[test]
fn test_backend_ipv6_standard() {
    let addr = localhost6(9999);
    let backend = UdpBackend::new(
        addr,
        "[::1]:9999".to_string(),
        SendMode::Standard,
        n(1.0),
        n(1.0),
        Ok(()),
    );
    assert!(backend.is_ok());
    assert_eq!(bind_addr(addr), "[::]:0");
}

#[test]
fn test_backend_alive_toggle() {
    let mut backend = open(v4(127, 0, 0, 1, 9999), SendMode::Standard, 1.0, 1.0);
    assert!(backend.is_alive());
    backend.set_alive(false);
    assert!(!backend.is_alive());
    backend.set_alive(true);
    assert!(backend.is_alive());
}

#[test]
fn test_backend_weight() {
    let backend = open(v4(127, 0, 0, 1, 9999), SendMode::Standard, 1.0, 2.5);
    assert!((f(backend.weight()) - 2.5).abs() < f64::EPSILON);
}

#[test]
fn test_backend_should_send_always() {
    let backend = open(v4(127, 0, 0, 1, 9999), SendMode::Standard, 1.0, 1.0);
    for i in 0..100 {
        assert!(backend.should_send(n(i as f64 / 100.0)));
    }
}

#[test]
fn test_backend_should_send_never() {
    let backend = open(v4(127, 0, 0, 1, 9999), SendMode::Standard, 0.0, 1.0);
    for i in 0..100 {
        assert!(!backend.should_send(n(i as f64 / 100.0)));
    }
}

#[test]
fn test_backend_should_send_probability() {
    let backend = open(v4(127, 0, 0, 1, 9999), SendMode::Standard, 0.5, 1.0);
    let mut sent_count = 0;
    let iterations = 1000;
    for _ in 0..iterations {
        if backend.should_send(n(rand::random::<f64>())) {
            sent_count += 1;
        }
    }
    let ratio = sent_count as f64 / iterations as f64;
    assert!(ratio > 0.3 && ratio < 0.7);
    assert!(backend.should_send(n(0.25)));
    assert!(!backend.should_send(n(0.5)));
}

#[test]
fn test_send_mode_variants() {
    assert_eq!(SendMode::Standard, SendMode::Standard);
    assert_eq!(
        SendMode::PreserveSrcAddr { fallback_ipv4: None },
        SendMode::PreserveSrcAddr { fallback_ipv4: None }
    );
    let ip = Ipv4Addr { octets: [192, 0, 2, 1] };
    assert_eq!(
        SendMode::PreserveSrcAddr { fallback_ipv4: Some(ip) },
        SendMode::PreserveSrcAddr { fallback_ipv4: Some(ip) }
    );
    let fake_ip = IpAddr::V4(ip);
    assert_eq!(SendMode::FakeSrcAddr(fake_ip), SendMode::FakeSrcAddr(fake_ip));
}

#[test]
fn test_raw_socket_not_supported() {
    let result = UdpBackend::new(
        v4(127, 0, 0, 1, 9999),
        "127.0.0.1:9999".to_string(),
        SendMode::PreserveSrcAddr { fallback_ipv4: None },
        n(1.0),
        n(1.0),
        Err(OpenFailure::Raw(RawSocketError::NotSupported)),
    );
    assert!(matches!(result, Err(BackendError::RawSocketNotSupported)));
}

#[test]
fn sockets_that_do_not_open_are_errors() {
    let make = |failure| {
        UdpBackend::new(
            v4(127, 0, 0, 1, 9999),
            "127.0.0.1:9999".to_string(),
            SendMode::Standard,
            n(1.0),
            n(1.0),
            Err(failure),
        )
        .unwrap_err()
        .message()
    };
    assert_eq!(
        make(OpenFailure::Connected("denied".to_string())),
        "failed to create socket: denied"
    );
    assert_eq!(
        make(OpenFailure::Raw(RawSocketError::SocketCreation("denied".to_string()))),
        "failed to send packet: socket creation failed: denied"
    );
    assert_eq!(
        make(OpenFailure::Raw(RawSocketError::NotSupported)),
        "raw socket not supported on this platform"
    );
}

#[test]
fn raw_modes_need_raw_sockets_of_the_family() {
    let fake = SendMode::FakeSrcAddr(IpAddr::V4(Ipv4Addr { octets: [192, 0, 2, 1] }));
    assert_eq!(UdpBackend::transport(v4(10, 0, 0, 1, 1), fake), Transport::RawV4);
    assert_eq!(UdpBackend::transport(localhost6(1), fake), Transport::RawV6);
}

#[test]
fn sources_of_packets() {
    let draw = n(0.5);
    let client = v4(192, 168, 1, 1, 4000);
    let client6 = localhost6(4000);
    let backend = v4(10, 0, 0, 1, 514);

    let standard = open(backend, SendMode::Standard, 1.0, 1.0);
    assert_eq!(standard.send(client, draw).unwrap(), Outgoing::Socket);

    let kept = open(backend, SendMode::PreserveSrcAddr { fallback_ipv4: None }, 1.0, 1.0);
    assert_eq!(kept.send(client, draw).unwrap(), Outgoing::Raw(client));
    assert_eq!(
        kept.send(client6, draw).unwrap_err().message(),
        "failed to send packet: IPv6 client to IPv4 backend requires fallback_source_address"
    );

    let ip = Ipv4Addr { octets: [192, 0, 2, 100] };
    let fallback = SendMode::PreserveSrcAddr { fallback_ipv4: Some(ip) };
    let replaced = open(backend, fallback, 1.0, 1.0);
    assert_eq!(
        replaced.send(client6, draw).unwrap(),
        Outgoing::Raw(v4(192, 0, 2, 100, 4000))
    );
    let six = open(localhost6(514), fallback, 1.0, 1.0);
    assert_eq!(six.send(client6, draw).unwrap(), Outgoing::Raw(client6));

    let fake = open(backend, SendMode::FakeSrcAddr(IpAddr::V4(ip)), 1.0, 1.0);
    assert_eq!(
        fake.send(client, draw).unwrap(),
        Outgoing::Raw(v4(192, 0, 2, 100, 4000))
    );

    let never = open(backend, SendMode::Standard, 0.0, 1.0);
    assert_eq!(never.send(client, draw).unwrap(), Outgoing::Nothing);
}

#[test]
fn outcomes_of_sending() {
    assert_eq!(UdpBackend::sent(Ok(7)).unwrap(), 7);
    assert_eq!(
        UdpBackend::sent(Err("gone".to_string())).unwrap_err().message(),
        "failed to send packet: gone"
    );
    assert_eq!(UdpBackend::sent_raw(Ok(7)).unwrap(), 7);
    assert_eq!(
        UdpBackend::sent_raw(Err(RawSocketError::AddressFamilyMismatch)).unwrap_err().message(),
        "failed to send packet: address family mismatch"
    );
}

fn create_mirror_backends() -> Vec<UdpBackend> {
    (0..3)
        .map(|i| open(v4(127, 0, 0, 1, 20000 + i), SendMode::Standard, 1.0, 1.0))
        .collect()
}

#[test]
fn test_mirror_creation() {
    let mirror = Mirror::new(create_mirror_backends(), ":514".to_string());
    assert_eq!(mirror.backends().len(), 3);
}

#[test]
fn test_mirror_with_probability() {
    let mut metrics = init_metrics();
    let backend = open(v4(127, 0, 0, 1, 20001), SendMode::Standard, 0.5, 1.0);
    let mirror = Mirror::new(vec![backend], ":514".to_string());
    let src = v4(192, 168, 1, 1, 12345);
    for i in 0..10 {
        let outgoing = mirror.mirror(&mut metrics, 0, src, n(i as f64 / 10.0)).unwrap();
        let expected = if i < 5 { Outgoing::Socket } else { Outgoing::Nothing };
        assert_eq!(outgoing, expected);
        if outgoing == Outgoing::Socket {
            mirror.sent(&mut metrics, 0, Ok(4));
        }
    }
    let stats = get_mirror_stats(&metrics, ":514", "label");
    assert_eq!(stats, MirrorStats { tx_packets: 5, tx_bytes: 20, tx_failed: 0 });
}

#[test]
fn test_mirror_empty() {
    let mirror = Mirror::new(vec![], ":514".to_string());
    assert!(mirror.backends().is_empty());
}

#[test]
fn mirrors_count_what_fails() {
    let mut metrics = init_metrics();
    let mode = SendMode::PreserveSrcAddr { fallback_ipv4: None };
    let backend = open(v4(127, 0, 0, 1, 20001), mode, 1.0, 1.0);
    let mut mirror = Mirror::new(vec![backend], ":514".to_string());
    assert_eq!(mirror.listener_addr(), ":514");
    mirror.set_listener_addr("[::]:514".to_string());
    assert_eq!(mirror.listener_addr(), "[::]:514");
    assert!(mirror.mirror(&mut metrics, 0, localhost6(9), n(0.0)).is_err());
    mirror.sent(&mut metrics, 0, Err(BackendError::SendFailed("gone".to_string())));
    mirror.sent(&mut metrics, 0, Ok(0));
    let stats = get_mirror_stats(&metrics, "[::]:514", "label");
    assert_eq!(stats, MirrorStats { tx_packets: 0, tx_bytes: 0, tx_failed: 2 });
}

fn wrapped(a: u8, b: u8, c: u8, d: u8, port: u16) -> SocketAddr {
    let octets = [0, 0, 0, 0, 0, 0, 0, 0, 0, 0, 0xFF, 0xFF, a, b, c, d];
    SocketAddr::new(IpAddr::V6(Ipv6Addr { octets }), port)
}

#[test]
fn ipv4_clients_of_a_dual_stack_listener_are_ipv4_clients() {
    let reported = wrapped(192, 0, 2, 7, 5000);
    let client = v4(192, 0, 2, 7, 5000);
    for fallback_ipv4 in [None, Some(Ipv4Addr { octets: [203, 0, 113, 1] })] {
        let mode = SendMode::PreserveSrcAddr { fallback_ipv4 };
        for address in [v4(10, 0, 0, 1, 514), localhost6(514)] {
            let backend = open(address, mode, 1.0, 1.0);
            assert_eq!(backend.send(reported, n(0.5)).unwrap(), Outgoing::Raw(client));
        }
    }
    assert_eq!(reported.unwrap_ipv4(), client);
    assert_eq!(client.unwrap_ipv4(), client);
    assert_eq!(localhost6(9).unwrap_ipv4(), localhost6(9));
    let almost = SocketAddr::new(
        IpAddr::V6(Ipv6Addr {
            octets: [0, 0, 0, 0, 0, 0, 0, 0, 0, 1, 0xFF, 0xFF, 192, 0, 2, 7],
        }),
        5000,
    );
    assert_eq!(almost.unwrap_ipv4(), almost);
}

#[test]
fn every_mirror_gets_its_own_copy() {
    let mut m = init_metrics();
    let plain = v4(10, 0, 0, 1, 514);
    let kept = SendMode::PreserveSrcAddr { fallback_ipv4: None };
    let mut half = open(plain, SendMode::Standard, 0.5, 1.0);
    half.label = "half".to_string();
    let mut raw = open(plain, kept, 1.0, 1.0);
    raw.label = "raw".to_string();
    let mut raw6 = open(localhost6(514), kept, 1.0, 1.0);
    raw6.label = "raw6".to_string();
    let mirror = Mirror::new(vec![half, raw, raw6], ":514".to_string());

    let client = localhost6(4000);
    let plans = mirror.mirror_all(&mut m, client, &vec![n(0.4), n(0.9), n(0.9)]);
    assert_eq!(plans.len(), 3);
    assert_eq!(plans[0].as_ref().unwrap(), &Outgoing::Socket);
    assert!(matches!(plans[1], Err(BackendError::SendFailed(_))));
    assert_eq!(plans[2].as_ref().unwrap(), &Outgoing::Raw(client));
    assert_eq!(get_mirror_stats(&m, ":514", "half").tx_failed, 0);
    assert_eq!(get_mirror_stats(&m, ":514", "raw").tx_failed, 1);
    assert_eq!(get_mirror_stats(&m, ":514", "raw6").tx_failed, 0);

    let client = v4(192, 0, 2, 7, 4000);
    let plans = mirror.mirror_all(&mut m, client, &vec![n(0.5), n(0.9), n(0.9)]);
    assert_eq!(plans[0].as_ref().unwrap(), &Outgoing::Nothing);
    assert_eq!(plans[1].as_ref().unwrap(), &Outgoing::Raw(client));
    assert_eq!(get_mirror_stats(&m, ":514", "raw").tx_failed, 1);
}
