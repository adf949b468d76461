use udp_balancer::balancer::backend::{SendMode, UdpBackend};
use udp_balancer::balancer::dispatch::{Arithmetic, Balancer, Event, Forward, Progress};
use udp_balancer::config::{Algorithm, HashKeyField};
use udp_balancer::metrics::{get_backend_stats, init_metrics};
use udp_balancer::net::{IpAddr, Ipv4Addr, Ipv6Addr, SocketAddr};
use udp_balancer::number::Number;
use udp_balancer::raw_socket::RawSocketError;
use udp_balancer::time::{Duration, Instant};

fn n(x: f64) -> Number {
    Number::from_bits(x.to_bits())
}

fn f(x: Number) -> f64 {
    f64::from_bits(x.to_bits())
}

type Binary = fn(Number, Number) -> Number;

fn arithmetic() -> Arithmetic<Binary, Binary, fn(Number, Number) -> usize, fn(u64, Number) -> Number>
{
    Arithmetic {
        rest: |a, b| n(f(a) % f(b)),
        lower: |a, b| n(f(a) - f(b)),
        repetitions: |a, b| (f(a) / f(b)).round() as usize,
        score: |h, w| n((-((h as f64) / (u64::MAX as f64)).ln()).powf(1.0 / f(w))),
    }
}

fn v4(a: u8, b: u8, c: u8, d: u8, port: u16) -> SocketAddr {
    SocketAddr::new(IpAddr::V4(Ipv4Addr { octets: [a, b, c, d] }), port)
}

fn localhost6(port: u16) -> SocketAddr {
    let mut octets = [0u8; 16];
    octets[15] = 1;
    SocketAddr::new(IpAddr::V6(Ipv6Addr { octets }), port)
}

fn backend(last: u8, mode: SendMode) -> UdpBackend {
    UdpBackend::new(
        v4(10, 0, 0, last, 2055),
        format!("10.0.0.{}:2055", last),
        mode,
        n(1.0),
        n(1.0),
        Ok(()),
    )
    .unwrap()
}

fn balancer(algorithm: Algorithm, mode: SendMode) -> Balancer {
    let backends = vec![backend(1, mode), backend(2, mode), backend(3, mode)];
    Balancer::new(
        algorithm,
        backends,
        vec![HashKeyField::SrcIp],
        ":2055".to_string(),
        Duration::from_secs(30),
        &arithmetic(),
    )
}

const NOW: Instant = Instant { nanos: 1_000_000_000 };

#[test]
fn a_packet_opens_a_session_and_the_next_one_reuses_it() {
    let mut metrics = init_metrics();
    let mut b = balancer(Algorithm::Rh, SendMode::Standard);
    let client = v4(192, 168, 1, 1, 4000);
    let listener = v4(0, 0, 0, 0, 2055);
    let first = b
        .forward(&mut metrics, client, listener, b"one", n(0.5), NOW, &arithmetic())
        .unwrap();
    let index = match first {
        Forward::Open { backend } => backend,
        other => panic!("{:?}", other),
    };
    assert_eq!(b.session_opened(&mut metrics, index, client, Ok(77), NOW), Ok(77));
    assert_eq!(b.session_manager().session_count(), 1);
    let second = b
        .forward(&mut metrics, client, listener, b"two", n(0.5), NOW, &arithmetic())
        .unwrap();
    assert_eq!(second, Forward::Send { backend: index, socket: 77 });

    let label = b.backends()[index].label.clone();
    assert_eq!(b.sent(&mut metrics, index, Ok(3)), Ok(true));
    assert_eq!(b.sent(&mut metrics, index, Ok(0)), Ok(false));
    assert_eq!(b.sent(&mut metrics, index, Err("gone".to_string())), Err("gone".to_string()));
    let mut buf = vec![0u8; 16];
    buf[0] = b'o';
    buf[1] = b'k';
    let response = b.responded(&mut metrics, index, Some(2), buf.clone());
    assert_eq!(response, Some(b"ok".to_vec()));
    assert_eq!(b.responded(&mut metrics, index, Some(0), buf.clone()), None);
    assert_eq!(b.responded(&mut metrics, index, None, buf), None);
    let stats = get_backend_stats(&metrics, ":2055", &label);
    assert_eq!(
        (stats.tx_packets, stats.tx_bytes, stats.tx_failed, stats.rx_packets, stats.rx_bytes),
        (1, 3, 1, 1, 2)
    );
}

#[test]
fn a_session_that_cannot_be_opened_is_an_error() {
    let mut metrics = init_metrics();
    let mut b = balancer(Algorithm::Wrr, SendMode::Standard);
    let client = v4(192, 168, 1, 1, 4000);
    assert_eq!(
        b.session_opened(&mut metrics, 0, client, Err("too many files".to_string()), NOW),
        Err("failed to create session: too many files".to_string())
    );
    assert_eq!(b.session_manager().session_count(), 0);
    let stats = get_backend_stats(&metrics, ":2055", "10.0.0.1:2055");
    assert_eq!((stats.tx_packets, stats.tx_failed), (0, 1));
}

#[test]
fn without_backends_there_is_no_forwarding() {
    let mut metrics = init_metrics();
    for algorithm in [Algorithm::Wrr, Algorithm::Rh, Algorithm::Maglev] {
        let mut b = balancer(algorithm, SendMode::Standard);
        for i in 0..3 {
            b.set_alive(i, false);
        }
        let client = v4(192, 168, 1, 1, 4000);
        let r = b.forward(&mut metrics, client, client, b"x", n(0.5), NOW, &arithmetic());
        assert_eq!(r, Err("no available backends".to_string()));
    }
}

#[test]
fn raw_packets_carry_their_source() {
    let mut metrics = init_metrics();
    let mut b = balancer(Algorithm::Wrr, SendMode::PreserveSrcAddr { fallback_ipv4: None });
    let client = v4(192, 168, 1, 1, 4000);
    let listener = v4(0, 0, 0, 0, 2055);
    let r = b.forward(&mut metrics, client, listener, b"x", n(0.5), NOW, &arithmetic());
    assert_eq!(r, Ok(Forward::Raw { backend: 0, source: client }));
    assert_eq!(b.sent_raw(&mut metrics, 0, Ok(29)), Ok(()));
    assert_eq!(b.sent_raw(&mut metrics, 0, Ok(0)), Ok(()));
    assert_eq!(
        b.sent_raw(&mut metrics, 0, Err(RawSocketError::AddressFamilyMismatch)),
        Err("failed to send packet: address family mismatch".to_string())
    );
    let stats = get_backend_stats(&metrics, ":2055", "10.0.0.1:2055");
    assert_eq!((stats.tx_packets, stats.tx_bytes, stats.tx_failed), (1, 29, 1));

    let r = b.forward(&mut metrics, localhost6(9), listener, b"x", n(0.5), NOW, &arithmetic());
    assert_eq!(
        r,
        Err("failed to send packet: IPv6 client to IPv4 backend requires \
             fallback_source_address"
            .to_string())
    );
    let stats = get_backend_stats(&metrics, ":2055", "10.0.0.2:2055");
    assert_eq!((stats.tx_packets, stats.tx_failed), (0, 1));
}

#[test]
fn raw_packets_are_sampled() {
    let mut metrics = init_metrics();
    let ip = IpAddr::V4(Ipv4Addr { octets: [192, 0, 2, 1] });
    let mut half = backend(1, SendMode::FakeSrcAddr(ip));
    half.probability = n(0.5);
    let mut b = Balancer::new(
        Algorithm::Rh,
        vec![half],
        vec![HashKeyField::SrcIp],
        ":2055".to_string(),
        Duration::from_secs(30),
        &arithmetic(),
    );
    let client = v4(192, 168, 1, 1, 4000);
    let r = b.forward(&mut metrics, client, client, b"x", n(0.5), NOW, &arithmetic());
    assert_eq!(r, Ok(Forward::Done));
    let r = b.forward(&mut metrics, client, client, b"x", n(0.49), NOW, &arithmetic());
    assert_eq!(r, Ok(Forward::Raw { backend: 0, source: v4(192, 0, 2, 1, 4000) }));
}

#[test]
fn one_flow_goes_to_one_backend() {
    for algorithm in [Algorithm::Rh, Algorithm::Maglev] {
        let mut b = balancer(algorithm, SendMode::Standard);
        let listener = v4(0, 0, 0, 0, 2055);
        let first = b.select(v4(192, 168, 1, 7, 1000), listener, b"a", &arithmetic());
        assert!(first.is_some());
        for port in 1001..1050 {
            let again = b.select(v4(192, 168, 1, 7, port), listener, b"b", &arithmetic());
            assert_eq!(again, first);
        }
    }
}

#[test]
fn sessions_of_a_balancer_expire() {
    let mut metrics = init_metrics();
    let mut b = balancer(Algorithm::Wrr, SendMode::Standard);
    let client = v4(192, 168, 1, 1, 4000);
    b.session_opened(&mut metrics, 0, client, Ok(1), NOW).unwrap();
    assert_eq!(b.cleanup_interval(), Duration::from_secs(15));
    assert_eq!(b.proxy_timeout(), Duration::from_secs(30));
    assert_eq!(b.cleanup_expired(Instant { nanos: 31_000_000_000 }), 0);
    assert_eq!(b.cleanup_expired(Instant { nanos: 31_000_000_001 }), 1);
    assert_eq!(b.session_manager().session_count(), 0);
}

#[test]
fn the_listener_is_renamed_once_it_is_bound() {
    let mut b = balancer(Algorithm::Maglev, SendMode::Standard);
    assert_eq!(b.listener_addr(), ":2055");
    b.set_listener_addr("[::]:2055".to_string());
    assert_eq!(b.listener_addr(), "[::]:2055");
    assert_eq!(b.hash_key_fields(), &[HashKeyField::SrcIp]);
    assert_eq!(b.algorithm_type(), Algorithm::Maglev);
}

#[test]
fn a_packet_goes_its_way_step_by_step() {
    let mut metrics = init_metrics();
    let mut b = balancer(Algorithm::Rh, SendMode::Standard);
    let client = v4(192, 168, 1, 1, 4000);
    let listener = v4(0, 0, 0, 0, 2055);
    let step = b
        .forward(&mut metrics, client, listener, b"one", n(0.5), NOW, &arithmetic())
        .unwrap();
    let Forward::Open { backend } = step else { panic!("{:?}", step) };

    // An event that does not belong to the step changes nothing.
    let stray = Event::Sent(Ok(3));
    match b.advance(&mut metrics, client, step, stray, NOW) {
        Progress::Next(next) => assert_eq!(next, step),
        other => panic!("{:?}", other),
    }

    let step = match b.advance(&mut metrics, client, step, Event::Opened(Ok(9)), NOW) {
        Progress::Next(next) => next,
        other => panic!("{:?}", other),
    };
    assert_eq!(step, Forward::Send { backend, socket: 9 });
    let step = match b.advance(&mut metrics, client, step, Event::Sent(Ok(3)), NOW) {
        Progress::Next(next) => next,
        other => panic!("{:?}", other),
    };
    assert_eq!(step, Forward::Await { backend, socket: 9 });
    match b.advance(&mut metrics, client, step, Event::Received(Some(2), b"ok..".to_vec()), NOW) {
        Progress::Over(response) => assert_eq!(response, Some(b"ok".to_vec())),
        other => panic!("{:?}", other),
    }
    match b.advance(&mut metrics, client, step, Event::Received(None, vec![0; 4]), NOW) {
        Progress::Over(response) => assert_eq!(response, None),
        other => panic!("{:?}", other),
    }
    let send = Forward::Send { backend, socket: 9 };
    match b.advance(&mut metrics, client, send, Event::Sent(Ok(0)), NOW) {
        Progress::Over(response) => assert_eq!(response, None),
        other => panic!("{:?}", other),
    }
    match b.advance(&mut metrics, client, send, Event::Sent(Err("gone".to_string())), NOW) {
        Progress::Failed(e) => assert_eq!(e, "gone"),
        other => panic!("{:?}", other),
    }
    let open = Forward::Open { backend };
    match b.advance(&mut metrics, client, open, Event::Opened(Err("full".to_string())), NOW) {
        Progress::Failed(e) => assert_eq!(e, "failed to create session: full"),
        other => panic!("{:?}", other),
    }
    let raw = Forward::Raw { backend, source: client };
    match b.advance(&mut metrics, client, raw, Event::SentRaw(Ok(31)), NOW) {
        Progress::Over(response) => assert_eq!(response, None),
        other => panic!("{:?}", other),
    }
    match b.advance(&mut metrics, client, Forward::Done, Event::Sent(Ok(1)), NOW) {
        Progress::Over(response) => assert_eq!(response, None),
        other => panic!("{:?}", other),
    }
    let label = b.backends()[backend].label.clone();
    let stats = get_backend_stats(&metrics, ":2055", &label);
    assert_eq!(
        (stats.tx_packets, stats.tx_bytes, stats.tx_failed, stats.rx_packets, stats.rx_bytes),
        (2, 34, 2, 1, 2)
    );
}

#[test]
fn a_pool_serves_again_once_it_has_recovered() {
    let mut metrics = init_metrics();
    let client = v4(192, 168, 1, 1, 4000);
    for algorithm in [Algorithm::Wrr, Algorithm::Rh, Algorithm::Maglev] {
        let mut b = balancer(algorithm, SendMode::Standard);
        for i in 0..3 {
            b.set_alive(i, false);
        }
        let r = b.forward(&mut metrics, client, client, b"x", n(0.5), NOW, &arithmetic());
        assert_eq!(r, Err("no available backends".to_string()));
        b.set_alive(1, true);
        let r = b.forward(&mut metrics, client, client, b"x", n(0.5), NOW, &arithmetic());
        assert_eq!(r, Ok(Forward::Open { backend: 1 }));
    }
}
