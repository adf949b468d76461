use udp_balancer::balancer::backend::{SendMode, UdpBackend};
use udp_balancer::balancer::dispatch::{Arithmetic, Balancer};
use udp_balancer::balancer::mirror::Mirror;
use udp_balancer::config::{Algorithm, HashKeyField};
use udp_balancer::listener::batch::{worker_count, BatchListener};
use udp_balancer::listener::standard::StandardListener;
use udp_balancer::listener::{after_forward, Packet};
use udp_balancer::metrics::{gather_metrics, get_listener_stats, init_metrics};
use udp_balancer::net::{IpAddr, Ipv4Addr, SocketAddr};
use udp_balancer::number::Number;
use udp_balancer::server::checker::{apply_check, Change, HealthCheck, HealthChecker, Reply};
use udp_balancer::server::dashboard::dashboard_handler;
use udp_balancer::server::status::{
    api_status_handler, ping_handler, AppState, BackendStats, ListenerStats, MirrorStats,
    ServerInfo, StatusServer,
};
use udp_balancer::time::Duration;

fn n(x: f64) -> Number {
    Number::from_bits(x.to_bits())
}

fn f(x: Number) -> f64 {
    f64::from_bits(x.to_bits())
}

fn v4(a: u8, b: u8, c: u8, d: u8, port: u16) -> SocketAddr {
    SocketAddr::new(IpAddr::V4(Ipv4Addr { octets: [a, b, c, d] }), port)
}

fn check() -> HealthCheck {
    HealthCheck {
        url: "http://localhost:8080/health".to_string(),
        interval: Duration::from_secs(5),
        timeout: Duration::from_secs(2),
        alive: true,
        listener_addr: ":2055".to_string(),
        backend_addr: "10.0.0.1:2055".to_string(),
        server: 0,
        backend: 0,
    }
}

fn backend(port: u16, weight: f64, probability: f64) -> UdpBackend {
    UdpBackend::new(
        v4(127, 0, 0, 1, port),
        format!("127.0.0.1:{}", port),
        SendMode::Standard,
        n(probability),
        n(weight),
        Ok(()),
    )
    .unwrap()
}

fn create_test_balancer(algorithm: Algorithm, fields: Vec<HashKeyField>) -> Balancer {
    let arithmetic = Arithmetic {
        rest: |a: Number, b: Number| n(f(a) % f(b)),
        lower: |a: Number, b: Number| n(f(a) - f(b)),
        repetitions: |a: Number, b: Number| (f(a) / f(b)).round() as usize,
        score: |h: u64, w: Number| n((-((h as f64) / (u64::MAX as f64)).ln()).powf(1.0 / f(w))),
    };
    Balancer::new(
        algorithm,
        vec![backend(9999, 1.0, 1.0)],
        fields,
        ":2055".to_string(),
        Duration::from_secs(30),
        &arithmetic,
    )
}

#[test]
fn test_health_checker_creation() {
    let checker = HealthChecker::new(vec![check()]);
    assert_eq!(checker.checks.len(), 1);
}

#[test]
fn test_health_checker_empty() {
    let checker = HealthChecker::new(vec![]);
    assert!(checker.checks.is_empty());
}

#[test]
fn test_perform_check_invalid_url() {
    let reply = Reply::Failed("dns error".to_string());
    let result = HealthChecker::perform_check(&reply);
    assert!(result.is_err());
    assert_eq!(result, Err("dns error".to_string()));
}

#[test]
fn test_health_check_struct() {
    let mut check = check();
    assert!(check.alive);
    check.alive = false;
    assert!(!check.alive);
}

#[test]
fn status_codes() {
    let verdict = |code: u16| HealthChecker::perform_check(&Reply::Status(code, format!("{}", code)));
    for code in [200, 204, 301, 404, 499] {
        assert_eq!(verdict(code), Ok(()));
    }
    for code in [100, 199, 500, 503, 599, 600] {
        assert_eq!(verdict(code), Err(format!("HTTP {}", code)));
    }
}

#[test]
fn checks_are_counted_and_changes_announced() {
    let mut m = init_metrics();
    let labels = [":2055", "10.0.0.1:2055"];
    let mut running = HealthChecker::start_check(check(), &mut m);
    assert!(running.was_alive);
    assert_eq!(m.balancer_backend_alive.get(&labels), 1);

    let good = Reply::Status(200, "200 OK".to_string());
    let bad = Reply::Status(503, "503 Service Unavailable".to_string());
    let step = |reply: &Reply, running: &mut _, m: &mut _| HealthChecker::run_check(running, m, reply);
    assert_eq!(step(&good, &mut running, &mut m), Change::Unchanged);
    assert_eq!(step(&bad, &mut running, &mut m), Change::NowUnhealthy);
    assert!(!running.check.alive);
    assert_eq!(m.balancer_backend_alive.get(&labels), 0);
    assert_eq!(step(&bad, &mut running, &mut m), Change::Unchanged);
    assert_eq!(step(&good, &mut running, &mut m), Change::NowHealthy);
    assert!(running.check.alive);
    assert_eq!(m.balancer_backend_alive.get(&labels), 1);
    assert_eq!(m.health_check_total.get(&labels), 4);
    assert_eq!(m.health_check_failed.get(&labels), 2);
}

#[test]
fn test_dashboard_response() {
    let page = dashboard_handler();
    assert!(page.contains("UDP Balancer"));
    assert!(page.contains("<!DOCTYPE html>"));
}

#[test]
fn test_ping_response() {
    assert_eq!(ping_handler().status, "ok");
}

#[test]
fn test_status_response() {
    let metrics = init_metrics();
    let state = AppState {
        servers: vec![ServerInfo {
            balancer: Some(create_test_balancer(Algorithm::Wrr, vec![])),
            mirror: None,
        }],
    };
    let response = api_status_handler(&metrics, &state, "0.1.0".to_string());
    assert_eq!(response.servers.len(), 1);
    assert_eq!(response.servers[0].listener, ":2055");
    assert_eq!(response.servers[0].backends.len(), 1);
    assert!(!response.version.is_empty());
}

#[test]
fn test_metrics_response() {
    let mut metrics = init_metrics();
    metrics.received("l", 1);
    assert!(gather_metrics(&metrics).contains("udp_balancer_packets_received_total"));
}

#[test]
fn test_status_server_creation() {
    let addr = v4(127, 0, 0, 1, 0);
    let server = StatusServer::new(addr, vec![]);
    assert_eq!(server.address, addr);
    assert!(server.state.servers.is_empty());
}

#[test]
fn the_status_of_everything() {
    let mut m = init_metrics();
    m.received(":2055", 100);
    m.replied(":2055", 60);
    m.forwarded(":2055", "127.0.0.1:9999", 100);
    m.answered(":2055", "127.0.0.1:9999", 60);
    m.mirrored(":514", "127.0.0.1:1514", 40);
    m.mirror_failed(":514", "127.0.0.1:1514");
    let mut keyed = create_test_balancer(Algorithm::Rh, vec![HashKeyField::SrcIp]);
    keyed.set_alive(0, false);
    let state = AppState {
        servers: vec![
            ServerInfo { balancer: None, mirror: None },
            ServerInfo { balancer: Some(keyed), mirror: None },
            ServerInfo {
                balancer: None,
                mirror: Some(Mirror::new(vec![backend(1514, 1.0, 0.25)], ":514".to_string())),
            },
            ServerInfo {
                balancer: Some(create_test_balancer(Algorithm::Wrr, vec![HashKeyField::SrcIp])),
                mirror: Some(Mirror::new(vec![], ":1".to_string())),
            },
        ],
    };
    let r = api_status_handler(&m, &state, "1.2.3".to_string());
    assert_eq!(r.version, "1.2.3");
    assert_eq!(r.servers.len(), 3);
    let first = &r.servers[0];
    assert_eq!(first.algorithm, Some(Algorithm::Rh));
    assert_eq!(first.hash_key, vec![HashKeyField::SrcIp]);
    assert_eq!(
        first.stats,
        ListenerStats { rx_packets: 1, rx_bytes: 100, tx_packets: 1, tx_bytes: 60 }
    );
    assert!(!first.backends[0].alive);
    assert_eq!(first.backends[0].address, "127.0.0.1:9999");
    assert_eq!(f(first.backends[0].weight), 1.0);
    assert_eq!(
        first.backends[0].stats,
        BackendStats { rx_packets: 1, rx_bytes: 60, tx_packets: 1, tx_bytes: 100, tx_failed: 0 }
    );
    let second = &r.servers[1];
    assert_eq!(second.listener, ":514");
    assert_eq!(second.algorithm, None);
    assert!(second.backends.is_empty());
    assert_eq!(f(second.mirrors[0].probability), 0.25);
    assert_eq!(
        second.mirrors[0].stats,
        MirrorStats { tx_packets: 1, tx_bytes: 40, tx_failed: 1 }
    );
    let third = &r.servers[2];
    assert_eq!(third.listener, ":2055");
    assert!(third.hash_key.is_empty());
    assert!(third.mirrors.is_empty());
}

#[test]
fn test_packet_creation() {
    let src_addr = v4(192, 168, 1, 1, 12345);
    let dst_ip = IpAddr::V4(Ipv4Addr { octets: [10, 0, 0, 1] });
    let payload = b"test data".to_vec();

    let packet = Packet::new(src_addr, dst_ip, 2055, payload.clone());

    assert_eq!(packet.src_addr, src_addr);
    assert_eq!(packet.src_ip(), IpAddr::V4(Ipv4Addr { octets: [192, 168, 1, 1] }));
    assert_eq!(packet.src_port(), 12345);
    assert_eq!(packet.dst_ip(), dst_ip);
    assert_eq!(packet.dst_port(), 2055);
    assert_eq!(packet.payload, payload);
    assert_eq!(packet.len(), 9);
    assert!(!packet.is_empty());
}

#[test]
fn test_packet_empty() {
    let src_addr = v4(192, 168, 1, 1, 12345);
    let dst_ip = IpAddr::V4(Ipv4Addr { octets: [10, 0, 0, 1] });
    let packet = Packet::new(src_addr, dst_ip, 2055, vec![]);
    assert!(packet.is_empty());
    assert_eq!(packet.len(), 0);
}

#[test]
fn test_batch_listener_creation() {
    let listener = BatchListener::new(v4(127, 0, 0, 1, 4711), "127.0.0.1:4711".to_string(), 2, 8);
    assert_eq!(listener.bound_addr(), v4(127, 0, 0, 1, 4711));
    assert!(listener.address().port() > 0);
    assert_eq!(listener.num_workers(), 2);
}

#[test]
fn test_batch_listener_auto_workers() {
    let listener = BatchListener::new(v4(127, 0, 0, 1, 4711), "127.0.0.1:4711".to_string(), 0, 8);
    assert!(listener.num_workers() >= 1);
    assert_eq!(listener.num_workers(), 8);
    assert_eq!(worker_count(3, 8), 3);
}

#[test]
fn test_batch_listener_receive() {
    let mut m = init_metrics();
    let address = v4(127, 0, 0, 1, 4711);
    let listener = BatchListener::new(address, "127.0.0.1:4711".to_string(), 1, 8);
    assert_eq!(listener.bound_addr(), address);
    let client = v4(127, 0, 0, 1, 5000);
    let buf = b"test and what was left in the buffer";
    let packet = listener.receive(&mut m, client, buf, 4).unwrap();
    assert_eq!(packet.payload, b"test".to_vec());
    assert_eq!(packet.src_addr, client);
    assert_eq!(packet.dst_addr, address);
    assert!(listener.receive(&mut m, client, buf, 0).is_none());
    listener.replied(&mut m, 7, true);
    listener.replied(&mut m, 9, false);
    assert_eq!(get_listener_stats(&m, "127.0.0.1:4711"), (1, 4, 1, 7));
}

#[test]
fn test_listener_creation() {
    let listener = StandardListener::new(v4(127, 0, 0, 1, 4711), "127.0.0.1:4711".to_string());
    assert_eq!(listener.bound_addr(), v4(127, 0, 0, 1, 4711));
    assert!(listener.address().port() > 0);
}

#[test]
fn test_listener_receive() {
    let mut m = init_metrics();
    let address = v4(127, 0, 0, 1, 4711);
    let listener = StandardListener::new(address, "127.0.0.1:4711".to_string());
    assert_eq!(listener.bound_addr(), address);
    let packet = listener.receive(&mut m, v4(127, 0, 0, 1, 5000), b"test", 4).unwrap();
    assert_eq!(packet.payload, b"test".to_vec());
    assert!(listener.receive(&mut m, v4(127, 0, 0, 1, 5000), b"", 0).is_none());
    listener.replied(&mut m, 7, true);
    listener.replied(&mut m, 9, false);
    assert_eq!(get_listener_stats(&m, "127.0.0.1:4711"), (1, 4, 1, 7));
}

#[test]
fn only_a_response_goes_back_to_the_client() {
    let client = v4(192, 0, 2, 7, 4000);
    let response = after_forward(Ok(Some(b"ok".to_vec())), client);
    assert_eq!(response, Some((client, b"ok".to_vec())));
    assert_eq!(after_forward(Ok(None), client), None);
    assert_eq!(after_forward(Err("gone".to_string()), client), None);
}

#[test]
fn a_reply_reaches_the_pool() {
    let mut metrics = init_metrics();
    let mut state = AppState {
        servers: vec![
            ServerInfo { balancer: None, mirror: None },
            ServerInfo {
                balancer: Some(create_test_balancer(Algorithm::Wrr, vec![])),
                mirror: None,
            },
        ],
    };
    let alive = |state: &AppState| state.servers[1].balancer.as_ref().unwrap().backends()[0].is_alive();

    let mut running =
        HealthChecker::start_check(HealthCheck { server: 1, ..check() }, &mut metrics);
    let down = Reply::Failed("refused".to_string());
    HealthChecker::run_check(&mut running, &mut metrics, &down);
    apply_check(&mut state, &running.check);
    assert!(!alive(&state));
    let up = Reply::Status(200, "200 OK".to_string());
    HealthChecker::run_check(&mut running, &mut metrics, &up);
    apply_check(&mut state, &running.check);
    assert!(alive(&state));

    // A check of something that is not there changes nothing.
    for (server, backend) in [(0, 0), (1, 9), (2, 0)] {
        apply_check(&mut state, &HealthCheck { alive: false, server, backend, ..check() });
        assert!(alive(&state));
    }
}
