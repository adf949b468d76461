use udp_balancer::balancer::session::{Received, SessionKey, SessionManager};
use udp_balancer::metrics::{get_backend_stats, init_metrics};
use udp_balancer::net::{IpAddr, Ipv4Addr, Ipv6Addr, SocketAddr};
use udp_balancer::time::{Duration, Instant};

fn v4(a: u8, b: u8, c: u8, d: u8, port: u16) -> SocketAddr {
    SocketAddr::new(IpAddr::V4(Ipv4Addr { octets: [a, b, c, d] }), port)
}

fn at_millis(millis: u128) -> Instant {
    Instant { nanos: millis * 1_000_000 }
}

fn manager(timeout: Duration) -> SessionManager {
    SessionManager::new(":2055".to_string(), timeout)
}

#[test]
fn test_session_creation() {
    let mut manager = manager(Duration::from_secs(30));
    let client = v4(192, 168, 1, 1, 12345);
    let backend = v4(127, 0, 0, 1, 9999);
    assert_eq!(manager.find_session(client, backend, at_millis(0)), None);
    let socket = manager.get_or_create_session(client, backend, Ok(1), at_millis(0));
    assert!(socket.is_ok());
    assert_eq!(manager.session_count(), 1);
}

#[test]
fn test_session_reuse() {
    let mut manager = manager(Duration::from_secs(30));
    let client = v4(192, 168, 1, 1, 12345);
    let backend = v4(127, 0, 0, 1, 9999);
    let socket1 = manager.get_or_create_session(client, backend, Ok(1), at_millis(0)).unwrap();
    let socket2 = manager.get_or_create_session(client, backend, Ok(2), at_millis(1)).unwrap();
    assert_eq!(manager.session_count(), 1);
    assert_eq!(socket1, socket2);
    assert_eq!(socket2, 1);
    assert_eq!(manager.find_session(client, backend, at_millis(2)), Some(1));
}

#[test]
fn test_multiple_sessions() {
    let mut manager = manager(Duration::from_secs(30));
    let client1 = v4(192, 168, 1, 1, 12345);
    let client2 = v4(192, 168, 1, 2, 12345);
    let backend = v4(127, 0, 0, 1, 9999);
    manager.get_or_create_session(client1, backend, Ok(1), at_millis(0)).unwrap();
    manager.get_or_create_session(client2, backend, Ok(2), at_millis(0)).unwrap();
    assert_eq!(manager.session_count(), 2);
    let mut sockets: Vec<u64> = manager.routes().iter().map(|s| s.socket).collect();
    sockets.sort();
    assert_eq!(sockets, vec![1, 2]);
}

#[test]
fn test_session_cleanup() {
    let mut manager = manager(Duration::from_millis(50));
    let client = v4(192, 168, 1, 1, 12345);
    let backend = v4(127, 0, 0, 1, 9999);
    manager.get_or_create_session(client, backend, Ok(1), at_millis(0)).unwrap();
    assert_eq!(manager.session_count(), 1);

    let removed = manager.cleanup_expired(at_millis(100));
    assert_eq!(removed, 1);
    assert_eq!(manager.session_count(), 0);
    assert_eq!(manager.cleanup_expired(at_millis(100)), 0);
}

#[test]
fn test_session_activity_update() {
    let mut manager = manager(Duration::from_millis(100));
    let client = v4(192, 168, 1, 1, 12345);
    let backend = v4(127, 0, 0, 1, 9999);
    manager.get_or_create_session(client, backend, Ok(1), at_millis(0)).unwrap();

    manager.update_activity(client, backend, at_millis(60));
    let removed = manager.cleanup_expired(at_millis(120));

    assert_eq!(removed, 0);
    assert_eq!(manager.session_count(), 1);
    // Without an update it would have been gone by then.
    assert_eq!(manager.cleanup_expired(at_millis(161)), 1);
}

#[test]
fn test_session_key_equality() {
    let key1 = SessionKey {
        client_addr: v4(192, 168, 1, 1, 12345),
        backend_addr: v4(10, 0, 0, 1, 2055),
    };
    let key2 = SessionKey {
        client_addr: v4(192, 168, 1, 1, 12345),
        backend_addr: v4(10, 0, 0, 1, 2055),
    };
    let key3 = SessionKey {
        client_addr: v4(192, 168, 1, 1, 12345),
        backend_addr: v4(10, 0, 0, 2, 2055),
    };
    assert_eq!(key1, key2);
    assert_ne!(key1, key3);
}

#[test]
fn a_session_expires_just_past_the_timeout() {
    let mut manager = manager(Duration::from_millis(50));
    let client = v4(192, 168, 1, 1, 12345);
    let backend = v4(127, 0, 0, 1, 9999);
    manager.get_or_create_session(client, backend, Ok(1), at_millis(10)).unwrap();
    assert_eq!(manager.cleanup_expired(at_millis(60)), 0);
    assert_eq!(manager.cleanup_expired(at_millis(5)), 0);
    assert_eq!(manager.cleanup_expired(Instant { nanos: 60_000_001 }), 1);
}

#[test]
fn a_socket_that_did_not_open_makes_no_session() {
    let mut manager = manager(Duration::from_secs(1));
    let client = v4(192, 168, 1, 1, 12345);
    let backend = v4(127, 0, 0, 1, 9999);
    let r = manager.get_or_create_session(client, backend, Err("busy".to_string()), at_millis(0));
    assert_eq!(r, Err("busy".to_string()));
    assert_eq!(manager.session_count(), 0);
    manager.update_activity(client, backend, at_millis(1));
    assert_eq!(manager.session_count(), 0);
}

#[test]
fn flows_are_kept_apart() {
    let mut manager = manager(Duration::from_secs(1));
    let backend = v4(127, 0, 0, 1, 9999);
    // An IPv4 address and the IPv6 address with the same first octets.
    let four = v4(192, 168, 1, 1, 12345);
    let mut octets = [0u8; 16];
    octets[0] = 192;
    octets[1] = 168;
    octets[2] = 1;
    octets[3] = 1;
    let six = SocketAddr::new(IpAddr::V6(Ipv6Addr { octets }), 12345);
    let scoped = SocketAddr { scope_id: 3, ..six };
    let other_port = v4(192, 168, 1, 1, 12346);
    for (i, client) in [four, six, scoped, other_port].iter().enumerate() {
        assert!(!manager.has_session(*client, backend));
        let socket = manager.get_or_create_session(*client, backend, Ok(i as u64), at_millis(0));
        assert_eq!(socket, Ok(i as u64));
        assert!(manager.has_session(*client, backend));
    }
    assert_eq!(manager.session_count(), 4);
    assert!(!manager.has_session(backend, four));
}

#[test]
fn responses_go_on_to_the_client() {
    let mut metrics = init_metrics();
    let mut manager = manager(Duration::from_secs(1));
    let client = v4(192, 168, 1, 1, 12345);
    let backend = v4(127, 0, 0, 1, 9999);
    manager.get_or_create_session(client, backend, Ok(1), at_millis(0)).unwrap();
    let routes = manager.routes();
    assert_eq!(routes.len(), 1);
    assert_eq!(routes[0].client_addr, client);
    assert_eq!(routes[0].backend_addr, backend);
    let label = "127.0.0.1:9999";
    let to = manager.forward_response(&mut metrics, &routes[0], label, Received::Data(40));
    assert_eq!(to, Some(client));
    let to = manager.forward_response(&mut metrics, &routes[0], label, Received::WouldBlock);
    assert_eq!(to, None);
    let to = manager.forward_response(&mut metrics, &routes[0], label, Received::Failed);
    assert_eq!(to, None);
    let stats = get_backend_stats(&metrics, ":2055", label);
    assert_eq!(stats.rx_packets, 1);
    assert_eq!(stats.rx_bytes, 40);
}

#[test]
fn cleanups_come_twice_per_timeout() {
    assert_eq!(manager(Duration::from_secs(30)).cleanup_interval(), Duration::from_secs(15));
}
