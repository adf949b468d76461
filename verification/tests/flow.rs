use udp_balancer::balancer::backend::{SendMode, UdpBackend};
use udp_balancer::balancer::dispatch::{Arithmetic, Balancer};
use udp_balancer::balancer::flow::{
    extract_ipfix_observation_domain_id, extract_ipfix_template_id, hash_key,
};
use udp_balancer::config::{Algorithm, HashKeyField};
use udp_balancer::net::{IpAddr, Ipv4Addr, Ipv6Addr, SocketAddr};
use udp_balancer::number::Number;
use udp_balancer::time::Duration;

fn n(x: f64) -> Number {
    Number::from_bits(x.to_bits())
}

fn f(x: Number) -> f64 {
    f64::from_bits(x.to_bits())
}

fn localhost6() -> IpAddr {
    let mut octets = [0u8; 16];
    octets[15] = 1;
    IpAddr::V6(Ipv6Addr { octets })
}

fn v4(a: u8, b: u8, c: u8, d: u8) -> IpAddr {
    IpAddr::V4(Ipv4Addr { octets: [a, b, c, d] })
}

fn documentation(last: u8) -> IpAddr {
    let mut octets = [0u8; 16];
    octets[0] = 0x20;
    octets[1] = 0x01;
    octets[2] = 0x0d;
    octets[3] = 0xb8;
    octets[15] = last;
    IpAddr::V6(Ipv6Addr { octets })
}

fn backends_at(ip: IpAddr, host: &str) -> Vec<UdpBackend> {
    (0..3u16)
        .map(|i| {
            let port = 30000 + i;
            UdpBackend::new(
                SocketAddr::new(ip, port),
                format!("{}:{}", host, port),
                SendMode::Standard,
                n(1.0),
                n(1.0),
                Ok(()),
            )
            .unwrap()
        })
        .collect()
}

fn create_backends() -> Vec<UdpBackend> {
    backends_at(v4(127, 0, 0, 1), "127.0.0.1")
}

fn create_backends_ipv6() -> Vec<UdpBackend> {
    backends_at(localhost6(), "[::1]")
}

fn balancer(algorithm: Algorithm, backends: Vec<UdpBackend>, fields: Vec<HashKeyField>) -> Balancer {
    let arithmetic = Arithmetic {
        rest: |a: Number, b: Number| n(f(a) % f(b)),
        lower: |a: Number, b: Number| n(f(a) - f(b)),
        repetitions: |a: Number, b: Number| (f(a) / f(b)).round() as usize,
        score: |h: u64, w: Number| n((-((h as f64) / (u64::MAX as f64)).ln()).powf(1.0 / f(w))),
    };
    Balancer::new(
        algorithm,
        backends,
        fields,
        ":2055".to_string(),
        Duration::from_secs(30),
        &arithmetic,
    )
}

#[test]
fn test_balancer_wrr_creation() {
    let balancer = balancer(Algorithm::Wrr, create_backends(), vec![]);
    assert_eq!(balancer.backends().len(), 3);
}

#[test]
fn test_balancer_rh_creation() {
    let fields = vec![HashKeyField::SrcIp, HashKeyField::DstIp];
    let balancer = balancer(Algorithm::Rh, create_backends(), fields);
    assert_eq!(balancer.backends().len(), 3);
}

#[test]
fn test_balancer_maglev_creation() {
    let balancer = balancer(Algorithm::Maglev, create_backends(), vec![HashKeyField::SrcIp]);
    assert_eq!(balancer.backends().len(), 3);
    assert_eq!(balancer.algorithm_type(), Algorithm::Maglev);
}

#[test]
fn test_build_hash_key_src_ip() {
    let balancer = balancer(Algorithm::Rh, create_backends(), vec![HashKeyField::SrcIp]);
    let key = balancer.build_hash_key(v4(192, 168, 1, 1), v4(10, 0, 0, 1), 12345, 2055, &[]);
    assert_eq!(key, vec![192, 168, 1, 1]);
}

#[test]
fn test_build_hash_key_full() {
    let fields = vec![
        HashKeyField::SrcIp,
        HashKeyField::DstIp,
        HashKeyField::SrcPort,
        HashKeyField::DstPort,
    ];
    let balancer = balancer(Algorithm::Rh, create_backends(), fields);
    let key = balancer.build_hash_key(v4(192, 168, 1, 1), v4(10, 0, 0, 1), 0x3039, 0x0807, &[]);
    assert_eq!(key, vec![192, 168, 1, 1, 10, 0, 0, 1, 0x30, 0x39, 0x08, 0x07]);
}

#[test]
fn test_build_hash_key_src_ip_ipv6() {
    let balancer = balancer(Algorithm::Rh, create_backends_ipv6(), vec![HashKeyField::SrcIp]);
    let key = balancer.build_hash_key(documentation(1), documentation(2), 12345, 2055, &[]);
    assert_eq!(key, vec![0x20, 0x01, 0x0d, 0xb8, 0, 0, 0, 0, 0, 0, 0, 0, 0, 0, 0, 1]);
}

#[test]
fn test_build_hash_key_full_ipv6() {
    let fields = vec![
        HashKeyField::SrcIp,
        HashKeyField::DstIp,
        HashKeyField::SrcPort,
        HashKeyField::DstPort,
    ];
    let balancer = balancer(Algorithm::Rh, create_backends_ipv6(), fields);
    let key = balancer.build_hash_key(documentation(1), documentation(2), 0x3039, 0x0807, &[]);

    let mut expected = vec![0x20, 0x01, 0x0d, 0xb8, 0, 0, 0, 0, 0, 0, 0, 0, 0, 0, 0, 1];
    expected.extend_from_slice(&[0x20, 0x01, 0x0d, 0xb8, 0, 0, 0, 0, 0, 0, 0, 0, 0, 0, 0, 2]);
    expected.extend_from_slice(&[0x30, 0x39, 0x08, 0x07]);
    assert_eq!(key, expected);
}

#[test]
fn test_balancer_maglev_ipv6() {
    let backends = create_backends_ipv6();
    assert_eq!(backends[0].address().ip(), localhost6());
    let balancer = balancer(Algorithm::Maglev, backends, vec![HashKeyField::SrcIp]);
    assert_eq!(balancer.backends().len(), 3);
}

#[test]
fn test_build_hash_key_ipfix() {
    let balancer = balancer(Algorithm::Rh, create_backends(), vec![HashKeyField::Ipfix]);
    let ipfix_packet = vec![
        0x00, 0x0A, 0x00, 0x50, 0x00, 0x00, 0x00, 0x00, 0x00, 0x00, 0x00, 0x00, 0x00, 0x00, 0x00,
        0x01,
    ];
    let key = balancer.build_hash_key(
        v4(192, 168, 1, 1),
        v4(10, 0, 0, 1),
        12345,
        2055,
        &ipfix_packet,
    );
    assert_eq!(key, vec![0x00, 0x00, 0x00, 0x01]);
}

#[test]
fn test_build_hash_key_ipfix_template_id() {
    let balancer = balancer(Algorithm::Rh, create_backends(), vec![HashKeyField::IpfixTemplateId]);
    let ipfix_packet = vec![
        0x00, 0x0A, // Version 10
        0x00, 0x50, // Length
        0x00, 0x00, 0x00, 0x00, // Export Time
        0x00, 0x00, 0x00, 0x00, // Sequence Number
        0x00, 0x00, 0x00, 0x01, // Observation Domain ID
        0x01, 0x00, // Set ID (Template ID 256)
        0x00, 0x10, // Set Length
    ];
    let key = balancer.build_hash_key(
        v4(192, 168, 1, 1),
        v4(10, 0, 0, 1),
        12345,
        2055,
        &ipfix_packet,
    );
    assert_eq!(key, vec![0x01, 0x00]); // Template ID 256
}

#[test]
fn test_extract_ipfix_observation_domain_id() {
    let ipfix_packet = vec![
        0x00, 0x0A, 0x00, 0x50, 0x00, 0x00, 0x00, 0x00, 0x00, 0x00, 0x00, 0x00, 0xDE, 0xAD,
        0xBE, 0xEF,
    ];

    let id = extract_ipfix_observation_domain_id(&ipfix_packet);
    assert_eq!(id, Some(0xDEADBEEF));
}

#[test]
fn test_extract_ipfix_invalid_version() {
    let packet = vec![
        0x00, 0x09, 0x00, 0x50, 0x00, 0x00, 0x00, 0x00, 0x00, 0x00, 0x00, 0x00, 0xDE, 0xAD,
        0xBE, 0xEF,
    ];

    let id = extract_ipfix_observation_domain_id(&packet);
    assert_eq!(id, None);
}

#[test]
fn test_extract_ipfix_too_short() {
    let packet = vec![0x00, 0x0A, 0x00, 0x50];
    let id = extract_ipfix_observation_domain_id(&packet);
    assert_eq!(id, None);
}

#[test]
fn test_extract_ipfix_template_id() {
    // IPFIX packet with Template ID 256 (0x0100)
    let ipfix_packet = vec![
        0x00, 0x0A, // Version 10
        0x00, 0x50, // Length
        0x00, 0x00, 0x00, 0x00, // Export Time
        0x00, 0x00, 0x00, 0x00, // Sequence Number
        0x00, 0x00, 0x00, 0x01, // Observation Domain ID
        0x01, 0x00, // Set ID (Template ID 256)
        0x00, 0x10, // Set Length
    ];

    let id = extract_ipfix_template_id(&ipfix_packet);
    assert_eq!(id, Some(256));
}

#[test]
fn test_extract_ipfix_template_id_high_value() {
    // IPFIX packet with Template ID 1000 (0x03E8)
    let ipfix_packet = vec![
        0x00, 0x0A, // Version 10
        0x00, 0x50, // Length
        0x00, 0x00, 0x00, 0x00, // Export Time
        0x00, 0x00, 0x00, 0x00, // Sequence Number
        0x00, 0x00, 0x00, 0x01, // Observation Domain ID
        0x03, 0xE8, // Set ID (Template ID 1000)
        0x00, 0x10, // Set Length
    ];

    let id = extract_ipfix_template_id(&ipfix_packet);
    assert_eq!(id, Some(1000));
}

#[test]
fn test_extract_ipfix_template_id_template_set() {
    // IPFIX packet with Set ID 2 (Template Set, not a Data Set)
    let ipfix_packet = vec![
        0x00, 0x0A, // Version 10
        0x00, 0x50, // Length
        0x00, 0x00, 0x00, 0x00, // Export Time
        0x00, 0x00, 0x00, 0x00, // Sequence Number
        0x00, 0x00, 0x00, 0x01, // Observation Domain ID
        0x00, 0x02, // Set ID 2 (Template Set)
        0x00, 0x10, // Set Length
    ];

    let id = extract_ipfix_template_id(&ipfix_packet);
    assert_eq!(id, None);
}

#[test]
fn test_extract_ipfix_template_id_too_short() {
    let packet = vec![0x00, 0x0A, 0x00, 0x50, 0x00, 0x00, 0x00, 0x00];
    let id = extract_ipfix_template_id(&packet);
    assert_eq!(id, None);
}

#[test]
fn test_extract_ipfix_template_id_invalid_version() {
    // NetFlow v9 packet (version 9, not IPFIX)
    let packet = vec![
        0x00, 0x09, // Version 9
        0x00, 0x50, // Length
        0x00, 0x00, 0x00, 0x00, // Export Time
        0x00, 0x00, 0x00, 0x00, // Sequence Number
        0x00, 0x00, 0x00, 0x01, // Source ID
        0x01, 0x00, // Set ID
        0x00, 0x10, // Set Length
    ];

    let id = extract_ipfix_template_id(&packet);
    assert_eq!(id, None);
}

#[test]
fn payloads_that_are_not_ipfix_add_nothing_to_the_key() {
    let fields = [HashKeyField::Ipfix, HashKeyField::SrcPort, HashKeyField::IpfixTemplateId];
    let key = hash_key(&fields, v4(1, 2, 3, 4), v4(5, 6, 7, 8), 0x0102, 9, b"plain text");
    assert_eq!(key, vec![0x01, 0x02]);
    let key = hash_key(&[], v4(1, 2, 3, 4), v4(5, 6, 7, 8), 1, 2, &[]);
    assert!(key.is_empty());
}

#[test]
fn only_listed_fields_decide() {
    let fields = [HashKeyField::SrcIp];
    let a = hash_key(&fields, v4(1, 2, 3, 4), v4(5, 6, 7, 8), 1000, 53, b"a");
    let b = hash_key(&fields, v4(1, 2, 3, 4), v4(9, 9, 9, 9), 2000, 54, b"b");
    assert_eq!(a, b);
}

#[test]
fn the_default_key_identifies_flows() {
    let fields = udp_balancer::config::default_hash_key();
    let a = hash_key(&fields, v4(1, 2, 3, 4), v4(5, 6, 7, 8), 1000, 53, &[]);
    let b = hash_key(&fields, v4(1, 2, 3, 4), v4(5, 6, 7, 8), 1000, 54, &[]);
    let c = hash_key(&fields, v4(1, 2, 3, 5), v4(5, 6, 7, 8), 1000, 53, &[]);
    assert_ne!(a, b);
    assert_ne!(a, c);
}
