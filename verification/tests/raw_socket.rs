use udp_balancer::net::{IpAddr, Ipv4Addr, Ipv6Addr, SocketAddr};
use udp_balancer::raw_socket::{
    build_ipv4_udp_packet, build_ipv6_udp_packet, checksum, ipv4_to_ipv6_mapped, udp_checksum_v4,
    udp_checksum_v6, RawSocket, RawSocketError,
};

fn v4(a: u8, b: u8, c: u8, d: u8) -> Ipv4Addr {
    Ipv4Addr { octets: [a, b, c, d] }
}

fn v6(groups: [u16; 8]) -> Ipv6Addr {
    let mut octets = [0u8; 16];
    for (i, g) in groups.iter().enumerate() {
        octets[2 * i] = (g >> 8) as u8;
        octets[2 * i + 1] = (g & 0xff) as u8;
    }
    Ipv6Addr { octets }
}

#[test]
fn test_checksum_simple() {
    let data = [
        0x45, 0x00, 0x00, 0x3c, 0x1c, 0x46, 0x40, 0x00, 0x40, 0x06, 0x00, 0x00, 0xac, 0x10, 0x0a,
        0x63, 0xac, 0x10, 0x0a, 0x0c,
    ];
    let result = checksum(&data);
    assert_eq!(result, 0xB1E6);
}

#[test]
fn test_checksum_with_odd_length() {
    let data = [0x45, 0x00, 0x00];
    let _ = checksum(&data);
    assert_eq!(checksum(&data), 0xBAFF);
}

#[test]
fn test_udp_checksum_v4() {
    let src_ip = v4(192, 168, 1, 1);
    let dst_ip = v4(192, 168, 1, 2);
    let udp_segment = [0x04, 0xD2, 0x00, 0x50, 0x00, 0x0C, 0x00, 0x00, 0x48, 0x69, 0x21, 0x00];
    let result = udp_checksum_v4(&src_ip, &dst_ip, &udp_segment);
    assert_ne!(result, 0);
}

#[test]
fn test_udp_checksum_v6() {
    let src_ip = v6([0x2001, 0xdb8, 0, 0, 0, 0, 0, 1]);
    let dst_ip = v6([0x2001, 0xdb8, 0, 0, 0, 0, 0, 2]);
    let udp_segment = [0x04, 0xD2, 0x00, 0x50, 0x00, 0x0C, 0x00, 0x00, 0x48, 0x69, 0x21, 0x00];
    let result = udp_checksum_v6(&src_ip, &dst_ip, &udp_segment);
    assert_ne!(result, 0);
}

#[test]
fn test_build_ipv4_udp_packet() {
    let src_ip = v4(192, 168, 1, 1);
    let dst_ip = v4(192, 168, 1, 2);
    let payload = b"Hello";
    let packet = build_ipv4_udp_packet(src_ip, dst_ip, 12345, 80, payload);

    assert_eq!(packet[0] & 0xF0, 0x40);
    assert_eq!(packet[0] & 0x0F, 5);

    let total_len = (u16::from(packet[2]) << 8) | u16::from(packet[3]);
    assert_eq!(total_len as usize, 20 + 8 + payload.len());

    assert_eq!(packet[9], 17);

    assert_eq!(&packet[12..16], &src_ip.octets);
    assert_eq!(&packet[16..20], &dst_ip.octets);

    let src_port = (u16::from(packet[20]) << 8) | u16::from(packet[21]);
    let dst_port = (u16::from(packet[22]) << 8) | u16::from(packet[23]);
    assert_eq!(src_port, 12345);
    assert_eq!(dst_port, 80);

    assert_eq!(&packet[28..], payload);
}

#[test]
fn test_build_ipv6_udp_packet() {
    let src_ip = v6([0x2001, 0xdb8, 0, 0, 0, 0, 0, 1]);
    let dst_ip = v6([0x2001, 0xdb8, 0, 0, 0, 0, 0, 2]);
    let payload = b"Hello";
    let packet = build_ipv6_udp_packet(src_ip, dst_ip, 12345, 80, payload);

    let src_port = (u16::from(packet[0]) << 8) | u16::from(packet[1]);
    let dst_port = (u16::from(packet[2]) << 8) | u16::from(packet[3]);
    assert_eq!(src_port, 12345);
    assert_eq!(dst_port, 80);

    let udp_len = (u16::from(packet[4]) << 8) | u16::from(packet[5]);
    assert_eq!(udp_len as usize, 8 + payload.len());

    assert_eq!(&packet[8..], payload);
}

#[test]
fn test_udp_checksum_zero_returns_ffff() {
    let src_ip = v4(127, 0, 0, 1);
    let dst_ip = v4(127, 0, 0, 1);
    let udp_segment = [0x00, 0x01, 0x00, 0x01, 0x00, 0x08, 0x00, 0x00];
    let result = udp_checksum_v4(&src_ip, &dst_ip, &udp_segment);
    assert_ne!(result, 0);
}

#[test]
fn test_ip_header_checksum_verification() {
    let src_ip = v4(10, 0, 0, 1);
    let dst_ip = v4(10, 0, 0, 2);
    let packet = build_ipv4_udp_packet(src_ip, dst_ip, 1234, 5678, b"test");

    let verify_checksum = checksum(&packet[0..20]);
    assert_eq!(verify_checksum, 0);
}

#[test]
fn test_ipv4_to_ipv6_mapped() {
    let ipv6 = ipv4_to_ipv6_mapped(v4(192, 0, 2, 1));
    assert_eq!(ipv6, v6([0x0064, 0xff9b, 0, 0, 0, 0, 0xc000, 0x0201]));
}

#[test]
fn test_ipv4_to_ipv6_mapped_localhost() {
    let ipv6 = ipv4_to_ipv6_mapped(v4(127, 0, 0, 1));
    assert_eq!(ipv6, v6([0x0064, 0xff9b, 0, 0, 0, 0, 0x7f00, 0x0001]));
}

#[test]
fn a_sum_of_all_ones_is_sent_as_all_ones() {
    let nowhere = v4(0, 0, 0, 0);
    // Pseudo header: protocol 17 and length 8; the segment makes up the rest to 0xffff.
    let segment = [0xff, 0xde, 0x00, 0x00, 0x00, 0x08, 0x00, 0x00];
    assert_eq!(udp_checksum_v4(&nowhere, &nowhere, &segment), 0xffff);
}

#[test]
fn a_whole_ipv4_datagram() {
    let packet = build_ipv4_udp_packet(v4(10, 0, 0, 1), v4(10, 0, 0, 2), 1, 2, b"a");
    assert_eq!(packet.len(), 29);
    assert_eq!(
        &packet[0..12],
        &[0x45, 0, 0, 29, 0, 0, 0x40, 0, 64, 17, 0x26, 0xce]
    );
    assert_eq!(&packet[20..26], &[0, 1, 0, 2, 0, 9]);
    assert_eq!(packet[28], b'a');
}

#[test]
fn udp_sums_verify_at_the_receiver() {
    let src = v4(192, 168, 1, 1);
    let dst = v4(192, 168, 1, 2);
    let packet = build_ipv4_udp_packet(src, dst, 4000, 53, b"query");
    let mut pseudo: Vec<u8> = Vec::new();
    pseudo.extend_from_slice(&src.octets);
    pseudo.extend_from_slice(&dst.octets);
    pseudo.extend_from_slice(&[0, 17, 0, 13]);
    pseudo.extend_from_slice(&packet[20..]);
    assert_eq!(checksum(&pseudo), 0);

    let src = v6([0x2001, 0xdb8, 0, 0, 0, 0, 0, 1]);
    let dst = v6([0x2001, 0xdb8, 0, 0, 0, 0, 0, 2]);
    let segment = build_ipv6_udp_packet(src, dst, 4000, 53, b"query");
    let mut pseudo: Vec<u8> = Vec::new();
    pseudo.extend_from_slice(&src.octets);
    pseudo.extend_from_slice(&dst.octets);
    pseudo.extend_from_slice(&[0, 0, 0, 13, 0, 0, 0, 17]);
    pseudo.extend_from_slice(&segment);
    assert_eq!(checksum(&pseudo), 0);
}

#[test]
fn raw_sockets_keep_to_their_family() {
    let a = SocketAddr::new(IpAddr::V4(v4(10, 0, 0, 1)), 1000);
    let b = SocketAddr::new(IpAddr::V4(v4(10, 0, 0, 2)), 2000);
    let c = SocketAddr::new(IpAddr::V6(v6([0xfd00, 0, 0, 0, 0, 0, 0, 1])), 3000);

    let sent = RawSocket::new_v4().send_to(a, b, b"x", |p| Ok(p.len()));
    assert_eq!(sent, Ok(29));
    let sent = RawSocket::new_v6().send_to(c, c, b"x", |p| Ok(p.len()));
    assert_eq!(sent, Ok(49));
    // IPv4 towards IPv6 is mapped.
    let sent = RawSocket::new_v6().send_to(a, c, b"x", |p| {
        assert_eq!(&p[8..24], &ipv4_to_ipv6_mapped(v4(10, 0, 0, 1)).octets);
        assert_eq!(&p[40..42], &[3, 232]);
        Ok(p.len())
    });
    assert_eq!(sent, Ok(49));

    for r in [
        RawSocket::new_v6().packet_to(a, b, b"x"),
        RawSocket::new_v4().packet_to(c, c, b"x"),
        RawSocket::new_v4().packet_to(a, c, b"x"),
        RawSocket::new_v4().packet_to(c, b, b"x"),
        RawSocket::new_v6().packet_to(c, b, b"x"),
    ] {
        assert_eq!(r, Err(RawSocketError::AddressFamilyMismatch));
    }

    let failed = RawSocket::new_v4().send_to(a, b, b"x", |_| Err("no route".to_string()));
    assert_eq!(
        failed.unwrap_err().message(),
        "socket creation failed: no route"
    );
    assert_eq!(
        RawSocketError::AddressFamilyMismatch.message(),
        "address family mismatch"
    );
    assert_eq!(
        RawSocketError::NotSupported.message(),
        "raw sockets not supported on this platform"
    );
}

#[test]
fn ipv6_packets_carry_their_source() {
    let src = v6([0x2001, 0xdb8, 0, 0, 0, 0, 0, 1]);
    let dst = v6([0x2001, 0xdb8, 0, 0, 0, 0, 0, 2]);
    let from = SocketAddr::new(IpAddr::V6(src), 4000);
    let to = SocketAddr::new(IpAddr::V6(dst), 53);
    let packet = RawSocket::new_v6().packet_to(from, to, b"query").unwrap();
    assert_eq!(packet.len(), 53);
    assert_eq!(&packet[0..8], &[0x60, 0, 0, 0, 0, 13, 17, 64]);
    assert_eq!(&packet[8..24], &src.octets);
    assert_eq!(&packet[24..40], &dst.octets);
    assert_eq!(&packet[40..], &build_ipv6_udp_packet(src, dst, 4000, 53, b"query")[..]);
}
