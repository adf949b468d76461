//! Datagrams with a source address of choice: IP and UDP headers, their
//! checksums, and which address family may carry which.
use crate::net::{IpAddr, Ipv4Addr, Ipv6Addr, SocketAddr};
use vstd::arithmetic::div_mod::lemma_mod_multiples_vanish;
use vstd::prelude::*;

verus! {

/// The protocol number of UDP.
pub const UDP: u8 = 17;

/// So many octets never sum up to more than 32 bits hold.
pub const SHORT: usize = 131_072;

/// The value of two octets, the first one counting more.
pub open spec fn word(hi: u8, lo: u8) -> int {
    hi * 256 + lo
}

/// The sum of the 16-bit words in the first `n` octets, for an even `n`.
pub open spec fn words_below(data: Seq<u8>, n: int) -> int
    decreases n,
{
    if n < 2 {
        0
    } else {
        words_below(data, n - 2) + word(data[n - 2], data[n - 1])
    }
}

/// The sum of all 16-bit words; a last odd octet is the high half of a word.
pub open spec fn word_sum(data: Seq<u8>) -> int {
    let n = data.len() as int;
    if n % 2 == 0 {
        words_below(data, n)
    } else {
        words_below(data, n - 1) + data[n - 1] * 256
    }
}

/// A sum with its carries added back in until it fits 16 bits: zero only for
/// zero, else the number from 1 to 65535 that leaves the same remainder by
/// 65535.
pub open spec fn folded(sum: int) -> int {
    if sum <= 0 {
        0
    } else {
        1 + (sum - 1) % 65535
    }
}

/// The internet checksum of some octets.
pub open spec fn checksum_of(data: Seq<u8>) -> int {
    65535 - folded(word_sum(data))
}

/// The UDP checksum for a sum over header and data: the complement of the
/// folded sum, and 65535 where that would be 0.
pub open spec fn udp_checksum_of(sum: int) -> int {
    if folded(sum) == 65535 {
        65535
    } else {
        65535 - folded(sum)
    }
}

/// What the addresses, the protocol and the length add to the UDP checksum
/// over IPv4.
pub open spec fn pseudo_sum_v4(src: Seq<u8>, dst: Seq<u8>, len: nat) -> int {
    words_below(src, 4) + words_below(dst, 4) + UDP + (len as u32)
}

/// What the addresses, the protocol and the length add to the UDP checksum
/// over IPv6.
pub open spec fn pseudo_sum_v6(src: Seq<u8>, dst: Seq<u8>, len: nat) -> int {
    words_below(src, 16) + words_below(dst, 16) + UDP + ((len / 65536) as u32) + len % 65536
}

/// The low 16 bits of a number as two octets.
pub open spec fn octets16(n: int) -> Seq<u8> {
    seq![((n / 256) % 256) as u8, (n % 256) as u8]
}

/// A UDP header with its payload.
pub open spec fn udp_segment(src_port: u16, dst_port: u16, sum: int, payload: Seq<u8>) -> Seq<u8> {
    octets16(src_port as int) + octets16(dst_port as int) + octets16(8 + payload.len() as int)
        + octets16(sum) + payload
}

/// An IPv4 header without options: version and header length, total length,
/// "don't fragment", 64 hops, UDP.
pub open spec fn ipv4_header(src: Seq<u8>, dst: Seq<u8>, total_len: int, sum: int) -> Seq<u8> {
    seq![0x45u8, 0u8] + octets16(total_len) + seq![0u8, 0u8, 0x40u8, 0u8, 64u8, UDP] + octets16(sum)
        + src + dst
}

/// The UDP segment, checksum and all, that carries a payload over IPv4.
pub open spec fn segment_v4(
    src: Seq<u8>,
    dst: Seq<u8>,
    src_port: u16,
    dst_port: u16,
    payload: Seq<u8>,
) -> Seq<u8> {
    let blank = udp_segment(src_port, dst_port, 0, payload);
    let sum = pseudo_sum_v4(src, dst, blank.len()) + word_sum(blank);
    udp_segment(src_port, dst_port, udp_checksum_of(sum), payload)
}

/// The UDP segment, checksum and all, that carries a payload over IPv6.
pub open spec fn segment_v6(
    src: Seq<u8>,
    dst: Seq<u8>,
    src_port: u16,
    dst_port: u16,
    payload: Seq<u8>,
) -> Seq<u8> {
    let blank = udp_segment(src_port, dst_port, 0, payload);
    let sum = pseudo_sum_v6(src, dst, blank.len()) + word_sum(blank);
    udp_segment(src_port, dst_port, udp_checksum_of(sum), payload)
}

/// The IPv4 header, checksum and all, of a packet with a payload.
pub open spec fn header_v4(src: Seq<u8>, dst: Seq<u8>, payload: Seq<u8>) -> Seq<u8> {
    let total_len = 28 + payload.len() as int;
    ipv4_header(src, dst, total_len, checksum_of(ipv4_header(src, dst, total_len, 0)))
}

/// The IPv6 header of a packet with a UDP segment of `len` octets: version, no
/// traffic class nor flow label, length, UDP, 64 hops.
pub open spec fn header_v6(src: Seq<u8>, dst: Seq<u8>, len: int) -> Seq<u8> {
    seq![0x60u8, 0u8, 0u8, 0u8] + octets16(len) + seq![UDP, 64u8] + src + dst
}

/// The IPv6 packet that carries a payload.
pub open spec fn packet_v6(
    src: Seq<u8>,
    dst: Seq<u8>,
    src_port: u16,
    dst_port: u16,
    payload: Seq<u8>,
) -> Seq<u8> {
    header_v6(src, dst, 8 + payload.len() as int) + segment_v6(
        src,
        dst,
        src_port,
        dst_port,
        payload,
    )
}

/// The sum of the words fits the 32 bits that it is gathered in, as it does
/// for anything that is not longer than two datagrams.
pub open spec fn sum_fits(data: Seq<u8>) -> bool {
    data.len() <= SHORT || word_sum(data) <= u32::MAX
}

/// The sum that the checksum of a UDP segment is taken of fits 32 bits.
pub open spec fn segment_sum_fits_v4(src: Seq<u8>, dst: Seq<u8>, segment: Seq<u8>) -> bool {
    segment.len() <= SHORT - 64 || pseudo_sum_v4(src, dst, segment.len()) + word_sum(segment)
        <= u32::MAX
}

/// The sum that the checksum of a UDP segment is taken of fits 32 bits.
pub open spec fn segment_sum_fits_v6(src: Seq<u8>, dst: Seq<u8>, segment: Seq<u8>) -> bool {
    segment.len() <= SHORT - 64 || pseudo_sum_v6(src, dst, segment.len()) + word_sum(segment)
        <= u32::MAX
}

/// The sum that the UDP checksum of a packet is taken of fits 32 bits.
pub open spec fn sum_fits_v4(
    src: Seq<u8>,
    dst: Seq<u8>,
    src_port: u16,
    dst_port: u16,
    payload: Seq<u8>,
) -> bool {
    segment_sum_fits_v4(src, dst, udp_segment(src_port, dst_port, 0, payload))
}

/// The sum that the UDP checksum of a packet is taken of fits 32 bits.
pub open spec fn sum_fits_v6(
    src: Seq<u8>,
    dst: Seq<u8>,
    src_port: u16,
    dst_port: u16,
    payload: Seq<u8>,
) -> bool {
    segment_sum_fits_v6(src, dst, udp_segment(src_port, dst_port, 0, payload))
}

fn word_of(hi: u8, lo: u8) -> (w: u32)
    ensures
        w == word(hi, lo),
        w <= 65535,
{
    let a: u32 = hi as u32;
    let b: u32 = lo as u32;
    assert((a << 8) | b == a * 256 + b) by (bit_vector)
        requires
            a < 256,
            b < 256,
    ;
    (a << 8) | b
}

proof fn lemma_words_grow(data: Seq<u8>, m: int, n: int)
    requires
        0 <= m <= n <= data.len(),
        m % 2 == 0,
        n % 2 == 0,
    ensures
        0 <= words_below(data, m) <= words_below(data, n),
    decreases n,
{
    if m < n {
        lemma_words_grow(data, m, n - 2);
    } else if m > 0 {
        lemma_words_grow(data, m - 2, m - 2);
    }
}

fn add_words(start: u32, data: &[u8]) -> (sum: u32)
    requires
        start + word_sum(data@) <= u32::MAX,
    ensures
        sum == start + word_sum(data@),
{
    let mut sum: u32 = start;
    let mut i: usize = 0;
    let len: usize = data.len();
    while i < len && len - i >= 2
        invariant
            len == data@.len(),
            i <= len,
            i % 2 == 0,
            sum == start + words_below(data@, i as int),
            start + word_sum(data@) <= u32::MAX,
        decreases len - i,
    {
        proof {
            lemma_words_grow(data@, i + 2, len - len % 2);
        }
        sum = sum + word_of(data[i], data[i + 1]);
        i = i + 2;
    }
    if i < len {
        sum = sum + word_of(data[i], 0);
    }
    sum
}

fn fold(start: u32) -> (sum: u16)
    ensures
        sum == folded(start as int),
{
    let mut sum: u32 = start;
    while (sum >> 16) != 0
        invariant
            folded(sum as int) == folded(start as int),
        decreases sum,
    {
        let ghost s = sum;
        assert(s >> 16 == s / 65536 && s & 0xFFFF == s % 65536) by (bit_vector);
        let lo: u32 = sum & 0xFFFF;
        let hi: u32 = sum >> 16;
        proof {
            assert(s == 65536 * hi + lo);
            lemma_mod_multiples_vanish(hi as int, hi + lo - 1, 65535);
            assert(65535 * hi + (hi + lo - 1) == s - 1);
        }
        sum = lo + hi;
    }
    assert(sum >> 16 == 0 ==> sum < 65536) by (bit_vector);
    sum as u16
}

/// The internet checksum of some octets.
pub fn checksum(data: &[u8]) -> (sum: u16)
    requires
        sum_fits(data@),
    ensures
        sum == checksum_of(data@),
{
    proof {
        lemma_sum_bound(data@);
    }
    0xFFFF - fold(add_words(0, data))
}

fn finish_udp(sum: u32) -> (r: u16)
    ensures
        r == udp_checksum_of(sum as int),
{
    let result: u16 = 0xFFFF - fold(sum);
    if result == 0 {
        0xFFFF
    } else {
        result
    }
}

/// The checksum of a UDP segment between two IPv4 addresses.
pub fn udp_checksum_v4(src_ip: &Ipv4Addr, dst_ip: &Ipv4Addr, udp_segment: &[u8]) -> (sum: u16)
    requires
        segment_sum_fits_v4(src_ip.octets@, dst_ip.octets@, udp_segment@),
    ensures
        sum == udp_checksum_of(
            pseudo_sum_v4(src_ip.octets@, dst_ip.octets@, udp_segment@.len()) + word_sum(
                udp_segment@,
            ),
        ),
{
    proof {
        lemma_words_grow(src_ip.octets@, 0, 4);
        lemma_words_grow(dst_ip.octets@, 0, 4);
        lemma_words_bound(src_ip.octets@, 4);
        lemma_words_bound(dst_ip.octets@, 4);
        lemma_sum_bound(udp_segment@);
        lemma_word_sum_positive(udp_segment@);
        assert(word_sum(src_ip.octets@) == words_below(src_ip.octets@, 4));
        assert(word_sum(dst_ip.octets@) == words_below(dst_ip.octets@, 4));
    }
    let addresses: u32 = add_words(add_words(0, &src_ip.octets), &dst_ip.octets);
    let header: u32 = addresses + 17 + (udp_segment.len() as u32);
    finish_udp(add_words(header, udp_segment))
}

/// The checksum of a UDP segment between two IPv6 addresses.
pub fn udp_checksum_v6(src_ip: &Ipv6Addr, dst_ip: &Ipv6Addr, udp_segment: &[u8]) -> (sum: u16)
    requires
        segment_sum_fits_v6(src_ip.octets@, dst_ip.octets@, udp_segment@),
    ensures
        sum == udp_checksum_of(
            pseudo_sum_v6(src_ip.octets@, dst_ip.octets@, udp_segment@.len()) + word_sum(
                udp_segment@,
            ),
        ),
{
    proof {
        lemma_words_grow(src_ip.octets@, 0, 16);
        lemma_words_grow(dst_ip.octets@, 0, 16);
        lemma_words_bound(src_ip.octets@, 16);
        lemma_words_bound(dst_ip.octets@, 16);
        lemma_sum_bound(udp_segment@);
        lemma_word_sum_positive(udp_segment@);
        assert(word_sum(src_ip.octets@) == words_below(src_ip.octets@, 16));
        assert(word_sum(dst_ip.octets@) == words_below(dst_ip.octets@, 16));
    }
    let addresses: u32 = add_words(add_words(0, &src_ip.octets), &dst_ip.octets);
    let len: usize = udp_segment.len();
    let header: u32 = addresses + ((len / 65536) as u32) + ((len % 65536) as u32) + 17;
    finish_udp(add_words(header, udp_segment))
}

proof fn lemma_word_sum_positive(data: Seq<u8>)
    ensures
        0 <= word_sum(data),
{
    lemma_words_grow(data, 0, data.len() - data.len() % 2);
}

/// An IPv4 address inside the well-known prefix `64:ff9b::/96`.
pub open spec fn mapped(ipv4: Seq<u8>) -> Seq<u8> {
    seq![0x00u8, 0x64u8, 0xffu8, 0x9bu8, 0u8, 0u8, 0u8, 0u8, 0u8, 0u8, 0u8, 0u8] + ipv4
}

/// The IPv6 address that stands for an IPv4 address by RFC 6052.
pub fn ipv4_to_ipv6_mapped(ipv4: Ipv4Addr) -> (ipv6: Ipv6Addr)
    ensures
        ipv6.octets@ == mapped(ipv4.octets@),
{
    let o = ipv4.octets;
    let octets: [u8; 16] = [
        0x00,
        0x64,
        0xff,
        0x9b,
        0,
        0,
        0,
        0,
        0,
        0,
        0,
        0,
        o[0],
        o[1],
        o[2],
        o[3],
    ];
    assert(octets@ =~= mapped(o@));
    Ipv6Addr { octets }
}

fn append(out: &mut Vec<u8>, data: &[u8])
    ensures
        final(out)@ == old(out)@ + data@,
{
    let mut i: usize = 0;
    assert(out@ =~= old(out)@ + data@.take(0));
    while i < data.len()
        invariant
            i <= data@.len(),
            out@ == old(out)@ + data@.take(i as int),
        decreases data@.len() - i,
    {
        out.push(data[i]);
        i = i + 1;
        assert(out@ =~= old(out)@ + data@.take(i as int));
    }
    assert(data@.take(i as int) =~= data@);
}

fn append16(out: &mut Vec<u8>, n: usize)
    ensures
        final(out)@ == old(out)@ + octets16(n as int),
{
    let hi: u8 = ((n / 256) % 256) as u8;
    let lo: u8 = (n % 256) as u8;
    out.push(hi);
    out.push(lo);
    assert(out@ =~= old(out)@ + octets16(n as int));
}

fn build_udp_segment(src_port: u16, dst_port: u16, sum: u16, payload: &[u8]) -> (segment: Vec<u8>)
    requires
        8 + payload@.len() <= usize::MAX,
    ensures
        segment@ == udp_segment(src_port, dst_port, sum as int, payload@),
{
    let mut segment: Vec<u8> = Vec::new();
    append16(&mut segment, src_port as usize);
    append16(&mut segment, dst_port as usize);
    append16(&mut segment, 8 + payload.len());
    append16(&mut segment, sum as usize);
    append(&mut segment, payload);
    assert(segment@ =~= udp_segment(src_port, dst_port, sum as int, payload@));
    segment
}

fn build_ipv4_header(src: &[u8], dst: &[u8], total_len: usize, sum: u16) -> (header: Vec<u8>)
    ensures
        header@ == ipv4_header(src@, dst@, total_len as int, sum as int),
{
    let mut header: Vec<u8> = Vec::new();
    let head: [u8; 2] = [0x45, 0x00];
    let middle: [u8; 6] = [0x00, 0x00, 0x40, 0x00, 64, 17];
    append(&mut header, &head);
    append16(&mut header, total_len);
    append(&mut header, &middle);
    append16(&mut header, sum as usize);
    append(&mut header, src);
    append(&mut header, dst);
    assert(head@ =~= seq![0x45u8, 0u8]);
    assert(middle@ =~= seq![0u8, 0u8, 0x40u8, 0u8, 64u8, UDP]);
    header
}

/// An IPv4 packet that carries a payload over UDP.
pub fn build_ipv4_udp_packet(
    src_ip: Ipv4Addr,
    dst_ip: Ipv4Addr,
    src_port: u16,
    dst_port: u16,
    payload: &[u8],
) -> (packet: Vec<u8>)
    requires
        28 + payload@.len() <= usize::MAX,
        sum_fits_v4(src_ip.octets@, dst_ip.octets@, src_port, dst_port, payload@),
    ensures
        packet@ == header_v4(src_ip.octets@, dst_ip.octets@, payload@) + segment_v4(
            src_ip.octets@,
            dst_ip.octets@,
            src_port,
            dst_port,
            payload@,
        ),
{
    let total_len: usize = 28 + payload.len();
    let blank = build_ipv4_header(&src_ip.octets, &dst_ip.octets, total_len, 0);
    proof {
        lemma_sum_bound(blank@);
    }
    let ip_checksum: u16 = checksum(blank.as_slice());
    let mut packet = build_ipv4_header(&src_ip.octets, &dst_ip.octets, total_len, ip_checksum);
    let plain = build_udp_segment(src_port, dst_port, 0, payload);
    let sum: u16 = udp_checksum_v4(&src_ip, &dst_ip, plain.as_slice());
    let segment = build_udp_segment(src_port, dst_port, sum, payload);
    append(&mut packet, segment.as_slice());
    packet
}

/// A UDP segment that carries a payload over IPv6.
pub fn build_ipv6_udp_packet(
    src_ip: Ipv6Addr,
    dst_ip: Ipv6Addr,
    src_port: u16,
    dst_port: u16,
    payload: &[u8],
) -> (packet: Vec<u8>)
    requires
        8 + payload@.len() <= usize::MAX,
        sum_fits_v6(src_ip.octets@, dst_ip.octets@, src_port, dst_port, payload@),
    ensures
        packet@ == segment_v6(src_ip.octets@, dst_ip.octets@, src_port, dst_port, payload@),
{
    let plain = build_udp_segment(src_port, dst_port, 0, payload);
    let sum: u16 = udp_checksum_v6(&src_ip, &dst_ip, plain.as_slice());
    build_udp_segment(src_port, dst_port, sum, payload)
}

/// An IPv6 packet that carries a payload over UDP, from the very address that
/// its checksum is taken over.
fn wrap_ipv6(
    src_ip: Ipv6Addr,
    dst_ip: Ipv6Addr,
    src_port: u16,
    dst_port: u16,
    payload: &[u8],
) -> (packet: Vec<u8>)
    requires
        8 + payload@.len() <= usize::MAX,
        sum_fits_v6(src_ip.octets@, dst_ip.octets@, src_port, dst_port, payload@),
    ensures
        packet@ == packet_v6(src_ip.octets@, dst_ip.octets@, src_port, dst_port, payload@),
{
    let segment = build_ipv6_udp_packet(src_ip, dst_ip, src_port, dst_port, payload);
    let mut packet: Vec<u8> = Vec::new();
    let head: [u8; 4] = [0x60, 0x00, 0x00, 0x00];
    let middle: [u8; 2] = [17, 64];
    append(&mut packet, &head);
    append16(&mut packet, 8 + payload.len());
    append(&mut packet, &middle);
    append(&mut packet, &src_ip.octets);
    append(&mut packet, &dst_ip.octets);
    assert(head@ =~= seq![0x60u8, 0u8, 0u8, 0u8]);
    assert(middle@ =~= seq![UDP, 64u8]);
    append(&mut packet, segment.as_slice());
    packet
}

/// Some octets sum up to at most 65535 for every two of them.
proof fn lemma_sum_bound(data: Seq<u8>)
    ensures
        0 <= word_sum(data) <= 65535 * ((data.len() + 1) / 2),
{
    let n = data.len() as int;
    lemma_word_sum_positive(data);
    lemma_words_bound(data, n - n % 2);
}

proof fn lemma_words_bound(data: Seq<u8>, n: int)
    requires
        0 <= n <= data.len(),
        n % 2 == 0,
    ensures
        words_below(data, n) <= 65535 * (n / 2),
    decreases n,
{
    if n >= 2 {
        lemma_words_bound(data, n - 2);
    }
}

/// Putting a word where two zero octets were adds it to the sum.
proof fn lemma_word_in_place(a: Seq<u8>, b: Seq<u8>, at: int, n: int)
    requires
        a.len() == b.len(),
        0 <= at,
        at + 2 <= n <= a.len(),
        at % 2 == 0,
        n % 2 == 0,
        a[at] == 0,
        a[at + 1] == 0,
        forall|i: int| 0 <= i < a.len() && i != at && i != at + 1 ==> a[i] == b[i],
    ensures
        words_below(b, n) == words_below(a, n) + word(b[at], b[at + 1]),
    decreases n,
{
    if n == at + 2 {
        lemma_same_words(a, b, at);
    } else {
        lemma_word_in_place(a, b, at, n - 2);
    }
}

proof fn lemma_same_words(a: Seq<u8>, b: Seq<u8>, n: int)
    requires
        a.len() == b.len(),
        0 <= n <= a.len(),
        forall|i: int| 0 <= i < n ==> a[i] == b[i],
    ensures
        words_below(a, n) == words_below(b, n),
    decreases n,
{
    if n >= 2 {
        lemma_same_words(a, b, n - 2);
    }
}

/// A sum and the complement of its fold fold to all ones.
proof fn lemma_complement(sum: int)
    requires
        sum > 0,
    ensures
        folded(sum + 65535 - folded(sum)) == 65535,
        folded(sum) == 65535 ==> folded(sum + 65535) == 65535,
{
    let q = (sum - 1) / 65535;
    assert(sum - 1 == 65535 * q + (sum - 1) % 65535);
    assert(sum + 65535 - folded(sum) - 1 == 65535 * q + 65534);
    lemma_mod_multiples_vanish(q, 65534, 65535);
    if folded(sum) == 65535 {
        lemma_mod_multiples_vanish(1, sum - 1, 65535);
    }
}

proof fn lemma_octets16(n: int)
    requires
        0 <= n <= 65535,
    ensures
        word(octets16(n)[0], octets16(n)[1]) == n,
{
}

/// The header of every IPv4 packet built here checks out: its own checksum
/// over all of it, the checksum field with it, is zero.
pub proof fn law_ip_header_verifies(src: Seq<u8>, dst: Seq<u8>, payload: Seq<u8>)
    requires
        src.len() == 4,
        dst.len() == 4,
    ensures
        header_v4(src, dst, payload).len() == 20,
        checksum_of(header_v4(src, dst, payload)) == 0,
{
    let total_len = 28 + payload.len() as int;
    let blank = ipv4_header(src, dst, total_len, 0);
    let sum = checksum_of(blank);
    let full = ipv4_header(src, dst, total_len, sum);
    lemma_sum_bound(blank);
    assert(blank.len() == 20 && full.len() == 20);
    assert forall|i: int| 0 <= i < 20 && i != 10 && i != 11 implies blank[i] == full[i] by {}
    lemma_octets16(sum);
    assert(full[10] == octets16(sum)[0] && full[11] == octets16(sum)[1]);
    lemma_word_in_place(blank, full, 10, 20);
    lemma_words_grow(blank, 2, 20);
    assert(words_below(blank, 2) == word(blank[0], blank[1]) + words_below(blank, 0));
    lemma_complement(word_sum(blank));
}

/// Every UDP segment built here for IPv4 checks out at the receiver: the
/// addresses, protocol, length and the whole segment, the checksum field with
/// it, fold to all ones. And the field is never zero, which would mean that
/// there is no checksum.
pub proof fn law_udp_segment_v4_verifies(
    src: Seq<u8>,
    dst: Seq<u8>,
    src_port: u16,
    dst_port: u16,
    payload: Seq<u8>,
)
    requires
        src.len() == 4,
        dst.len() == 4,
    ensures
        ({
            let segment = segment_v4(src, dst, src_port, dst_port, payload);
            &&& segment.len() == 8 + payload.len()
            &&& folded(pseudo_sum_v4(src, dst, segment.len()) + word_sum(segment)) == 65535
            &&& word(segment[6], segment[7]) != 0
        }),
{
    lemma_words_grow(src, 0, 4);
    lemma_words_grow(dst, 0, 4);
    let blank = udp_segment(src_port, dst_port, 0, payload);
    lemma_segment_verifies(
        pseudo_sum_v4(src, dst, blank.len()),
        src_port,
        dst_port,
        payload,
    );
}

/// The same for IPv6.
pub proof fn law_udp_segment_v6_verifies(
    src: Seq<u8>,
    dst: Seq<u8>,
    src_port: u16,
    dst_port: u16,
    payload: Seq<u8>,
)
    requires
        src.len() == 16,
        dst.len() == 16,
    ensures
        ({
            let segment = segment_v6(src, dst, src_port, dst_port, payload);
            &&& segment.len() == 8 + payload.len()
            &&& folded(pseudo_sum_v6(src, dst, segment.len()) + word_sum(segment)) == 65535
            &&& word(segment[6], segment[7]) != 0
        }),
{
    lemma_words_grow(src, 0, 16);
    lemma_words_grow(dst, 0, 16);
    let blank = udp_segment(src_port, dst_port, 0, payload);
    lemma_segment_verifies(
        pseudo_sum_v6(src, dst, blank.len()),
        src_port,
        dst_port,
        payload,
    );
}

proof fn lemma_segment_verifies(pseudo: int, src_port: u16, dst_port: u16, payload: Seq<u8>)
    requires
        pseudo > 0,
    ensures
        ({
            let blank = udp_segment(src_port, dst_port, 0, payload);
            let sum = udp_checksum_of(pseudo + word_sum(blank));
            let full = udp_segment(src_port, dst_port, sum, payload);
            &&& full.len() == 8 + payload.len()
            &&& blank.len() == full.len()
            &&& folded(pseudo + word_sum(full)) == 65535
            &&& word(full[6], full[7]) != 0
        }),
{
    let blank = udp_segment(src_port, dst_port, 0, payload);
    let total = pseudo + word_sum(blank);
    let sum = udp_checksum_of(total);
    let full = udp_segment(src_port, dst_port, sum, payload);
    lemma_word_sum_positive(blank);
    assert(0 < sum <= 65535);
    lemma_octets16(sum);
    assert(full[6] == octets16(sum)[0] && full[7] == octets16(sum)[1]);
    assert forall|i: int| 0 <= i < blank.len() && i != 6 && i != 7 implies blank[i] == full[i] by {
        if i >= 8 {
            assert(blank[i] == payload[i - 8]);
            assert(full[i] == payload[i - 8]);
        }
    }
    let n = blank.len() as int;
    lemma_word_in_place(blank, full, 6, n - n % 2);
    lemma_complement(total);
}

/// Why a raw datagram could not be made or sent.
#[derive(Debug, Clone, PartialEq, Eq)]
pub enum RawSocketError {
    /// No socket; with what the system said.
    SocketCreation(String),
    AddressFamilyMismatch,
    NotSupported,
}

impl RawSocketError {
    pub open spec fn text(self) -> Seq<char> {
        match self {
            RawSocketError::SocketCreation(e) => "socket creation failed: "@ + e@,
            RawSocketError::AddressFamilyMismatch => "address family mismatch"@,
            RawSocketError::NotSupported => "raw sockets not supported on this platform"@,
        }
    }

    /// The error in words.
    pub fn message(&self) -> (m: String)
        ensures
            m@ == self.text(),
    {
        match self {
            RawSocketError::SocketCreation(e) => "socket creation failed: ".to_string().concat(
                e.as_str(),
            ),
            RawSocketError::AddressFamilyMismatch => "address family mismatch".to_string(),
            RawSocketError::NotSupported => "raw sockets not supported on this platform".to_string(),
        }
    }
}

/// The family of a socket for raw datagrams.
#[derive(Debug, Clone, Copy, PartialEq, Eq)]
pub struct RawSocket {
    pub is_ipv6: bool,
}

/// The octets that a raw socket sends for a payload from `src` to `dst`:
/// none towards the other family, except that an IPv4 source is mapped
/// towards an IPv6 destination.
pub open spec fn datagram(is_ipv6: bool, src: SocketAddr, dst: SocketAddr, payload: Seq<u8>) -> Option<
    Seq<u8>,
> {
    match (src.ip, dst.ip) {
        (IpAddr::V4(s), IpAddr::V4(d)) => if is_ipv6 {
            None
        } else {
            Some(
                header_v4(s.octets@, d.octets@, payload) + segment_v4(
                    s.octets@,
                    d.octets@,
                    src.port,
                    dst.port,
                    payload,
                ),
            )
        },
        (IpAddr::V6(s), IpAddr::V6(d)) => if !is_ipv6 {
            None
        } else {
            Some(packet_v6(s.octets@, d.octets@, src.port, dst.port, payload))
        },
        (IpAddr::V4(s), IpAddr::V6(d)) => if !is_ipv6 {
            None
        } else {
            Some(packet_v6(mapped(s.octets@), d.octets@, src.port, dst.port, payload))
        },
        (IpAddr::V6(_), IpAddr::V4(_)) => None,
    }
}

/// Where a datagram is made, its sums fit.
pub open spec fn datagram_fits(src: SocketAddr, dst: SocketAddr, payload: Seq<u8>) -> bool {
    match (src.ip, dst.ip) {
        (IpAddr::V4(s), IpAddr::V4(d)) => sum_fits_v4(
            s.octets@,
            d.octets@,
            src.port,
            dst.port,
            payload,
        ),
        (IpAddr::V6(s), IpAddr::V6(d)) => sum_fits_v6(
            s.octets@,
            d.octets@,
            src.port,
            dst.port,
            payload,
        ),
        (IpAddr::V4(s), IpAddr::V6(d)) => sum_fits_v6(
            mapped(s.octets@),
            d.octets@,
            src.port,
            dst.port,
            payload,
        ),
        (IpAddr::V6(_), IpAddr::V4(_)) => true,
    }
}

impl RawSocket {
    pub fn new_v4() -> (s: RawSocket)
        ensures
            !s.is_ipv6,
    {
        RawSocket { is_ipv6: false }
    }

    pub fn new_v6() -> (s: RawSocket)
        ensures
            s.is_ipv6,
    {
        RawSocket { is_ipv6: true }
    }

    /// What to hand to the socket so that `payload` goes from `src_addr` to
    /// `dst_addr`.
    pub fn packet_to(&self, src_addr: SocketAddr, dst_addr: SocketAddr, payload: &[u8]) -> (r: Result<
        Vec<u8>,
        RawSocketError,
    >)
        requires
            28 + payload@.len() <= usize::MAX,
            datagram_fits(src_addr, dst_addr, payload@),
        ensures
            match datagram(self.is_ipv6, src_addr, dst_addr, payload@) {
                Some(octets) => r matches Ok(packet) && packet@ == octets,
                None => r == Err::<Vec<u8>, RawSocketError>(RawSocketError::AddressFamilyMismatch),
            },
    {
        match (src_addr.ip, dst_addr.ip) {
            (IpAddr::V4(src_ip), IpAddr::V4(dst_ip)) => {
                if self.is_ipv6 {
                    return Err(RawSocketError::AddressFamilyMismatch);
                }
                Ok(build_ipv4_udp_packet(src_ip, dst_ip, src_addr.port, dst_addr.port, payload))
            },
            (IpAddr::V6(src_ip), IpAddr::V6(dst_ip)) => {
                if !self.is_ipv6 {
                    return Err(RawSocketError::AddressFamilyMismatch);
                }
                Ok(wrap_ipv6(src_ip, dst_ip, src_addr.port, dst_addr.port, payload))
            },
            (IpAddr::V4(src_ip), IpAddr::V6(dst_ip)) => {
                if !self.is_ipv6 {
                    return Err(RawSocketError::AddressFamilyMismatch);
                }
                let mapped_src = ipv4_to_ipv6_mapped(src_ip);
                Ok(wrap_ipv6(mapped_src, dst_ip, src_addr.port, dst_addr.port, payload))
            },
            (IpAddr::V6(_), IpAddr::V4(_)) => Err(RawSocketError::AddressFamilyMismatch),
        }
    }

    /// Sends `payload` from `src_addr` to `dst_addr` by handing the datagram
    /// to `transmit`, which tells how many octets went out or why none did.
    /// Towards the other family nothing is handed to it.
    pub fn send_to<F: Fn(&[u8]) -> Result<usize, String>>(
        &self,
        src_addr: SocketAddr,
        dst_addr: SocketAddr,
        payload: &[u8],
        transmit: F,
    ) -> (r: Result<usize, RawSocketError>)
        requires
            28 + payload@.len() <= usize::MAX,
            datagram_fits(src_addr, dst_addr, payload@),
            forall|packet: &[u8]| #[trigger] call_requires(transmit, (packet,)),
        ensures
            match datagram(self.is_ipv6, src_addr, dst_addr, payload@) {
                Some(octets) => exists|packet: &[u8], outcome: Result<usize, String>|
                    packet@ == octets && #[trigger] call_ensures(transmit, (packet,), outcome) && r
                        == sent_as(outcome),
                None => r == Err::<usize, RawSocketError>(RawSocketError::AddressFamilyMismatch),
            },
    {
        match self.packet_to(src_addr, dst_addr, payload) {
            Ok(packet) => {
                let octets = packet.as_slice();
                let outcome = transmit(octets);
                assert(call_ensures(transmit, (octets,), outcome));
                match outcome {
                    Ok(sent) => Ok(sent),
                    Err(e) => Err(RawSocketError::SocketCreation(e)),
                }
            },
            Err(e) => Err(e),
        }
    }
}

/// What is said of a transmission.
pub open spec fn sent_as(outcome: Result<usize, String>) -> Result<usize, RawSocketError> {
    match outcome {
        Ok(sent) => Ok(sent),
        Err(e) => Err(RawSocketError::SocketCreation(e)),
    }
}

/// Any payload that a listener takes in, of at most 65535 octets, can be sent
/// on: the sums of its datagram fit.
pub proof fn law_received_datagrams_fit(src: SocketAddr, dst: SocketAddr, payload: Seq<u8>)
    requires
        payload.len() <= 65535,
    ensures
        datagram_fits(src, dst, payload),
{
}

/// The octets that stand for an address in a packet of a family: an IPv4
/// address is mapped in an IPv6 packet.
pub open spec fn carried(ip: IpAddr, in_ipv6: bool) -> Seq<u8> {
    match ip {
        IpAddr::V4(a) => if in_ipv6 {
            mapped(a.octets@)
        } else {
            a.octets@
        },
        IpAddr::V6(a) => a.octets@,
    }
}

/// A packet leaves from the source that it was given and for its destination:
/// the header says so, in the place where the family has them, and so do the
/// ports of the segment behind it. The checksum of the segment is taken over
/// those same addresses.
pub proof fn law_packet_carries_its_source(
    is_ipv6: bool,
    src: SocketAddr,
    dst: SocketAddr,
    payload: Seq<u8>,
)
    requires
        datagram(is_ipv6, src, dst, payload) is Some,
    ensures
        ({
            let packet = datagram(is_ipv6, src, dst, payload)->0;
            let s = carried(src.ip, is_ipv6);
            let d = dst.ip.octets();
            if is_ipv6 {
                let segment = segment_v6(s, d, src.port, dst.port, payload);
                &&& packet.len() == 48 + payload.len()
                &&& packet[0] == 0x60
                &&& packet.subrange(8, 24) == s
                &&& packet.subrange(24, 40) == d
                &&& packet.skip(40) == segment
                &&& folded(pseudo_sum_v6(s, d, segment.len()) + word_sum(segment)) == 65535
            } else {
                let segment = segment_v4(s, d, src.port, dst.port, payload);
                &&& packet.len() == 28 + payload.len()
                &&& packet[0] == 0x45
                &&& packet.subrange(12, 16) == s
                &&& packet.subrange(16, 20) == d
                &&& packet.skip(20) == segment
                &&& folded(pseudo_sum_v4(s, d, segment.len()) + word_sum(segment)) == 65535
            }
        }),
{
    let packet = datagram(is_ipv6, src, dst, payload)->0;
    let s = carried(src.ip, is_ipv6);
    let d = dst.ip.octets();
    if is_ipv6 {
        assert(s.len() == 16 && d.len() == 16);
        law_udp_segment_v6_verifies(s, d, src.port, dst.port, payload);
        assert(packet.subrange(8, 24) =~= s);
        assert(packet.subrange(24, 40) =~= d);
        assert(packet.skip(40) =~= segment_v6(s, d, src.port, dst.port, payload));
    } else {
        assert(s.len() == 4 && d.len() == 4);
        law_ip_header_verifies(s, d, payload);
        law_udp_segment_v4_verifies(s, d, src.port, dst.port, payload);
        assert(packet.subrange(12, 16) =~= s);
        assert(packet.subrange(16, 20) =~= d);
        assert(packet.skip(20) =~= segment_v4(s, d, src.port, dst.port, payload));
    }
}

/// The words of octets side by side: an even number of octets in front adds
/// its words to those behind, two octets make one word, and one octet alone is
/// the high half of one.
pub proof fn law_words_add_up(front: Seq<u8>, back: Seq<u8>, hi: u8, lo: u8)
    requires
        front.len() % 2 == 0,
    ensures
        word_sum(front + back) == word_sum(front) + word_sum(back),
        word_sum(seq![hi, lo]) == hi * 256 + lo,
        word_sum(seq![hi]) == hi * 256,
        word_sum(Seq::empty()) == 0,
{
    reveal_with_fuel(words_below, 2);
    let n = back.len() as int;
    lemma_words_of_both(front, back, n - n % 2);
    if n % 2 == 1 {
        assert((front + back)[front.len() + n - 1] == back[n - 1]);
    }
}

proof fn lemma_words_of_both(front: Seq<u8>, back: Seq<u8>, n: int)
    requires
        front.len() % 2 == 0,
        0 <= n <= back.len(),
        n % 2 == 0,
    ensures
        words_below(front + back, front.len() + n) == words_below(front, front.len() as int)
            + words_below(back, n),
    decreases n,
{
    if n == 0 {
        lemma_words_of_front(front, back, front.len() as int);
    } else {
        lemma_words_of_both(front, back, n - 2);
        let m = front.len() + n;
        assert((front + back)[m - 2] == back[n - 2]);
        assert((front + back)[m - 1] == back[n - 1]);
    }
}

proof fn lemma_words_of_front(front: Seq<u8>, back: Seq<u8>, n: int)
    requires
        0 <= n <= front.len(),
    ensures
        words_below(front + back, n) == words_below(front, n),
    decreases n,
{
    if n >= 2 {
        lemma_words_of_front(front, back, n - 2);
    }
}

/// A folded sum fits 16 bits, leaves the same rest by 65535 as the sum, and is
/// zero for no sum but zero, however large the sum.
pub proof fn law_folding_keeps_the_rest(sum: int)
    requires
        sum >= 0,
    ensures
        0 <= folded(sum) <= 65535,
        folded(sum) % 65535 == sum % 65535,
        folded(sum) == 0 <==> sum == 0,
        sum <= 65535 ==> folded(sum) == sum,
{
    if sum > 0 {
        let q = (sum - 1) / 65535;
        let r = (sum - 1) % 65535;
        assert(sum == 65535 * q + (r + 1));
        lemma_mod_multiples_vanish(q, r + 1, 65535);
    }
}

/// A checksum is what is missing from the folded sum of the words to all ones;
/// for UDP all ones stand for none missing.
pub proof fn law_checksums_are_complements(data: Seq<u8>, sum: int)
    ensures
        checksum_of(data) + folded(word_sum(data)) == 65535,
        folded(sum) != 65535 ==> udp_checksum_of(sum) + folded(sum) == 65535,
        folded(sum) == 65535 ==> udp_checksum_of(sum) == 65535,
        udp_checksum_of(sum) != 0,
{
}

/// What the addresses, the protocol and the length add to a UDP checksum: their
/// words.
pub proof fn law_pseudo_headers(src: Seq<u8>, dst: Seq<u8>, len: nat)
    requires
        len <= u32::MAX,
    ensures
        src.len() == 4 && dst.len() == 4 ==> pseudo_sum_v4(src, dst, len) == word_sum(src) + word_sum(
            dst,
        ) + 17 + len,
        src.len() == 16 && dst.len() == 16 ==> pseudo_sum_v6(src, dst, len) == word_sum(src)
            + word_sum(dst) + 17 + len / 65536 + len % 65536,
{
}

/// A raw socket sends within its own family and from IPv4 into IPv6, and
/// nothing else.
pub proof fn law_families_of_datagrams(
    is_ipv6: bool,
    src: SocketAddr,
    dst: SocketAddr,
    payload: Seq<u8>,
)
    ensures
        datagram(is_ipv6, src, dst, payload) is Some <==> (is_ipv6 && dst.ip is V6) || (!is_ipv6
            && src.ip is V4 && dst.ip is V4),
{
}

/// An IPv4 address in an IPv6 packet is the last four octets behind
/// `64:ff9b::`.
pub proof fn law_ipv4_in_ipv6(a: Ipv4Addr, b: Ipv6Addr, in_ipv6: bool)
    ensures
        carried(IpAddr::V4(a), true) == seq![
            0u8,
            0x64,
            0xff,
            0x9b,
            0,
            0,
            0,
            0,
            0,
            0,
            0,
            0,
            a.octets@[0],
            a.octets@[1],
            a.octets@[2],
            a.octets@[3],
        ],
        carried(IpAddr::V4(a), false) == a.octets@,
        carried(IpAddr::V6(b), in_ipv6) == b.octets@,
{
    assert(carried(IpAddr::V4(a), true) =~= seq![
        0u8,
        0x64,
        0xff,
        0x9b,
        0,
        0,
        0,
        0,
        0,
        0,
        0,
        0,
        a.octets@[0],
        a.octets@[1],
        a.octets@[2],
        a.octets@[3],
    ]);
}

/// An IPv4 packet, octet by octet: twenty octets of header without options,
/// with the whole length, no identification, "don't fragment", 64 hops and the
/// protocol of UDP; then the ports and the length of the segment; and then the
/// payload, all of it and as it was.
pub proof fn law_octets_of_an_ipv4_packet(src: SocketAddr, dst: SocketAddr, payload: Seq<u8>)
    requires
        src.ip is V4,
        dst.ip is V4,
    ensures
        ({
            let packet = datagram(false, src, dst, payload)->0;
            let n = payload.len() as int;
            &&& packet.len() == 28 + n
            &&& packet[0] == 0x45
            &&& packet[1] == 0
            &&& packet[2] == (28 + n) / 256 % 256
            &&& packet[3] == (28 + n) % 256
            &&& packet[4] == 0
            &&& packet[5] == 0
            &&& packet[6] == 0x40
            &&& packet[7] == 0
            &&& packet[8] == 64
            &&& packet[9] == 17
            &&& packet.subrange(12, 16) == src.ip.octets()
            &&& packet.subrange(16, 20) == dst.ip.octets()
            &&& packet[20] == src.port / 256
            &&& packet[21] == src.port % 256
            &&& packet[22] == dst.port / 256
            &&& packet[23] == dst.port % 256
            &&& packet[24] == (8 + n) / 256 % 256
            &&& packet[25] == (8 + n) % 256
            &&& packet.skip(28) == payload
        }),
{
    let packet = datagram(false, src, dst, payload)->0;
    let s = src.ip.octets();
    let d = dst.ip.octets();
    let header = header_v4(s, d, payload);
    let segment = segment_v4(s, d, src.port, dst.port, payload);
    assert(header.len() == 20);
    assert(packet =~= header + segment);
    lemma_segment_octets_v4(s, d, src.port, dst.port, payload);
    assert(packet.subrange(12, 16) =~= s);
    assert(packet.subrange(16, 20) =~= d);
    assert(packet.skip(28) =~= segment.skip(8));
    assert(forall|i: int| 0 <= i < 8 ==> packet[20 + i] == #[trigger] segment[i]);
    assert(packet[20] == segment[0] && packet[21] == segment[1] && packet[22] == segment[2]
        && packet[23] == segment[3] && packet[24] == segment[4] && packet[25] == segment[5]);
}

proof fn lemma_segment_octets_v4(
    s: Seq<u8>,
    d: Seq<u8>,
    src_port: u16,
    dst_port: u16,
    payload: Seq<u8>,
)
    ensures
        ({
            let segment = segment_v4(s, d, src_port, dst_port, payload);
            let n = payload.len() as int;
            &&& segment.len() == 8 + n
            &&& segment[0] == src_port / 256
            &&& segment[1] == src_port % 256
            &&& segment[2] == dst_port / 256
            &&& segment[3] == dst_port % 256
            &&& segment[4] == (8 + n) / 256 % 256
            &&& segment[5] == (8 + n) % 256
            &&& segment.skip(8) == payload
        }),
{
    let segment = segment_v4(s, d, src_port, dst_port, payload);
    assert(segment.skip(8) =~= payload);
}

proof fn lemma_segment_octets_v6(
    s: Seq<u8>,
    d: Seq<u8>,
    src_port: u16,
    dst_port: u16,
    payload: Seq<u8>,
)
    ensures
        ({
            let segment = segment_v6(s, d, src_port, dst_port, payload);
            let n = payload.len() as int;
            &&& segment.len() == 8 + n
            &&& segment[0] == src_port / 256
            &&& segment[1] == src_port % 256
            &&& segment[2] == dst_port / 256
            &&& segment[3] == dst_port % 256
            &&& segment[4] == (8 + n) / 256 % 256
            &&& segment[5] == (8 + n) % 256
            &&& segment.skip(8) == payload
        }),
{
    let segment = segment_v6(s, d, src_port, dst_port, payload);
    assert(segment.skip(8) =~= payload);
}

/// An IPv6 packet, octet by octet: forty octets of header with no traffic
/// class or flow label, the length of the segment, the protocol of UDP and 64
/// hops; then the ports and the length of the segment; and then the payload,
/// all of it and as it was.
pub proof fn law_octets_of_an_ipv6_packet(src: SocketAddr, dst: SocketAddr, payload: Seq<u8>)
    requires
        dst.ip is V6,
    ensures
        ({
            let packet = datagram(true, src, dst, payload)->0;
            let n = payload.len() as int;
            &&& packet.len() == 48 + n
            &&& packet[0] == 0x60
            &&& packet[1] == 0
            &&& packet[2] == 0
            &&& packet[3] == 0
            &&& packet[4] == (8 + n) / 256 % 256
            &&& packet[5] == (8 + n) % 256
            &&& packet[6] == 17
            &&& packet[7] == 64
            &&& packet.subrange(8, 24) == carried(src.ip, true)
            &&& packet.subrange(24, 40) == dst.ip.octets()
            &&& packet[40] == src.port / 256
            &&& packet[41] == src.port % 256
            &&& packet[42] == dst.port / 256
            &&& packet[43] == dst.port % 256
            &&& packet[44] == (8 + n) / 256 % 256
            &&& packet[45] == (8 + n) % 256
            &&& packet.skip(48) == payload
        }),
{
    let packet = datagram(true, src, dst, payload)->0;
    let s = carried(src.ip, true);
    let d = dst.ip.octets();
    let header = header_v6(s, d, 8 + payload.len() as int);
    let segment = segment_v6(s, d, src.port, dst.port, payload);
    assert(s.len() == 16 && d.len() == 16);
    assert(header.len() == 40);
    assert(packet =~= header + segment);
    lemma_segment_octets_v6(s, d, src.port, dst.port, payload);
    assert(packet.subrange(8, 24) =~= s);
    assert(packet.subrange(24, 40) =~= d);
    assert(packet.skip(48) =~= segment.skip(8));
    assert(forall|i: int| 0 <= i < 8 ==> packet[40 + i] == #[trigger] segment[i]);
    assert(packet[40] == segment[0] && packet[41] == segment[1] && packet[42] == segment[2]
        && packet[43] == segment[3] && packet[44] == segment[4] && packet[45] == segment[5]);
}

/// What is said of a transmission is what came of it: the octets that went out,
/// or why none did.
pub proof fn law_transmissions_are_told(outcome: Result<usize, String>)
    ensures
        outcome matches Ok(n) ==> sent_as(outcome) == Ok::<usize, RawSocketError>(n),
        outcome matches Err(e) ==> sent_as(outcome) == Err::<usize, RawSocketError>(
            RawSocketError::SocketCreation(e),
        ),
{
}

/// Only sums of more octets than two datagrams hold could be too large: up to
/// that, every sum that a checksum is taken of fits.
pub proof fn law_sums_of_datagrams_fit(data: Seq<u8>, src: Seq<u8>, dst: Seq<u8>)
    ensures
        data.len() <= 131_072 ==> sum_fits(data),
        data.len() <= 131_008 ==> segment_sum_fits_v4(src, dst, data) && segment_sum_fits_v6(
            src,
            dst,
            data,
        ),
{
}

/// The errors of a raw socket, in words, with what the system said.
pub proof fn law_raw_errors_in_words(e: String)
    ensures
        RawSocketError::SocketCreation(e).text() == "socket creation failed: "@ + e@,
        RawSocketError::AddressFamilyMismatch.text() == "address family mismatch"@,
        RawSocketError::NotSupported.text() == "raw sockets not supported on this platform"@,
{
}

/// Two octets hold a 16-bit number with the high one first, and give it back.
pub proof fn law_sixteen_bits_in_two_octets(n: u16)
    ensures
        octets16(n as int).len() == 2,
        octets16(n as int)[0] == n / 256,
        octets16(n as int)[1] == n % 256,
        word(octets16(n as int)[0], octets16(n as int)[1]) == n,
{
}

} // verus!
