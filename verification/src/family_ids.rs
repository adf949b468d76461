//! The numbers by which a registry tells the families of the balancer apart.
use crate::hashing;
use crate::hashing::{hash_step, HASH_START};
use vstd::prelude::*;
use vstd::utf8::{encode_utf8, is_ascii_chars, is_ascii_chars_encode_utf8};

verus! {

/// The number by which a registry tells families apart: the hash of the name
/// with a mark behind it.
pub open spec fn family_id(name: Seq<char>) -> u64 {
    hashing::fnv1a(encode_utf8(name).push(0xFF))
}

/// One byte more in a hash.
#[verifier::opaque]
spec fn mix(hash: u64, byte: u8) -> u64 {
    hash_step(hash, byte)
}

/// The hash of a name from index `i` on, and of the mark behind it, where `h`
/// is the hash of what comes before.
spec fn hash_from(h: u64, name: Seq<char>, i: int) -> u64
    decreases name.len() - i,
{
    if i < 0 || i >= name.len() {
        mix(h, 0xFF)
    } else {
        hash_from(mix(h, name[i] as u8), name, i + 1)
    }
}

proof fn lemma_hash_from(name: Seq<char>, i: int)
    requires
        is_ascii_chars(name),
        0 <= i <= name.len(),
    ensures
        family_id(name) == hash_from(hashing::fnv1a(encode_utf8(name).take(i)), name, i),
    decreases name.len() - i,
{
    reveal(mix);
    is_ascii_chars_encode_utf8(name);
    let bytes = encode_utf8(name);
    if i < name.len() {
        lemma_hash_from(name, i + 1);
        assert(bytes.take(i + 1).drop_last() =~= bytes.take(i));
    } else {
        assert(bytes.take(i) =~= bytes);
        assert(bytes.push(0xFF).drop_last() =~= bytes);
    }
}

proof fn lemma_hash_of_all(name: Seq<char>)
    requires
        is_ascii_chars(name),
    ensures
        family_id(name) == hash_from(HASH_START, name, 0),
{
    lemma_hash_from(name, 0);
    assert(encode_utf8(name).take(0) =~= Seq::<u8>::empty());
}

proof fn lemma_packets_received_total()
    ensures
        family_id("udp_balancer_packets_received_total"@) == 0xab6ef366817516b1_u64,
{
    reveal_strlit("udp_balancer_packets_received_total");
    lemma_hash_of_all("udp_balancer_packets_received_total"@);
    assert(
        mix(mix(mix(mix(mix(mix(mix(mix(mix(mix(mix(mix(mix(mix(mix(mix(mix(mix(mix(mix(mix(mix(
        mix(mix(mix(mix(mix(mix(mix(mix(mix(mix(mix(mix(mix(mix(HASH_START, 0x75), 0x64), 0x70),
        0x5f), 0x62), 0x61), 0x6c), 0x61), 0x6e), 0x63), 0x65), 0x72), 0x5f), 0x70), 0x61), 0x63),
        0x6b), 0x65), 0x74), 0x73), 0x5f), 0x72), 0x65), 0x63), 0x65), 0x69), 0x76), 0x65), 0x64),
        0x5f), 0x74), 0x6f), 0x74), 0x61), 0x6c), 0xFF) == 0xab6ef366817516b1_u64) by (bit_vector);
    reveal_with_fuel(hash_from, 37);
}

proof fn lemma_bytes_received_total()
    ensures
        family_id("udp_balancer_bytes_received_total"@) == 0x03898208e17a416f_u64,
{
    reveal_strlit("udp_balancer_bytes_received_total");
    lemma_hash_of_all("udp_balancer_bytes_received_total"@);
    assert(
        mix(mix(mix(mix(mix(mix(mix(mix(mix(mix(mix(mix(mix(mix(mix(mix(mix(mix(mix(mix(mix(mix(
        mix(mix(mix(mix(mix(mix(mix(mix(mix(mix(mix(mix(HASH_START, 0x75), 0x64), 0x70), 0x5f),
        0x62), 0x61), 0x6c), 0x61), 0x6e), 0x63), 0x65), 0x72), 0x5f), 0x62), 0x79), 0x74), 0x65),
        0x73), 0x5f), 0x72), 0x65), 0x63), 0x65), 0x69), 0x76), 0x65), 0x64), 0x5f), 0x74), 0x6f),
        0x74), 0x61), 0x6c), 0xFF) == 0x03898208e17a416f_u64) by (bit_vector);
    reveal_with_fuel(hash_from, 35);
}

proof fn lemma_packets_sent_total()
    ensures
        family_id("udp_balancer_packets_sent_total"@) == 0x17544f5597887b46_u64,
{
    reveal_strlit("udp_balancer_packets_sent_total");
    lemma_hash_of_all("udp_balancer_packets_sent_total"@);
    assert(
        mix(mix(mix(mix(mix(mix(mix(mix(mix(mix(mix(mix(mix(mix(mix(mix(mix(mix(mix(mix(mix(mix(
        mix(mix(mix(mix(mix(mix(mix(mix(mix(mix(HASH_START, 0x75), 0x64), 0x70), 0x5f), 0x62),
        0x61), 0x6c), 0x61), 0x6e), 0x63), 0x65), 0x72), 0x5f), 0x70), 0x61), 0x63), 0x6b), 0x65),
        0x74), 0x73), 0x5f), 0x73), 0x65), 0x6e), 0x74), 0x5f), 0x74), 0x6f), 0x74), 0x61), 0x6c),
        0xFF) == 0x17544f5597887b46_u64) by (bit_vector);
    reveal_with_fuel(hash_from, 33);
}

proof fn lemma_bytes_sent_total()
    ensures
        family_id("udp_balancer_bytes_sent_total"@) == 0xc0386079513d97b0_u64,
{
    reveal_strlit("udp_balancer_bytes_sent_total");
    lemma_hash_of_all("udp_balancer_bytes_sent_total"@);
    assert(
        mix(mix(mix(mix(mix(mix(mix(mix(mix(mix(mix(mix(mix(mix(mix(mix(mix(mix(mix(mix(mix(mix(
        mix(mix(mix(mix(mix(mix(mix(mix(HASH_START, 0x75), 0x64), 0x70), 0x5f), 0x62), 0x61),
        0x6c), 0x61), 0x6e), 0x63), 0x65), 0x72), 0x5f), 0x62), 0x79), 0x74), 0x65), 0x73), 0x5f),
        0x73), 0x65), 0x6e), 0x74), 0x5f), 0x74), 0x6f), 0x74), 0x61), 0x6c), 0xFF) == 0xc0386079513d97b0_u64) by (bit_vector);
    reveal_with_fuel(hash_from, 31);
}

proof fn lemma_backend_packets_sent_total()
    ensures
        family_id("udp_balancer_backend_packets_sent_total"@) == 0xf6ea8b6d87947735_u64,
{
    reveal_strlit("udp_balancer_backend_packets_sent_total");
    lemma_hash_of_all("udp_balancer_backend_packets_sent_total"@);
    assert(
        mix(mix(mix(mix(mix(mix(mix(mix(mix(mix(mix(mix(mix(mix(mix(mix(mix(mix(mix(mix(mix(mix(
        mix(mix(mix(mix(mix(mix(mix(mix(mix(mix(mix(mix(mix(mix(mix(mix(mix(mix(HASH_START, 0x75),
        0x64), 0x70), 0x5f), 0x62), 0x61), 0x6c), 0x61), 0x6e), 0x63), 0x65), 0x72), 0x5f), 0x62),
        0x61), 0x63), 0x6b), 0x65), 0x6e), 0x64), 0x5f), 0x70), 0x61), 0x63), 0x6b), 0x65), 0x74),
        0x73), 0x5f), 0x73), 0x65), 0x6e), 0x74), 0x5f), 0x74), 0x6f), 0x74), 0x61), 0x6c), 0xFF) == 0xf6ea8b6d87947735_u64) by (bit_vector);
    reveal_with_fuel(hash_from, 41);
}

proof fn lemma_backend_bytes_sent_total()
    ensures
        family_id("udp_balancer_backend_bytes_sent_total"@) == 0x9623a7a649915e7b_u64,
{
    reveal_strlit("udp_balancer_backend_bytes_sent_total");
    lemma_hash_of_all("udp_balancer_backend_bytes_sent_total"@);
    assert(
        mix(mix(mix(mix(mix(mix(mix(mix(mix(mix(mix(mix(mix(mix(mix(mix(mix(mix(mix(mix(mix(mix(
        mix(mix(mix(mix(mix(mix(mix(mix(mix(mix(mix(mix(mix(mix(mix(mix(HASH_START, 0x75), 0x64),
        0x70), 0x5f), 0x62), 0x61), 0x6c), 0x61), 0x6e), 0x63), 0x65), 0x72), 0x5f), 0x62), 0x61),
        0x63), 0x6b), 0x65), 0x6e), 0x64), 0x5f), 0x62), 0x79), 0x74), 0x65), 0x73), 0x5f), 0x73),
        0x65), 0x6e), 0x74), 0x5f), 0x74), 0x6f), 0x74), 0x61), 0x6c), 0xFF) == 0x9623a7a649915e7b_u64) by (bit_vector);
    reveal_with_fuel(hash_from, 39);
}

proof fn lemma_backend_packets_failed_total()
    ensures
        family_id("udp_balancer_backend_packets_failed_total"@) == 0xb4d71be9ac16cd3c_u64,
{
    reveal_strlit("udp_balancer_backend_packets_failed_total");
    lemma_hash_of_all("udp_balancer_backend_packets_failed_total"@);
    assert(
        mix(mix(mix(mix(mix(mix(mix(mix(mix(mix(mix(mix(mix(mix(mix(mix(mix(mix(mix(mix(mix(mix(
        mix(mix(mix(mix(mix(mix(mix(mix(mix(mix(mix(mix(mix(mix(mix(mix(mix(mix(mix(mix(
        HASH_START, 0x75), 0x64), 0x70), 0x5f), 0x62), 0x61), 0x6c), 0x61), 0x6e), 0x63), 0x65),
        0x72), 0x5f), 0x62), 0x61), 0x63), 0x6b), 0x65), 0x6e), 0x64), 0x5f), 0x70), 0x61), 0x63),
        0x6b), 0x65), 0x74), 0x73), 0x5f), 0x66), 0x61), 0x69), 0x6c), 0x65), 0x64), 0x5f), 0x74),
        0x6f), 0x74), 0x61), 0x6c), 0xFF) == 0xb4d71be9ac16cd3c_u64) by (bit_vector);
    reveal_with_fuel(hash_from, 43);
}

proof fn lemma_backend_responses_received_total()
    ensures
        family_id("udp_balancer_backend_responses_received_total"@) == 0x1814da188c34177b_u64,
{
    reveal_strlit("udp_balancer_backend_responses_received_total");
    lemma_hash_of_all("udp_balancer_backend_responses_received_total"@);
    assert(
        mix(mix(mix(mix(mix(mix(mix(mix(mix(mix(mix(mix(mix(mix(mix(mix(mix(mix(mix(mix(mix(mix(
        mix(mix(mix(mix(mix(mix(mix(mix(mix(mix(mix(mix(mix(mix(mix(mix(mix(mix(mix(mix(mix(mix(
        mix(mix(HASH_START, 0x75), 0x64), 0x70), 0x5f), 0x62), 0x61), 0x6c), 0x61), 0x6e), 0x63),
        0x65), 0x72), 0x5f), 0x62), 0x61), 0x63), 0x6b), 0x65), 0x6e), 0x64), 0x5f), 0x72), 0x65),
        0x73), 0x70), 0x6f), 0x6e), 0x73), 0x65), 0x73), 0x5f), 0x72), 0x65), 0x63), 0x65), 0x69),
        0x76), 0x65), 0x64), 0x5f), 0x74), 0x6f), 0x74), 0x61), 0x6c), 0xFF) == 0x1814da188c34177b_u64) by (bit_vector);
    reveal_with_fuel(hash_from, 47);
}

proof fn lemma_backend_response_bytes_received_total()
    ensures
        family_id("udp_balancer_backend_response_bytes_received_total"@) == 0x54439667dc4bd9da_u64,
{
    reveal_strlit("udp_balancer_backend_response_bytes_received_total");
    lemma_hash_of_all("udp_balancer_backend_response_bytes_received_total"@);
    assert(
        mix(mix(mix(mix(mix(mix(mix(mix(mix(mix(mix(mix(mix(mix(mix(mix(mix(mix(mix(mix(mix(mix(
        mix(mix(mix(mix(mix(mix(mix(mix(mix(mix(mix(mix(mix(mix(mix(mix(mix(mix(mix(mix(mix(mix(
        mix(mix(mix(mix(mix(mix(mix(HASH_START, 0x75), 0x64), 0x70), 0x5f), 0x62), 0x61), 0x6c),
        0x61), 0x6e), 0x63), 0x65), 0x72), 0x5f), 0x62), 0x61), 0x63), 0x6b), 0x65), 0x6e), 0x64),
        0x5f), 0x72), 0x65), 0x73), 0x70), 0x6f), 0x6e), 0x73), 0x65), 0x5f), 0x62), 0x79), 0x74),
        0x65), 0x73), 0x5f), 0x72), 0x65), 0x63), 0x65), 0x69), 0x76), 0x65), 0x64), 0x5f), 0x74),
        0x6f), 0x74), 0x61), 0x6c), 0xFF) == 0x54439667dc4bd9da_u64) by (bit_vector);
    reveal_with_fuel(hash_from, 52);
}

proof fn lemma_backend_alive()
    ensures
        family_id("udp_balancer_backend_alive"@) == 0x087d927acd74ca8b_u64,
{
    reveal_strlit("udp_balancer_backend_alive");
    lemma_hash_of_all("udp_balancer_backend_alive"@);
    assert(
        mix(mix(mix(mix(mix(mix(mix(mix(mix(mix(mix(mix(mix(mix(mix(mix(mix(mix(mix(mix(mix(mix(
        mix(mix(mix(mix(mix(HASH_START, 0x75), 0x64), 0x70), 0x5f), 0x62), 0x61), 0x6c), 0x61),
        0x6e), 0x63), 0x65), 0x72), 0x5f), 0x62), 0x61), 0x63), 0x6b), 0x65), 0x6e), 0x64), 0x5f),
        0x61), 0x6c), 0x69), 0x76), 0x65), 0xFF) == 0x087d927acd74ca8b_u64) by (bit_vector);
    reveal_with_fuel(hash_from, 28);
}

proof fn lemma_mirror_packets_sent_total()
    ensures
        family_id("udp_balancer_mirror_packets_sent_total"@) == 0xdbed824ac2850672_u64,
{
    reveal_strlit("udp_balancer_mirror_packets_sent_total");
    lemma_hash_of_all("udp_balancer_mirror_packets_sent_total"@);
    assert(
        mix(mix(mix(mix(mix(mix(mix(mix(mix(mix(mix(mix(mix(mix(mix(mix(mix(mix(mix(mix(mix(mix(
        mix(mix(mix(mix(mix(mix(mix(mix(mix(mix(mix(mix(mix(mix(mix(mix(mix(HASH_START, 0x75),
        0x64), 0x70), 0x5f), 0x62), 0x61), 0x6c), 0x61), 0x6e), 0x63), 0x65), 0x72), 0x5f), 0x6d),
        0x69), 0x72), 0x72), 0x6f), 0x72), 0x5f), 0x70), 0x61), 0x63), 0x6b), 0x65), 0x74), 0x73),
        0x5f), 0x73), 0x65), 0x6e), 0x74), 0x5f), 0x74), 0x6f), 0x74), 0x61), 0x6c), 0xFF) == 0xdbed824ac2850672_u64) by (bit_vector);
    reveal_with_fuel(hash_from, 40);
}

proof fn lemma_mirror_bytes_sent_total()
    ensures
        family_id("udp_balancer_mirror_bytes_sent_total"@) == 0xbe4a7a5503dc76fc_u64,
{
    reveal_strlit("udp_balancer_mirror_bytes_sent_total");
    lemma_hash_of_all("udp_balancer_mirror_bytes_sent_total"@);
    assert(
        mix(mix(mix(mix(mix(mix(mix(mix(mix(mix(mix(mix(mix(mix(mix(mix(mix(mix(mix(mix(mix(mix(
        mix(mix(mix(mix(mix(mix(mix(mix(mix(mix(mix(mix(mix(mix(mix(HASH_START, 0x75), 0x64),
        0x70), 0x5f), 0x62), 0x61), 0x6c), 0x61), 0x6e), 0x63), 0x65), 0x72), 0x5f), 0x6d), 0x69),
        0x72), 0x72), 0x6f), 0x72), 0x5f), 0x62), 0x79), 0x74), 0x65), 0x73), 0x5f), 0x73), 0x65),
        0x6e), 0x74), 0x5f), 0x74), 0x6f), 0x74), 0x61), 0x6c), 0xFF) == 0xbe4a7a5503dc76fc_u64) by (bit_vector);
    reveal_with_fuel(hash_from, 38);
}

proof fn lemma_mirror_packets_failed_total()
    ensures
        family_id("udp_balancer_mirror_packets_failed_total"@) == 0x00bc1edb97355dc7_u64,
{
    reveal_strlit("udp_balancer_mirror_packets_failed_total");
    lemma_hash_of_all("udp_balancer_mirror_packets_failed_total"@);
    assert(
        mix(mix(mix(mix(mix(mix(mix(mix(mix(mix(mix(mix(mix(mix(mix(mix(mix(mix(mix(mix(mix(mix(
        mix(mix(mix(mix(mix(mix(mix(mix(mix(mix(mix(mix(mix(mix(mix(mix(mix(mix(mix(HASH_START,
        0x75), 0x64), 0x70), 0x5f), 0x62), 0x61), 0x6c), 0x61), 0x6e), 0x63), 0x65), 0x72), 0x5f),
        0x6d), 0x69), 0x72), 0x72), 0x6f), 0x72), 0x5f), 0x70), 0x61), 0x63), 0x6b), 0x65), 0x74),
        0x73), 0x5f), 0x66), 0x61), 0x69), 0x6c), 0x65), 0x64), 0x5f), 0x74), 0x6f), 0x74), 0x61),
        0x6c), 0xFF) == 0x00bc1edb97355dc7_u64) by (bit_vector);
    reveal_with_fuel(hash_from, 42);
}

proof fn lemma_health_check_total()
    ensures
        family_id("udp_balancer_health_check_total"@) == 0xd7bf87143e7afaa5_u64,
{
    reveal_strlit("udp_balancer_health_check_total");
    lemma_hash_of_all("udp_balancer_health_check_total"@);
    assert(
        mix(mix(mix(mix(mix(mix(mix(mix(mix(mix(mix(mix(mix(mix(mix(mix(mix(mix(mix(mix(mix(mix(
        mix(mix(mix(mix(mix(mix(mix(mix(mix(mix(HASH_START, 0x75), 0x64), 0x70), 0x5f), 0x62),
        0x61), 0x6c), 0x61), 0x6e), 0x63), 0x65), 0x72), 0x5f), 0x68), 0x65), 0x61), 0x6c), 0x74),
        0x68), 0x5f), 0x63), 0x68), 0x65), 0x63), 0x6b), 0x5f), 0x74), 0x6f), 0x74), 0x61), 0x6c),
        0xFF) == 0xd7bf87143e7afaa5_u64) by (bit_vector);
    reveal_with_fuel(hash_from, 33);
}

proof fn lemma_health_check_failed_total()
    ensures
        family_id("udp_balancer_health_check_failed_total"@) == 0xc9663bccebfe3627_u64,
{
    reveal_strlit("udp_balancer_health_check_failed_total");
    lemma_hash_of_all("udp_balancer_health_check_failed_total"@);
    assert(
        mix(mix(mix(mix(mix(mix(mix(mix(mix(mix(mix(mix(mix(mix(mix(mix(mix(mix(mix(mix(mix(mix(
        mix(mix(mix(mix(mix(mix(mix(mix(mix(mix(mix(mix(mix(mix(mix(mix(mix(HASH_START, 0x75),
        0x64), 0x70), 0x5f), 0x62), 0x61), 0x6c), 0x61), 0x6e), 0x63), 0x65), 0x72), 0x5f), 0x68),
        0x65), 0x61), 0x6c), 0x74), 0x68), 0x5f), 0x63), 0x68), 0x65), 0x63), 0x6b), 0x5f), 0x66),
        0x61), 0x69), 0x6c), 0x65), 0x64), 0x5f), 0x74), 0x6f), 0x74), 0x61), 0x6c), 0xFF) == 0xc9663bccebfe3627_u64) by (bit_vector);
    reveal_with_fuel(hash_from, 40);
}

/// The number of each family of the balancer, in the order in which they are
/// registered.
pub open spec fn family_ids() -> Seq<u64> {
    seq![
        0xab6ef366817516b1_u64,
        0x03898208e17a416f_u64,
        0x17544f5597887b46_u64,
        0xc0386079513d97b0_u64,
        0xf6ea8b6d87947735_u64,
        0x9623a7a649915e7b_u64,
        0xb4d71be9ac16cd3c_u64,
        0x1814da188c34177b_u64,
        0x54439667dc4bd9da_u64,
        0x087d927acd74ca8b_u64,
        0xdbed824ac2850672_u64,
        0xbe4a7a5503dc76fc_u64,
        0x00bc1edb97355dc7_u64,
        0xd7bf87143e7afaa5_u64,
        0xc9663bccebfe3627_u64,
    ]
}

/// No two of the numbers are the same.
pub proof fn law_family_ids_differ()
    ensures
        family_ids().no_duplicates(),
        family_id("udp_balancer_packets_received_total"@) == family_ids()[0],
        family_id("udp_balancer_bytes_received_total"@) == family_ids()[1],
        family_id("udp_balancer_packets_sent_total"@) == family_ids()[2],
        family_id("udp_balancer_bytes_sent_total"@) == family_ids()[3],
        family_id("udp_balancer_backend_packets_sent_total"@) == family_ids()[4],
        family_id("udp_balancer_backend_bytes_sent_total"@) == family_ids()[5],
        family_id("udp_balancer_backend_packets_failed_total"@) == family_ids()[6],
        family_id("udp_balancer_backend_responses_received_total"@) == family_ids()[7],
        family_id("udp_balancer_backend_response_bytes_received_total"@) == family_ids()[8],
        family_id("udp_balancer_backend_alive"@) == family_ids()[9],
        family_id("udp_balancer_mirror_packets_sent_total"@) == family_ids()[10],
        family_id("udp_balancer_mirror_bytes_sent_total"@) == family_ids()[11],
        family_id("udp_balancer_mirror_packets_failed_total"@) == family_ids()[12],
        family_id("udp_balancer_health_check_total"@) == family_ids()[13],
        family_id("udp_balancer_health_check_failed_total"@) == family_ids()[14],
{
    lemma_packets_received_total();
    lemma_bytes_received_total();
    lemma_packets_sent_total();
    lemma_bytes_sent_total();
    lemma_backend_packets_sent_total();
    lemma_backend_bytes_sent_total();
    lemma_backend_packets_failed_total();
    lemma_backend_responses_received_total();
    lemma_backend_response_bytes_received_total();
    lemma_backend_alive();
    lemma_mirror_packets_sent_total();
    lemma_mirror_bytes_sent_total();
    lemma_mirror_packets_failed_total();
    lemma_health_check_total();
    lemma_health_check_failed_total();
}

/// A family is told from others by the hash of its whole name with an octet of
/// 255 behind it.
pub proof fn law_family_id_is_the_hash_of_the_name(name: Seq<char>)
    ensures
        family_id(name) == hashing::fnv1a(encode_utf8(name).push(255)),
{
}

} // verus!
