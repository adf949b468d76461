//! The key by which the packets of one flow are kept together.
use crate::config::HashKeyField;
use crate::net::IpAddr;
use crate::raw_socket;
use vstd::prelude::*;

verus! {

/// The version number that marks an IPFIX message.
pub const IPFIX_VERSION: u16 = 10;

/// The lowest set number that belongs to data, and so names a template.
pub const FIRST_DATA_SET: u16 = 256;

/// The number that two octets make, the first one counting more.
pub open spec fn number16(hi: u8, lo: u8) -> int {
    hi * 256 + lo
}

/// The payload is long enough and says that it is an IPFIX message.
pub open spec fn is_ipfix(payload: Seq<u8>, len: int) -> bool {
    payload.len() >= len && number16(payload[0], payload[1]) == IPFIX_VERSION
}

/// The observation domain of an IPFIX message: octets 12 to 15.
pub open spec fn observation_domain(payload: Seq<u8>) -> Option<int> {
    if is_ipfix(payload, 16) {
        Some(
            number16(payload[12], payload[13]) * 65536 + number16(payload[14], payload[15]),
        )
    } else {
        None
    }
}

/// The template of an IPFIX message that starts with data: octets 16 and 17,
/// which number the set.
pub open spec fn template(payload: Seq<u8>) -> Option<int> {
    if is_ipfix(payload, 18) && number16(payload[16], payload[17]) >= FIRST_DATA_SET {
        Some(number16(payload[16], payload[17]))
    } else {
        None
    }
}

fn read16(hi: u8, lo: u8) -> (n: u16)
    ensures
        n == number16(hi, lo),
{
    hi as u16 * 256 + lo as u16
}

/// The observation domain of an IPFIX message.
pub fn extract_ipfix_observation_domain_id(payload: &[u8]) -> (r: Option<u32>)
    ensures
        match observation_domain(payload@) {
            Some(id) => r matches Some(n) && n == id,
            None => r is None,
        },
        r is Some <==> payload@.len() >= 16 && payload@[0] == 0 && payload@[1] == 10,
        r matches Some(n) ==> n == payload@[12] * 0x100_0000 + payload@[13] * 0x1_0000 + payload@[14]
            * 0x100 + payload@[15],
{
    if payload.len() < 16 {
        return None;
    }
    let version: u16 = read16(payload[0], payload[1]);
    if version != IPFIX_VERSION {
        return None;
    }
    let high: u16 = read16(payload[12], payload[13]);
    let low: u16 = read16(payload[14], payload[15]);
    Some(high as u32 * 65536 + low as u32)
}

/// The template of an IPFIX message that starts with data.
pub fn extract_ipfix_template_id(payload: &[u8]) -> (r: Option<u16>)
    ensures
        match template(payload@) {
            Some(id) => r matches Some(n) && n == id,
            None => r is None,
        },
        r is Some <==> payload@.len() >= 18 && payload@[0] == 0 && payload@[1] == 10 && payload@[16]
            > 0,
        r matches Some(n) ==> n == payload@[16] * 0x100 + payload@[17],
{
    if payload.len() < 18 {
        return None;
    }
    let version: u16 = read16(payload[0], payload[1]);
    if version != IPFIX_VERSION {
        return None;
    }
    let set_id: u16 = read16(payload[16], payload[17]);
    if set_id >= FIRST_DATA_SET {
        Some(set_id)
    } else {
        None
    }
}

/// What the key of a flow is made from.
pub struct Flow {
    pub src_ip: IpAddr,
    pub dst_ip: IpAddr,
    pub src_port: u16,
    pub dst_port: u16,
    pub payload: Seq<u8>,
}

/// What one field adds to the key: an address or a port in network order, or
/// the octets of an IPFIX message that hold it.
pub open spec fn field_octets(field: HashKeyField, flow: Flow) -> Seq<u8> {
    match field {
        HashKeyField::SrcIp => flow.src_ip.octets(),
        HashKeyField::DstIp => flow.dst_ip.octets(),
        HashKeyField::SrcPort => raw_socket::octets16(flow.src_port as int),
        HashKeyField::DstPort => raw_socket::octets16(flow.dst_port as int),
        HashKeyField::Ipfix => if observation_domain(flow.payload) is Some {
            flow.payload.subrange(12, 16)
        } else {
            Seq::empty()
        },
        HashKeyField::IpfixTemplateId => if template(flow.payload) is Some {
            flow.payload.subrange(16, 18)
        } else {
            Seq::empty()
        },
    }
}

/// The key of a flow: what its fields add, in the order of the fields.
pub open spec fn flow_key(fields: Seq<HashKeyField>, flow: Flow) -> Seq<u8>
    decreases fields.len(),
{
    if fields.len() == 0 {
        Seq::empty()
    } else {
        flow_key(fields.drop_last(), flow) + field_octets(fields.last(), flow)
    }
}

fn push16(key: &mut Vec<u8>, n: u16)
    ensures
        final(key)@ == old(key)@ + raw_socket::octets16(n as int),
{
    key.push((n / 256) as u8);
    key.push((n % 256) as u8);
    assert(key@ =~= old(key)@ + raw_socket::octets16(n as int));
}

fn push_octets(key: &mut Vec<u8>, octets: &[u8])
    ensures
        final(key)@ == old(key)@ + octets@,
{
    let mut i: usize = 0;
    while i < octets.len()
        invariant
            i <= octets@.len(),
            key@ == old(key)@ + octets@.take(i as int),
        decreases octets@.len() - i,
    {
        key.push(octets[i]);
        assert(octets@.take(i + 1) =~= octets@.take(i as int).push(octets@[i as int]));
        i = i + 1;
    }
    assert(octets@.take(i as int) =~= octets@);
}

fn push_ip(key: &mut Vec<u8>, ip: IpAddr)
    ensures
        final(key)@ == old(key)@ + ip.octets(),
{
    match ip {
        IpAddr::V4(ip) => push_octets(key, &ip.octets),
        IpAddr::V6(ip) => push_octets(key, &ip.octets),
    }
}

fn push_field(
    key: &mut Vec<u8>,
    field: HashKeyField,
    src_ip: IpAddr,
    dst_ip: IpAddr,
    src_port: u16,
    dst_port: u16,
    payload: &[u8],
)
    ensures
        final(key)@ == old(key)@ + field_octets(
            field,
            (Flow { src_ip, dst_ip, src_port, dst_port, payload: payload@ }),
        ),
{
    match field {
        HashKeyField::SrcIp => push_ip(key, src_ip),
        HashKeyField::DstIp => push_ip(key, dst_ip),
        HashKeyField::SrcPort => push16(key, src_port),
        HashKeyField::DstPort => push16(key, dst_port),
        HashKeyField::Ipfix => {
            if let Some(id) = extract_ipfix_observation_domain_id(payload) {
                push16(key, (id / 65536) as u16);
                push16(key, (id % 65536) as u16);
                assert(key@ =~= old(key)@ + payload@.subrange(12, 16));
            } else {
                assert(key@ =~= old(key)@ + Seq::<u8>::empty());
            }
        },
        HashKeyField::IpfixTemplateId => {
            if let Some(id) = extract_ipfix_template_id(payload) {
                push16(key, id);
                assert(key@ =~= old(key)@ + payload@.subrange(16, 18));
            } else {
                assert(key@ =~= old(key)@ + Seq::<u8>::empty());
            }
        },
    }
}

/// The key of a flow.
pub fn hash_key(
    fields: &[HashKeyField],
    src_ip: IpAddr,
    dst_ip: IpAddr,
    src_port: u16,
    dst_port: u16,
    payload: &[u8],
) -> (key: Vec<u8>)
    ensures
        key@ == flow_key(
            fields@,
            (Flow { src_ip, dst_ip, src_port, dst_port, payload: payload@ }),
        ),
{
    let ghost flow = Flow { src_ip, dst_ip, src_port, dst_port, payload: payload@ };
    let mut key: Vec<u8> = Vec::new();
    let mut i: usize = 0;
    while i < fields.len()
        invariant
            i <= fields@.len(),
            flow == (Flow { src_ip, dst_ip, src_port, dst_port, payload: payload@ }),
            key@ == flow_key(fields@.take(i as int), flow),
        decreases fields@.len() - i,
    {
        push_field(&mut key, fields[i], src_ip, dst_ip, src_port, dst_port, payload);
        assert(fields@.take(i + 1).drop_last() =~= fields@.take(i as int));
        i = i + 1;
    }
    assert(fields@.take(i as int) =~= fields@);
    key
}

/// Packets that agree in every listed field have the same key, whatever else
/// they differ in.
pub proof fn law_listed_fields_decide(fields: Seq<HashKeyField>, a: Flow, b: Flow)
    requires
        forall|i: int|
            0 <= i < fields.len() ==> field_octets(#[trigger] fields[i], a) == field_octets(
                fields[i],
                b,
            ),
    ensures
        flow_key(fields, a) == flow_key(fields, b),
    decreases fields.len(),
{
    if fields.len() > 0 {
        let shorter = fields.drop_last();
        assert forall|i: int| 0 <= i < shorter.len() implies field_octets(
            #[trigger] shorter[i],
            a,
        ) == field_octets(shorter[i], b) by {
            assert(shorter[i] == fields[i]);
        }
        law_listed_fields_decide(shorter, a, b);
        assert(fields[fields.len() - 1] == fields.last());
    }
}

/// The default key tells flows apart: between addresses of the same families
/// it is the same only for the same addresses and ports.
pub proof fn law_default_key_identifies_flows(a: Flow, b: Flow)
    requires
        a.src_ip is V4 == b.src_ip is V4,
        a.dst_ip is V4 == b.dst_ip is V4,
        flow_key(
            seq![
                HashKeyField::SrcIp,
                HashKeyField::DstIp,
                HashKeyField::SrcPort,
                HashKeyField::DstPort,
            ],
            a,
        ) == flow_key(
            seq![
                HashKeyField::SrcIp,
                HashKeyField::DstIp,
                HashKeyField::SrcPort,
                HashKeyField::DstPort,
            ],
            b,
        ),
    ensures
        a.src_ip == b.src_ip,
        a.dst_ip == b.dst_ip,
        a.src_port == b.src_port,
        a.dst_port == b.dst_port,
{
    lemma_four_parts(a);
    lemma_four_parts(b);
    let n = a.src_ip.octets().len() as int;
    let m = a.dst_ip.octets().len() as int;
    let key = flow_key(
        seq![HashKeyField::SrcIp, HashKeyField::DstIp, HashKeyField::SrcPort, HashKeyField::DstPort],
        a,
    );
    assert(a.src_ip.octets() =~= key.subrange(0, n));
    assert(b.src_ip.octets() =~= key.subrange(0, n));
    assert(a.dst_ip.octets() =~= key.subrange(n, n + m));
    assert(b.dst_ip.octets() =~= key.subrange(n, n + m));
    assert(raw_socket::octets16(a.src_port as int) =~= key.subrange(n + m, n + m + 2));
    assert(raw_socket::octets16(b.src_port as int) =~= key.subrange(n + m, n + m + 2));
    assert(raw_socket::octets16(a.dst_port as int) =~= key.subrange(n + m + 2, n + m + 4));
    assert(raw_socket::octets16(b.dst_port as int) =~= key.subrange(n + m + 2, n + m + 4));
    lemma_octets_tell_addresses(a.src_ip, b.src_ip);
    lemma_octets_tell_addresses(a.dst_ip, b.dst_ip);
    lemma_octets_tell_ports(a.src_port, b.src_port);
    lemma_octets_tell_ports(a.dst_port, b.dst_port);
}

proof fn lemma_four_parts(f: Flow)
    ensures
        flow_key(
            seq![
                HashKeyField::SrcIp,
                HashKeyField::DstIp,
                HashKeyField::SrcPort,
                HashKeyField::DstPort,
            ],
            f,
        ) == f.src_ip.octets() + f.dst_ip.octets() + raw_socket::octets16(f.src_port as int)
            + raw_socket::octets16(f.dst_port as int),
{
    reveal_with_fuel(flow_key, 5);
    let all = seq![
        HashKeyField::SrcIp,
        HashKeyField::DstIp,
        HashKeyField::SrcPort,
        HashKeyField::DstPort,
    ];
    assert(all.drop_last().drop_last().drop_last().drop_last() =~= Seq::<HashKeyField>::empty());
    assert(all.last() == HashKeyField::DstPort);
    assert(all.drop_last().last() == HashKeyField::SrcPort);
    assert(all.drop_last().drop_last().last() == HashKeyField::DstIp);
    assert(all.drop_last().drop_last().drop_last().last() == HashKeyField::SrcIp);
    assert(Seq::<u8>::empty() + f.src_ip.octets() =~= f.src_ip.octets());
}

proof fn lemma_octets_tell_addresses(a: IpAddr, b: IpAddr)
    requires
        a is V4 == b is V4,
        a.octets() == b.octets(),
    ensures
        a == b,
{
    match (a, b) {
        (IpAddr::V4(x), IpAddr::V4(y)) => {
            assert(x.octets =~= y.octets);
        },
        (IpAddr::V6(x), IpAddr::V6(y)) => {
            assert(x.octets =~= y.octets);
        },
        _ => {},
    }
}

proof fn lemma_octets_tell_ports(a: u16, b: u16)
    requires
        raw_socket::octets16(a as int) == raw_socket::octets16(b as int),
    ensures
        a == b,
{
    assert(raw_socket::octets16(a as int)[0] == raw_socket::octets16(b as int)[0]);
    assert(raw_socket::octets16(a as int)[1] == raw_socket::octets16(b as int)[1]);
}

/// What each field alone makes of a flow: an address is its octets, a port is
/// two octets with the high one first, and a field of an IPFIX message is the
/// octets of the payload that hold it, however long the payload is. Where the
/// payload does not hold it, the field adds nothing.
pub proof fn law_key_of_one_field(flow: Flow)
    ensures
        flow_key(seq![HashKeyField::SrcIp], flow) == match flow.src_ip {
            IpAddr::V4(ip) => ip.octets@,
            IpAddr::V6(ip) => ip.octets@,
        },
        flow_key(seq![HashKeyField::DstIp], flow) == match flow.dst_ip {
            IpAddr::V4(ip) => ip.octets@,
            IpAddr::V6(ip) => ip.octets@,
        },
        flow_key(seq![HashKeyField::SrcPort], flow) == seq![
            (flow.src_port / 256) as u8,
            (flow.src_port % 256) as u8,
        ],
        flow_key(seq![HashKeyField::DstPort], flow) == seq![
            (flow.dst_port / 256) as u8,
            (flow.dst_port % 256) as u8,
        ],
        flow_key(seq![HashKeyField::Ipfix], flow) == if flow.payload.len() >= 16 && flow.payload[0]
            == 0 && flow.payload[1] == 10 {
            seq![flow.payload[12], flow.payload[13], flow.payload[14], flow.payload[15]]
        } else {
            seq![]
        },
        flow_key(seq![HashKeyField::IpfixTemplateId], flow) == if flow.payload.len() >= 18
            && flow.payload[0] == 0 && flow.payload[1] == 10 && flow.payload[16] >= 1 {
            seq![flow.payload[16], flow.payload[17]]
        } else {
            seq![]
        },
{
    lemma_one_field(HashKeyField::SrcIp, flow);
    lemma_one_field(HashKeyField::DstIp, flow);
    lemma_one_field(HashKeyField::SrcPort, flow);
    lemma_one_field(HashKeyField::DstPort, flow);
    lemma_one_field(HashKeyField::Ipfix, flow);
    lemma_one_field(HashKeyField::IpfixTemplateId, flow);
}

proof fn lemma_one_field(field: HashKeyField, flow: Flow)
    ensures
        flow_key(seq![field], flow) == field_octets(field, flow),
{
    reveal_with_fuel(flow_key, 2);
    assert(seq![field].drop_last() =~= Seq::<HashKeyField>::empty());
    assert(Seq::<u8>::empty() + field_octets(field, flow) =~= field_octets(field, flow));
}

/// The key of a list of fields is that of its front followed by that of its
/// back, wherever the list is cut; no fields make the empty key.
pub proof fn law_fields_follow_each_other(
    front: Seq<HashKeyField>,
    back: Seq<HashKeyField>,
    flow: Flow,
)
    ensures
        flow_key(front + back, flow) == flow_key(front, flow) + flow_key(back, flow),
        flow_key(Seq::empty(), flow) == Seq::<u8>::empty(),
    decreases back.len(),
{
    if back.len() == 0 {
        assert(front + back =~= front);
        assert(flow_key(front, flow) + Seq::<u8>::empty() =~= flow_key(front, flow));
    } else {
        law_fields_follow_each_other(front, back.drop_last(), flow);
        assert((front + back).drop_last() =~= front + back.drop_last());
        assert((front + back).last() == back.last());
        assert(flow_key(front + back, flow) =~= flow_key(front, flow) + flow_key(back, flow));
    }
}

/// IPFIX messages are kept together by their observation domain and by nothing
/// else: under that field two messages have the same key exactly when their
/// octets 12 to 15 agree. A payload that is no message has the empty key,
/// which no message has.
pub proof fn law_domains_are_told_apart(a: Flow, b: Flow)
    requires
        a.payload.len() >= 16,
        a.payload[0] == 0,
        a.payload[1] == 10,
    ensures
        b.payload.len() >= 16 && b.payload[0] == 0 && b.payload[1] == 10 ==> (flow_key(
            seq![HashKeyField::Ipfix],
            a,
        ) == flow_key(seq![HashKeyField::Ipfix], b) <==> a.payload[12] == b.payload[12]
            && a.payload[13] == b.payload[13] && a.payload[14] == b.payload[14] && a.payload[15]
            == b.payload[15]),
        b.payload.len() < 16 || b.payload[0] != 0 || b.payload[1] != 10 ==> flow_key(
            seq![HashKeyField::Ipfix],
            a,
        ) != flow_key(seq![HashKeyField::Ipfix], b),
{
    law_key_of_one_field(a);
    law_key_of_one_field(b);
    let x = flow_key(seq![HashKeyField::Ipfix], a);
    let y = flow_key(seq![HashKeyField::Ipfix], b);
    assert(x.len() == 4);
    if x == y {
        assert(x[0] == y[0] && x[1] == y[1] && x[2] == y[2] && x[3] == y[3]);
    } else if b.payload.len() >= 16 && b.payload[0] == 0 && b.payload[1] == 10 {
        assert(!(x =~= y));
    }
}

/// IPFIX messages that start with data are told apart by the template of that
/// data: under that field two of them have the same key exactly when their
/// octets 16 and 17 agree.
pub proof fn law_templates_are_told_apart(a: Flow, b: Flow)
    requires
        a.payload.len() >= 18,
        a.payload[0] == 0,
        a.payload[1] == 10,
        a.payload[16] > 0,
        b.payload.len() >= 18,
        b.payload[0] == 0,
        b.payload[1] == 10,
        b.payload[16] > 0,
    ensures
        flow_key(seq![HashKeyField::IpfixTemplateId], a) == flow_key(
            seq![HashKeyField::IpfixTemplateId],
            b,
        ) <==> a.payload[16] == b.payload[16] && a.payload[17] == b.payload[17],
{
    law_key_of_one_field(a);
    law_key_of_one_field(b);
    let x = flow_key(seq![HashKeyField::IpfixTemplateId], a);
    let y = flow_key(seq![HashKeyField::IpfixTemplateId], b);
    if x == y {
        assert(x[0] == y[0] && x[1] == y[1]);
    } else {
        assert(!(x =~= y));
    }
}

/// The numbers that are read from an IPFIX message are those that its octets
/// make in network order, with no upper bound on the payload.
pub proof fn law_ipfix_numbers(payload: Seq<u8>)
    ensures
        observation_domain(payload) is Some <==> payload.len() >= 16 && payload[0] == 0
            && payload[1] == 10,
        observation_domain(payload) matches Some(n) ==> n == payload[12] * 0x100_0000 + payload[13]
            * 0x1_0000 + payload[14] * 0x100 + payload[15],
        template(payload) is Some <==> payload.len() >= 18 && payload[0] == 0 && payload[1] == 10
            && payload[16] > 0,
        template(payload) matches Some(n) ==> n == payload[16] * 0x100 + payload[17],
{
}

} // verus!
