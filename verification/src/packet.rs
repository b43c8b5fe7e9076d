//! Captured frames: which flow, if any, a frame belongs to.

use crate::flows::{FiveTuple, IpAddr, Protocol};
use pnet::packet::ethernet::EthernetPacket;
use pnet::packet::ipv4::Ipv4Packet;
use pnet::packet::ipv6::Ipv6Packet;
use pnet::packet::tcp::TcpPacket;
use pnet::packet::udp::UdpPacket;
use pnet::packet::Packet;
use vstd::arithmetic::power::{lemma_pow0, lemma_pow1, lemma_pow_adds, lemma_pow_positive, pow};
use vstd::prelude::*;

verus! {

/// EtherType of IPv4.
pub const ETHERTYPE_IPV4: u16 = 0x0800;

/// EtherType of IPv6.
pub const ETHERTYPE_IPV6: u16 = 0x86DD;

/// IP protocol number of ICMP.
pub const PROTO_ICMP: u8 = 1;

/// IP protocol number of TCP.
pub const PROTO_TCP: u8 = 6;

/// IP protocol number of UDP.
pub const PROTO_UDP: u8 = 17;

/// IP protocol number of ICMP for IPv6.
pub const PROTO_ICMPV6: u8 = 58;

/// The number that bytes stand for in network order.
pub open spec fn be_value(bytes: Seq<u8>) -> nat
    decreases bytes.len(),
{
    if bytes.len() == 0 {
        0
    } else {
        be_value(bytes.drop_last()) * 256 + bytes.last() as nat
    }
}

/// The part of `data` from `start` on, `len` bytes of it or as many as there are.
pub open spec fn body(data: Seq<u8>, start: int, len: int) -> Seq<u8> {
    if data.len() <= start {
        Seq::empty()
    } else if data.len() <= start + len {
        data.skip(start)
    } else {
        data.subrange(start, start + len)
    }
}

/// Bytes of the header of an IPv4 packet: what the header announces, in words of
/// four bytes, but never less than the fixed part.
pub open spec fn ipv4_header_bytes(data: Seq<u8>) -> int {
    let announced = (data[0] % 16) * 4;
    if announced < 20 {
        20
    } else {
        announced as int
    }
}

/// Bytes of payload that the header of an IPv4 packet announces: the total length
/// less the announced length of the header.
pub open spec fn ipv4_payload_bytes(data: Seq<u8>) -> int {
    let rest = be_value(data.subrange(2, 4)) - (data[0] % 16) * 4;
    if rest < 0 {
        0
    } else {
        rest
    }
}

/// The payload of an IPv4 packet.
pub open spec fn ipv4_payload(data: Seq<u8>) -> Seq<u8> {
    body(data, ipv4_header_bytes(data), ipv4_payload_bytes(data))
}

/// The payload of an IPv6 packet.
pub open spec fn ipv6_payload(data: Seq<u8>) -> Seq<u8> {
    body(data, 40, be_value(data.subrange(4, 6)) as int)
}

/// The EtherType and the payload of an Ethernet frame.
///
/// Calls `EthernetPacket::new`, `get_ethertype` and `payload` of pnet: there is a
/// packet when the frame holds the fourteen bytes of the header; the EtherType is
/// their last two bytes in network order, and the payload is what follows them.
#[verifier::external_body]
fn ethernet_parts(frame: &[u8]) -> (parts: Option<(u16, Vec<u8>)>)
    ensures
        parts is Some <==> frame@.len() >= 14,
        parts matches Some((kind, payload)) ==> kind == be_value(frame@.subrange(12, 14))
            && payload@ == frame@.skip(14),
{
    EthernetPacket::new(frame).map(|p| (p.get_ethertype().0, p.payload().to_vec()))
}

/// Source, destination, protocol number and payload of an IPv4 packet.
///
/// Calls `Ipv4Packet::new`, `get_source`, `get_destination`,
/// `get_next_level_protocol` and `payload` of pnet: there is a packet when the data
/// holds the twenty bytes of the fixed header; the addresses and the protocol are
/// at their places in it, and the payload starts behind the announced header and
/// ends where the total length, or the data, ends.
#[verifier::external_body]
fn ipv4_parts(data: &[u8]) -> (parts: Option<(u32, u32, u8, Vec<u8>)>)
    ensures
        parts is Some <==> data@.len() >= 20,
        parts matches Some((src, dst, proto, payload)) ==> src == be_value(data@.subrange(12, 16))
            && dst == be_value(data@.subrange(16, 20)) && proto == data@[9] && payload@
            == ipv4_payload(data@),
{
    Ipv4Packet::new(data).map(
        |p|
            (
                u32::from(p.get_source()),
                u32::from(p.get_destination()),
                p.get_next_level_protocol().0,
                p.payload().to_vec(),
            ),
    )
}

/// Source, destination, next header and payload of an IPv6 packet.
///
/// Calls `Ipv6Packet::new`, `get_source`, `get_destination`, `get_next_header` and
/// `payload` of pnet: there is a packet when the data holds the forty bytes of the
/// header; the addresses and the next header are at their places in it, and the
/// payload follows, as long as the header announces or the data lasts.
#[verifier::external_body]
fn ipv6_parts(data: &[u8]) -> (parts: Option<(u128, u128, u8, Vec<u8>)>)
    ensures
        parts is Some <==> data@.len() >= 40,
        parts matches Some((src, dst, next, payload)) ==> src == be_value(data@.subrange(8, 24))
            && dst == be_value(data@.subrange(24, 40)) && next == data@[6] && payload@
            == ipv6_payload(data@),
{
    Ipv6Packet::new(data).map(
        |p|
            (
                u128::from(p.get_source()),
                u128::from(p.get_destination()),
                p.get_next_header().0,
                p.payload().to_vec(),
            ),
    )
}

/// Source and destination port of a TCP segment.
///
/// Calls `TcpPacket::new`, `get_source` and `get_destination` of pnet: there is a
/// segment when the data holds the twenty bytes of the fixed header, and the ports
/// are its first two words in network order.
#[verifier::external_body]
fn tcp_ports(data: &[u8]) -> (ports: Option<(u16, u16)>)
    ensures
        ports is Some <==> data@.len() >= 20,
        ports matches Some((src, dst)) ==> src == be_value(data@.subrange(0, 2)) && dst == be_value(
            data@.subrange(2, 4),
        ),
{
    TcpPacket::new(data).map(|p| (p.get_source(), p.get_destination()))
}

/// Source and destination port of a UDP datagram.
///
/// Calls `UdpPacket::new`, `get_source` and `get_destination` of pnet: there is a
/// datagram when the data holds the eight bytes of the header, and the ports are
/// its first two words in network order.
#[verifier::external_body]
fn udp_ports(data: &[u8]) -> (ports: Option<(u16, u16)>)
    ensures
        ports is Some <==> data@.len() >= 8,
        ports matches Some((src, dst)) ==> src == be_value(data@.subrange(0, 2)) && dst == be_value(
            data@.subrange(2, 4),
        ),
{
    UdpPacket::new(data).map(|p| (p.get_source(), p.get_destination()))
}

/// The class of an IP protocol number.
pub open spec fn protocol_of(number: u8) -> Protocol {
    if number == PROTO_TCP {
        Protocol::Tcp
    } else if number == PROTO_UDP {
        Protocol::Udp
    } else if number == PROTO_ICMP || number == PROTO_ICMPV6 {
        Protocol::Icmp
    } else {
        Protocol::Other
    }
}

/// Bytes of the fixed transport header that holds the ports, for the classes that
/// have any.
pub open spec fn port_header_bytes(protocol: Protocol) -> Option<nat> {
    match protocol {
        Protocol::Tcp => Some(20),
        Protocol::Udp => Some(8),
        Protocol::Icmp => None,
        Protocol::Other => None,
    }
}

/// Source and destination port of a transport payload: zeros where there are no
/// ports, or where the header is cut short.
pub open spec fn ports_of(number: u8, payload: Seq<u8>) -> (nat, nat) {
    match port_header_bytes(protocol_of(number)) {
        Some(n) => if payload.len() >= n {
            (be_value(payload.subrange(0, 2)), be_value(payload.subrange(2, 4)))
        } else {
            (0, 0)
        },
        None => (0, 0),
    }
}

/// The flow of a packet from `src` to `dst` with that protocol number and
/// transport payload.
pub open spec fn flow_tuple(src: IpAddr, dst: IpAddr, number: u8, payload: Seq<u8>) -> FiveTuple {
    FiveTuple {
        src_ip: src,
        dst_ip: dst,
        src_port: ports_of(number, payload).0 as u16,
        dst_port: ports_of(number, payload).1 as u16,
        protocol: protocol_of(number),
    }
}

/// The two directions between different hosts are two flows, whatever they carry.
pub proof fn directions_are_two_flows(
    src: IpAddr,
    dst: IpAddr,
    number: u8,
    payload: Seq<u8>,
    back_number: u8,
    back_payload: Seq<u8>,
)
    requires
        src != dst,
    ensures
        flow_tuple(src, dst, number, payload) != flow_tuple(dst, src, back_number, back_payload),
{
}

/// What a captured frame counts as.
#[derive(Debug, Clone, Copy, PartialEq, Eq, Structural)]
pub enum FrameRecord {
    /// Too short to be anything.
    Ignored,
    /// Not IP: counted, but part of no flow.
    NonIp,
    /// A packet of this flow.
    Flow(FiveTuple),
}

/// What `frame` counts as.
pub open spec fn record_of(frame: Seq<u8>) -> FrameRecord {
    if frame.len() < 14 {
        FrameRecord::Ignored
    } else {
        let kind = be_value(frame.subrange(12, 14));
        let data = frame.skip(14);
        if kind == ETHERTYPE_IPV4 {
            if data.len() < 20 {
                FrameRecord::Ignored
            } else {
                FrameRecord::Flow(
                    flow_tuple(
                        IpAddr::V4(be_value(data.subrange(12, 16)) as u32),
                        IpAddr::V4(be_value(data.subrange(16, 20)) as u32),
                        data[9],
                        ipv4_payload(data),
                    ),
                )
            }
        } else if kind == ETHERTYPE_IPV6 {
            if data.len() < 40 {
                FrameRecord::Ignored
            } else {
                FrameRecord::Flow(
                    flow_tuple(
                        IpAddr::V6(be_value(data.subrange(8, 24)) as u128),
                        IpAddr::V6(be_value(data.subrange(24, 40)) as u128),
                        data[6],
                        ipv6_payload(data),
                    ),
                )
            }
        } else {
            FrameRecord::NonIp
        }
    }
}

/// The class of an IP protocol number.
fn classify(number: u8) -> (protocol: Protocol)
    ensures
        protocol == protocol_of(number),
{
    if number == PROTO_TCP {
        Protocol::Tcp
    } else if number == PROTO_UDP {
        Protocol::Udp
    } else if number == PROTO_ICMP || number == PROTO_ICMPV6 {
        Protocol::Icmp
    } else {
        Protocol::Other
    }
}

/// The flow of a packet from `src` to `dst` with that protocol number and
/// transport payload.
pub fn flow_of(src: IpAddr, dst: IpAddr, number: u8, payload: &[u8]) -> (tuple: FiveTuple)
    ensures
        tuple == flow_tuple(src, dst, number, payload@),
{
    let protocol = classify(number);
    let ports = match protocol {
        Protocol::Tcp => tcp_ports(payload),
        Protocol::Udp => udp_ports(payload),
        Protocol::Icmp => None,
        Protocol::Other => None,
    };
    let (src_port, dst_port): (u16, u16) = match ports {
        Some(pair) => pair,
        None => (0, 0),
    };
    FiveTuple { src_ip: src, dst_ip: dst, src_port, dst_port, protocol }
}

/// What a captured Ethernet frame counts as.
pub fn decode_frame(frame: &[u8]) -> (record: FrameRecord)
    ensures
        record == record_of(frame@),
{
    match ethernet_parts(frame) {
        None => FrameRecord::Ignored,
        Some((kind, data)) => {
            if kind == ETHERTYPE_IPV4 {
                match ipv4_parts(data.as_slice()) {
                    None => FrameRecord::Ignored,
                    Some((src, dst, number, payload)) => FrameRecord::Flow(
                        flow_of(IpAddr::V4(src), IpAddr::V4(dst), number, payload.as_slice()),
                    ),
                }
            } else if kind == ETHERTYPE_IPV6 {
                match ipv6_parts(data.as_slice()) {
                    None => FrameRecord::Ignored,
                    Some((src, dst, number, payload)) => FrameRecord::Flow(
                        flow_of(IpAddr::V6(src), IpAddr::V6(dst), number, payload.as_slice()),
                    ),
                }
            } else {
                FrameRecord::NonIp
            }
        },
    }
}

proof fn network_order_bound(bytes: Seq<u8>)
    ensures
        be_value(bytes) < pow(256, bytes.len()),
    decreases bytes.len(),
{
    reveal(pow);
    if bytes.len() > 0 {
        network_order_bound(bytes.drop_last());
    }
}

/// A number in network order consists of its bytes: dividing by the right power of
/// 256 brings each of them out, the first being the highest.
pub proof fn network_order_keeps_every_byte(bytes: Seq<u8>, i: int)
    requires
        0 <= i < bytes.len(),
    ensures
        be_value(bytes) < pow(256, bytes.len()),
        be_value(bytes) as int / pow(256, (bytes.len() - 1 - i) as nat) % 256 == bytes[i],
    decreases bytes.len(),
{
    network_order_bound(bytes);
    let n = bytes.len();
    let (start, last) = (bytes.drop_last(), bytes.last() as int);
    let v = be_value(start) as int;
    if i == n - 1 {
        lemma_pow0(256);
        assert(be_value(bytes) as int / 1 % 256 == last);
    } else {
        network_order_keeps_every_byte(start, i);
        let e = (n - 2 - i) as nat;
        let p = pow(256, e);
        lemma_pow_adds(256, e, 1);
        lemma_pow1(256);
        lemma_pow_positive(256, e);
        assert(pow(256, (n - 1 - i) as nat) == p * 256);
        assert((v * 256 + last) / 256 == v);
        assert((v * 256 + last) / (256 * p) == (v * 256 + last) / 256 / p) by {
            vstd::arithmetic::div_mod::lemma_div_denominator(v * 256 + last, 256, p);
        }
        assert(256 * p == p * 256) by (nonlinear_arith);
        assert(start[i] == bytes[i]);
    }
}

proof fn powers_of_256()
    ensures
        pow(256, 16) == u128::MAX + 1,
{
    lemma_pow1(256);
    lemma_pow_adds(256, 1, 1);
    lemma_pow_adds(256, 2, 2);
    lemma_pow_adds(256, 4, 4);
    lemma_pow_adds(256, 8, 8);
    let (b, c, d) = (pow(256, 2), pow(256, 4), pow(256, 8));
    assert(c == 0x1_0000_0000) by (nonlinear_arith)
        requires
            c == b * b,
            b == 0x1_0000,
    ;
    assert(d == 0x1_0000_0000_0000_0000) by (nonlinear_arith)
        requires
            d == c * c,
            c == 0x1_0000_0000,
    ;
    assert(d * d == u128::MAX + 1) by (nonlinear_arith)
        requires
            d == 0x1_0000_0000_0000_0000,
    ;
}

proof fn two_bytes(bytes: Seq<u8>)
    requires
        bytes.len() == 2,
    ensures
        be_value(bytes) == bytes[0] * 256 + bytes[1],
{
    let one = bytes.drop_last();
    assert(one.drop_last() =~= Seq::<u8>::empty());
    assert(be_value(one.drop_last()) == 0);
    assert(be_value(one) == bytes[0]);
}

proof fn some_bytes(frame: Seq<u8>, from: int, to: int)
    requires
        0 <= from < to <= frame.len(),
    ensures
        be_value(frame.subrange(from, to)) < pow(256, (to - from) as nat),
        forall|i: int|
            0 <= i < to - from ==> be_value(frame.subrange(from, to)) as int / #[trigger] pow(
                256,
                (to - from - 1 - i) as nat,
            ) % 256 == frame[from + i],
{
    let part = frame.subrange(from, to);
    network_order_bound(part);
    assert forall|i: int| 0 <= i < to - from implies be_value(part) as int / #[trigger] pow(
        256,
        (to - from - 1 - i) as nat,
    ) % 256 == frame[from + i] by {
        network_order_keeps_every_byte(part, i);
        assert(part[i] == frame[from + i]);
    }
}

/// The ends of an IPv6 packet are its whole addresses: the sixteen bytes of the
/// source, highest first, are bytes 22 to 37 of the frame, and those of the
/// destination are bytes 38 to 53.
pub proof fn ipv6_addresses_are_whole(frame: Seq<u8>)
    requires
        frame.len() >= 54,
        frame[12] == 0x86,
        frame[13] == 0xDD,
    ensures
        ({
            &&& record_of(frame) matches FrameRecord::Flow(t)
            &&& t.src_ip matches IpAddr::V6(s)
            &&& t.dst_ip matches IpAddr::V6(d)
            &&& forall|i: int|
                0 <= i < 16 ==> s as int / #[trigger] pow(256, (15 - i) as nat) % 256 == frame[22 + i]
            &&& forall|i: int|
                0 <= i < 16 ==> d as int / #[trigger] pow(256, (15 - i) as nat) % 256 == frame[38 + i]
        }),
{
    two_bytes(frame.subrange(12, 14));
    powers_of_256();
    let data = frame.skip(14);
    assert(data.subrange(8, 24) =~= frame.subrange(22, 38));
    assert(data.subrange(24, 40) =~= frame.subrange(38, 54));
    some_bytes(frame, 22, 38);
    some_bytes(frame, 38, 54);
    let (s, d) = (be_value(frame.subrange(22, 38)), be_value(frame.subrange(38, 54)));
    assert(s as u128 == s && d as u128 == d);
    assert forall|i: int| 0 <= i < 16 implies s as int / #[trigger] pow(256, (15 - i) as nat) % 256
        == frame[22 + i] by {
        assert((38 - 22 - 1 - i) as nat == (15 - i) as nat);
    }
    assert forall|i: int| 0 <= i < 16 implies d as int / #[trigger] pow(256, (15 - i) as nat) % 256
        == frame[38 + i] by {
        assert((54 - 38 - 1 - i) as nat == (15 - i) as nat);
    }
}

/// The ends of an IPv4 packet are its whole addresses: the four bytes of the source,
/// highest first, are bytes 26 to 29 of the frame, and those of the destination are
/// bytes 30 to 33.
#[verifier::spinoff_prover]
pub proof fn ipv4_addresses_are_whole(frame: Seq<u8>)
    requires
        frame.len() >= 34,
        frame[12] == 0x08,
        frame[13] == 0x00,
    ensures
        ({
            &&& record_of(frame) matches FrameRecord::Flow(t)
            &&& t.src_ip matches IpAddr::V4(s)
            &&& t.dst_ip matches IpAddr::V4(d)
            &&& s / 0x100_0000 == frame[26] && s / 0x1_0000 % 256 == frame[27] && s / 256 % 256
                == frame[28] && s % 256 == frame[29]
            &&& d / 0x100_0000 == frame[30] && d / 0x1_0000 % 256 == frame[31] && d / 256 % 256
                == frame[32] && d % 256 == frame[33]
        }),
{
    two_bytes(frame.subrange(12, 14));
    let data = frame.skip(14);
    assert(data.subrange(12, 16) =~= frame.subrange(26, 30));
    assert(data.subrange(16, 20) =~= frame.subrange(30, 34));
    four_bytes(frame.subrange(26, 30));
    four_bytes(frame.subrange(30, 34));
}

proof fn four_bytes(bytes: Seq<u8>)
    requires
        bytes.len() == 4,
    ensures
        be_value(bytes) == bytes[0] * 0x100_0000 + bytes[1] * 0x1_0000 + bytes[2] * 256 + bytes[3],
{
    let three = bytes.drop_last();
    two_bytes(three.drop_last());
    assert(be_value(three) == be_value(three.drop_last()) * 256 + three.last());
}

/// Two packets with different addresses never share a flow, nor do packets of
/// different versions of IP.
pub proof fn different_addresses_are_different_flows(a: Seq<u8>, b: Seq<u8>, i: int)
    requires
        a.len() >= 54,
        b.len() >= 54,
        a[12] == 0x86 && a[13] == 0xDD,
        (b[12] == 0x86 && b[13] == 0xDD && 22 <= i < 54 && a[i] != b[i]) || (b[12] == 0x08 && b[13]
            == 0x00),
    ensures
        record_of(a) != record_of(b),
{
    ipv6_addresses_are_whole(a);
    if b[12] == 0x86 {
        ipv6_addresses_are_whole(b);
        if record_of(a) == record_of(b) {
            let k = if i < 38 {
                i - 22
            } else {
                i - 38
            };
            let p = pow(256, (15 - k) as nat);
            assert(a[22 + k] == b[22 + k] && a[38 + k] == b[38 + k]);
        }
    } else {
        ipv4_addresses_are_whole(b);
    }
}

/// Which frames count, and how: those of IPv4 and IPv6 with a whole fixed header as
/// packets of a flow, other Ethernet frames as not IP, the rest not at all.
pub proof fn frames_are_told_apart(frame: Seq<u8>)
    ensures
        ({
            let v4 = frame.len() >= 14 && frame[12] == 0x08 && frame[13] == 0x00;
            let v6 = frame.len() >= 14 && frame[12] == 0x86 && frame[13] == 0xDD;
            &&& (record_of(frame) is Flow <==> (v4 && frame.len() >= 34) || (v6 && frame.len() >= 54))
            &&& (record_of(frame) is NonIp <==> frame.len() >= 14 && !v4 && !v6)
        }),
{
    if frame.len() >= 14 {
        two_bytes(frame.subrange(12, 14));
    }
}

/// The class of a packet goes by its protocol number: byte 23 of an IPv4 frame, byte
/// 20 of an IPv6 frame. 6 is TCP, 17 is UDP, 1 and 58 are ICMP, all others the rest.
pub proof fn classes_go_by_number(frame: Seq<u8>)
    requires
        record_of(frame) is Flow,
    ensures
        ({
            let number = if frame[12] == 0x08 {
                frame[23]
            } else {
                frame[20]
            };
            let class = record_of(frame)->Flow_0.protocol;
            &&& (class == Protocol::Tcp <==> number == 6)
            &&& (class == Protocol::Udp <==> number == 17)
            &&& (class == Protocol::Icmp <==> number == 1 || number == 58)
        }),
{
    frames_are_told_apart(frame);
    two_bytes(frame.subrange(12, 14));
}

/// A packet of IPv4 has its ports right behind its header, provided that the frame and
/// the announced total length hold the header of TCP (20 bytes) or UDP (8 bytes). A
/// header that announces less than its fixed part still takes up that.
pub proof fn ipv4_ports_follow_the_header(frame: Seq<u8>)
    requires
        frame.len() >= 34,
        frame[12] == 0x08,
        frame[13] == 0x00,
        frame[23] == 6 || frame[23] == 17,
    ensures
        ({
            let announced = (frame[14] % 16) * 4;
            let total = frame[16] * 256 + frame[17];
            let need: int = if frame[23] == 6 {
                20
            } else {
                8
            };
            let at = if announced < 20 {
                34
            } else {
                14 + announced
            };
            let t = record_of(frame)->Flow_0;
            if frame.len() >= at + need && total >= announced + need {
                &&& t.src_port == frame[at] * 256 + frame[at + 1]
                &&& t.dst_port == frame[at + 2] * 256 + frame[at + 3]
            } else {
                t.src_port == 0 && t.dst_port == 0
            }
        }),
{
    two_bytes(frame.subrange(12, 14));
    let data = frame.skip(14);
    let announced = (frame[14] % 16) * 4;
    let total = frame[16] * 256 + frame[17];
    let at = if announced < 20 {
        34
    } else {
        14 + announced
    };
    assert(data.subrange(2, 4) =~= frame.subrange(16, 18));
    two_bytes(frame.subrange(16, 18));
    let payload = ipv4_payload(data);
    if frame.len() >= at + 4 && total >= announced + 4 {
        assert(payload.subrange(0, 2) =~= frame.subrange(at, at + 2));
        assert(payload.subrange(2, 4) =~= frame.subrange(at + 2, at + 4));
        two_bytes(payload.subrange(0, 2));
        two_bytes(payload.subrange(2, 4));
    }
}

/// A packet of IPv6 has its ports right behind the forty bytes of its header,
/// provided that the frame and the announced payload length hold the header of TCP
/// (20 bytes) or UDP (8 bytes).
pub proof fn ipv6_ports_follow_the_header(frame: Seq<u8>)
    requires
        frame.len() >= 54,
        frame[12] == 0x86,
        frame[13] == 0xDD,
        frame[20] == 6 || frame[20] == 17,
    ensures
        ({
            let announced = frame[18] * 256 + frame[19];
            let need: int = if frame[20] == 6 {
                20
            } else {
                8
            };
            let t = record_of(frame)->Flow_0;
            if frame.len() >= 54 + need && announced >= need {
                &&& t.src_port == frame[54] * 256 + frame[55]
                &&& t.dst_port == frame[56] * 256 + frame[57]
            } else {
                t.src_port == 0 && t.dst_port == 0
            }
        }),
{
    two_bytes(frame.subrange(12, 14));
    let data = frame.skip(14);
    let announced = frame[18] * 256 + frame[19];
    assert(data.subrange(4, 6) =~= frame.subrange(18, 20));
    two_bytes(frame.subrange(18, 20));
    let payload = ipv6_payload(data);
    if data.len() >= 44 && announced >= 4 {
        assert(payload.subrange(0, 2) =~= frame.subrange(54, 56));
        assert(payload.subrange(2, 4) =~= frame.subrange(56, 58));
        two_bytes(payload.subrange(0, 2));
        two_bytes(payload.subrange(2, 4));
    }
}

/// A packet handed over without its frame belongs to the flow of its addresses, its
/// class and, if it is TCP or UDP with a whole header, the two numbers at the start
/// of its payload; any other packet has no ports.
pub proof fn packets_belong_to_their_ends(
    src: IpAddr,
    dst: IpAddr,
    number: u8,
    payload: Seq<u8>,
)
    ensures
        ({
            let t = flow_tuple(src, dst, number, payload);
            &&& t.src_ip == src
            &&& t.dst_ip == dst
            &&& (t.protocol == Protocol::Tcp <==> number == 6)
            &&& (t.protocol == Protocol::Udp <==> number == 17)
            &&& (t.protocol == Protocol::Icmp <==> number == 1 || number == 58)
            &&& if (number == 6 && payload.len() >= 20) || (number == 17 && payload.len() >= 8) {
                &&& t.src_port == payload[0] * 256 + payload[1]
                &&& t.dst_port == payload[2] * 256 + payload[3]
            } else {
                t.src_port == 0 && t.dst_port == 0
            }
        }),
{
    if payload.len() >= 4 {
        two_bytes(payload.subrange(0, 2));
        two_bytes(payload.subrange(2, 4));
    }
}

/// A packet without ports, whatever follows its header, belongs to a flow without
/// ports.
pub proof fn other_packets_have_no_ports(frame: Seq<u8>)
    requires
        record_of(frame) matches FrameRecord::Flow(t) && t.protocol != Protocol::Tcp && t.protocol
            != Protocol::Udp,
    ensures
        record_of(frame)->Flow_0.src_port == 0,
        record_of(frame)->Flow_0.dst_port == 0,
{
}

} // verus!
