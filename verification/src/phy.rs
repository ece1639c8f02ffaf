//! The packet device under the userspace TCP/IP stack.
//!
//! A peer behind the tunnel may refuse a connection with a reset whose
//! acknowledgement number is that of the SYN itself rather than the next one,
//! which the stack would ignore. The device remembers the SYNs it sent and
//! raises the acknowledgement number of such a reset by one.

use std::collections::VecDeque;

use vstd::prelude::*;

use crate::datagram::{
    internet_checksum, ipv4_complete, ipv4_header_len, ipv4_header_written, ipv4_total_len,
    lemma_checksum_fills, lemma_word_sum_ge, rewrite_ipv4_header, word_sum,
};
use crate::ip::IpAddr;
use crate::octets::{
    be2, be4, be_number, be_u32_at, be_value, lemma_be4_value, lemma_be_2, lemma_be_4,
    lemma_be_bound,
};

verus! {

/// The number of SYNs remembered.
pub const MAX_RECENT_SYNS: usize = 16;

/// The largest packet that the device takes.
pub const DEVICE_MTU: usize = 1280;

/// What identifies a SYN that was sent.
#[derive(Clone, Copy, Debug, PartialEq, Eq, Structural)]
pub struct SynFingerprint {
    pub src: IpAddr,
    pub dst: IpAddr,
    pub sport: u16,
    pub dport: u16,
    pub seq: u32,
}

/// Where the TCP segment of an IP packet lies.
#[derive(Clone, Copy, Debug, PartialEq, Eq, Structural)]
pub struct SegmentSpan {
    /// Where the TCP header starts.
    pub start: usize,
    /// The length of the TCP header.
    pub header_len: usize,
    /// Where the TCP payload ends.
    pub end: usize,
}

/// What a TCP header says.
#[derive(Clone, Copy, Debug, PartialEq, Eq, Structural)]
pub struct TcpFields {
    pub source_port: u16,
    pub destination_port: u16,
    pub sequence_number: u32,
    pub acknowledgment_number: u32,
    pub ns: bool,
    pub fin: bool,
    pub syn: bool,
    pub rst: bool,
    pub psh: bool,
    pub ack: bool,
    pub urg: bool,
    pub ece: bool,
    pub cwr: bool,
}

/// Whether bit `weight` (a power of two) of a byte is set.
pub open spec fn bit(b: u8, weight: int) -> bool {
    (b as int / weight) % 2 == 1
}

/// The length of the fixed IP header of a packet: options included, extension
/// headers not.
pub open spec fn ip_header_len(p: Seq<u8>) -> nat {
    if p[0] / 16 == 4 {
        ipv4_header_len(p)
    } else {
        40
    }
}

/// The length that a TCP header gives itself.
pub open spec fn tcp_header_len(h: Seq<u8>) -> nat {
    (h[12] / 16) as nat * 4
}

/// Whether a span lies behind the IP header of a packet and inside the
/// packet, and starts with a TCP header of the length it names.
pub open spec fn span_of(p: Seq<u8>, span: SegmentSpan) -> bool {
    &&& p.len() >= 20
    &&& p[0] / 16 == 4 || p[0] / 16 == 6
    &&& p[0] / 16 == 4 ==> 20 <= ipv4_header_len(p) && span.end == ipv4_total_len(p)
    &&& ip_header_len(p) <= span.start
    &&& span.start + 20 <= span.start + span.header_len <= span.end <= p.len()
    &&& span.header_len == tcp_header_len(p.skip(span.start as int))
}

/// Whether a packet is one whose segment is found without following extension
/// headers: there is no authentication header in IPv4, and TCP comes next in
/// IPv6. What is no IP packet at all is plain as well.
pub open spec fn is_plain(p: Seq<u8>) -> bool {
    if p.len() > 0 && p[0] / 16 == 4 {
        p.len() >= 20 ==> p[9] != 51
    } else if p.len() > 0 && p[0] / 16 == 6 {
        p.len() >= 40 ==> p[6] == 6
    } else {
        true
    }
}

/// Where an IPv6 packet ends: at its payload length or, where that is zero,
/// with the last byte.
pub open spec fn ipv6_end(p: Seq<u8>) -> nat {
    let payload_len = p[4] as nat * 256 + p[5] as nat;
    if payload_len == 0 {
        p.len()
    } else {
        40 + payload_len
    }
}

/// The segment from `start` to `end` of a packet, if a TCP header fits in it.
pub open spec fn segment_between(p: Seq<u8>, start: nat, end: nat) -> Option<SegmentSpan> {
    let header_len = tcp_header_len(p.skip(start as int));
    if start + 20 <= end && 20 <= header_len && start + header_len <= end {
        Some(
            SegmentSpan {
                start: start as usize,
                header_len: header_len as usize,
                end: end as usize,
            },
        )
    } else {
        None
    }
}

/// The segment of a packet that is plain: that of a complete IPv4 packet which
/// is no fragment, or that of a complete IPv6 packet.
pub open spec fn plain_segment(p: Seq<u8>) -> Option<SegmentSpan> {
    if p.len() > 0 && p[0] / 16 == 4 {
        if ipv4_complete(p) && p[9] == 6 && p[6] % 64 == 0 && p[7] == 0 {
            segment_between(p, ipv4_header_len(p), ipv4_total_len(p))
        } else {
            None
        }
    } else if p.len() >= 40 && p[0] / 16 == 6 && ipv6_end(p) <= p.len() {
        segment_between(p, 40, ipv6_end(p))
    } else {
        None
    }
}

/// Where the TCP segment of an IP packet starts and ends, if the packet
/// parses and has one.
pub uninterp spec fn tcp_segment_at(packet: Seq<u8>) -> Option<(nat, nat)>;

/// The span of a segment, by where it starts and by the lengths of its header
/// and its payload.
pub open spec fn span_with(found: Option<(usize, usize, usize)>) -> Option<SegmentSpan> {
    match found {
        Some((start, header_len, payload_len)) => Some(
            SegmentSpan { start, header_len, end: (start + header_len + payload_len) as usize },
        ),
        None => None,
    }
}

/// `etherparse::PacketHeaders::from_ip_slice`, where the transport is TCP: the
/// length of the IP headers, that of the TCP header and that of the payload.
/// The segment starts behind the IP header and its extension headers, has a
/// complete TCP header and ends with the TCP payload, for IPv4 at the total
/// length. Of a plain packet it is the one that `plain_segment` says. Which
/// other packets parse, and how far extension headers reach, is left to the
/// name `tcp_segment_at`.
#[verifier::external_body]
fn parse_tcp_packet(packet: &[u8]) -> (r: Option<(usize, usize, usize)>)
    ensures
        match r {
            Some((start, header_len, payload_len)) => {
                &&& start + header_len + payload_len <= packet@.len()
                &&& span_of(packet@, span_with(r).unwrap())
                &&& tcp_segment_at(packet@) == Some(
                    (start as nat, (start + header_len + payload_len) as nat),
                )
            },
            None => tcp_segment_at(packet@) is None,
        },
        is_plain(packet@) ==> span_with(r) == plain_segment(packet@),
{
    let h = etherparse::PacketHeaders::from_ip_slice(packet).ok()?;
    match (h.net?, h.transport?, h.payload) {
        (net, etherparse::TransportHeader::Tcp(tcp), etherparse::PayloadSlice::Tcp(payload)) => {
            Some((net.header_len(), tcp.header_len(), payload.len()))
        },
        _ => None,
    }
}

/// Finds the TCP segment of an IP packet.
fn find_tcp_segment(packet: &[u8]) -> (r: Option<SegmentSpan>)
    ensures
        r == parsed_span(packet@),
        r matches Some(span) ==> span_of(packet@, span),
        is_plain(packet@) ==> r == plain_segment(packet@),
{
    let total: usize = packet.len();
    match parse_tcp_packet(packet) {
        Some((start, header_len, payload_len)) => {
            assert(start + header_len + payload_len <= total);
            Some(SegmentSpan { start, header_len, end: start + header_len + payload_len })
        },
        None => None,
    }
}

/// The fields of a TCP header.
pub open spec fn tcp_fields_of(h: Seq<u8>) -> TcpFields {
    TcpFields {
        source_port: be_value(h.subrange(0, 2)) as u16,
        destination_port: be_value(h.subrange(2, 4)) as u16,
        sequence_number: be_value(h.subrange(4, 8)) as u32,
        acknowledgment_number: be_value(h.subrange(8, 12)) as u32,
        ns: bit(h[12], 1),
        fin: bit(h[13], 1),
        syn: bit(h[13], 2),
        rst: bit(h[13], 4),
        psh: bit(h[13], 8),
        ack: bit(h[13], 16),
        urg: bit(h[13], 32),
        ece: bit(h[13], 64),
        cwr: bit(h[13], 128),
    }
}

/// `etherparse::TcpHeader::from_slice` on a complete header, whose fields are
/// those of RFC 793 with the flags of RFC 3168 and RFC 3540.
#[verifier::external_body]
fn read_tcp_header(header: &[u8]) -> (r: Option<TcpFields>)
    requires
        header@.len() >= 20,
        header@.len() == tcp_header_len(header@),
    ensures
        r == Some(tcp_fields_of(header@)),
{
    let (h, _) = etherparse::TcpHeader::from_slice(header).ok()?;
    Some(
        TcpFields {
            source_port: h.source_port, destination_port: h.destination_port,
            sequence_number: h.sequence_number, acknowledgment_number: h.acknowledgment_number,
            ns: h.ns, fin: h.fin, syn: h.syn, rst: h.rst, psh: h.psh, ack: h.ack, urg: h.urg,
            ece: h.ece, cwr: h.cwr,
        },
    )
}

/// A TCP header as it is written back: the three reserved bits cleared.
pub open spec fn tcp_header_written(h: Seq<u8>) -> Seq<u8> {
    h.update(12, (h[12] / 16 * 16 + h[12] % 2) as u8)
}

/// `etherparse::TcpHeader::write` on the header that
/// `etherparse::TcpHeader::from_slice` reads from `header`. All fields are
/// written as they were read; the reserved bits, which are no field, are
/// written as zeros.
#[verifier::external_body]
fn rewrite_tcp_header(header: &[u8]) -> (out: Vec<u8>)
    requires
        header@.len() >= 20,
        header@.len() == tcp_header_len(header@),
    ensures
        out@ == tcp_header_written(header@),
{
    let mut out = Vec::with_capacity(header.len());
    if let Ok((parsed, _)) = etherparse::TcpHeader::from_slice(header) {
        let _ = parsed.write(&mut out);
    }
    out
}

/// `etherparse::Ipv6Header::write` on the header that
/// `etherparse::Ipv6Header::from_slice` reads from `header`. Every bit of the
/// fixed IPv6 header belongs to a field, so the header comes out as it was.
#[verifier::external_body]
fn rewrite_ipv6_header(header: &[u8]) -> (out: Vec<u8>)
    requires
        header@.len() == 40,
        header@[0] / 16 == 6,
    ensures
        out@ == header@,
{
    let mut out = Vec::with_capacity(header.len());
    if let Ok((parsed, _)) = etherparse::Ipv6Header::from_slice(header) {
        let _ = parsed.write(&mut out);
    }
    out
}

/// What the TCP checksum covers behind the pseudo header: the header as it is
/// written, with zeros for the checksum, and the payload, padded to a whole
/// number of words.
pub open spec fn tcp_checksum_body(h: Seq<u8>, payload: Seq<u8>) -> Seq<u8> {
    tcp_header_written(h).update(16, 0).update(17, 0) + payload + (if payload.len() % 2 == 0 {
        Seq::<u8>::empty()
    } else {
        seq![0u8]
    })
}

/// What the TCP checksum over IPv4 covers (RFC 793).
pub open spec fn tcp_checksum_input_v4(ip: Seq<u8>, h: Seq<u8>, payload: Seq<u8>) -> Seq<u8> {
    ip.subrange(12, 20) + seq![0u8, 6u8] + be2(h.len() + payload.len()) + tcp_checksum_body(
        h,
        payload,
    )
}

/// What the TCP checksum over IPv6 covers (RFC 2460, section 8.1).
pub open spec fn tcp_checksum_input_v6(ip: Seq<u8>, h: Seq<u8>, payload: Seq<u8>) -> Seq<u8> {
    ip.subrange(8, 40) + be4(h.len() + payload.len()) + seq![0u8, 6u8] + tcp_checksum_body(
        h,
        payload,
    )
}

/// `etherparse::TcpHeader::calc_checksum_ipv4`: the Internet checksum over the
/// pseudo header, the TCP header without its checksum and the payload. A
/// segment too long for the length field of the pseudo header has none.
#[verifier::external_body]
fn tcp_checksum_v4(ip: &[u8], header: &[u8], payload: &[u8]) -> (r: Option<u16>)
    requires
        ip@.len() >= 20,
        ip@[0] / 16 == 4,
        ip@.len() == ipv4_header_len(ip@),
        header@.len() >= 20,
        header@.len() == tcp_header_len(header@),
    ensures
        match r {
            Some(v) => header@.len() + payload@.len() <= 0xffff && v == internet_checksum(
                tcp_checksum_input_v4(ip@, header@, payload@),
            ),
            None => header@.len() + payload@.len() > 0xffff,
        },
{
    let (ip, _) = etherparse::Ipv4Header::from_slice(ip).ok()?;
    let (tcp, _) = etherparse::TcpHeader::from_slice(header).ok()?;
    tcp.calc_checksum_ipv4(&ip, payload).ok()
}

/// `etherparse::TcpHeader::calc_checksum_ipv6`: the Internet checksum over the
/// pseudo header, the TCP header without its checksum and the payload. A
/// segment too long for the length field of the pseudo header has none.
#[verifier::external_body]
fn tcp_checksum_v6(ip: &[u8], header: &[u8], payload: &[u8]) -> (r: Option<u16>)
    requires
        ip@.len() == 40,
        ip@[0] / 16 == 6,
        header@.len() >= 20,
        header@.len() == tcp_header_len(header@),
    ensures
        match r {
            Some(v) => header@.len() + payload@.len() <= 0xffff_ffff && v == internet_checksum(
                tcp_checksum_input_v6(ip@, header@, payload@),
            ),
            None => header@.len() + payload@.len() > 0xffff_ffff,
        },
{
    let (ip, _) = etherparse::Ipv6Header::from_slice(ip).ok()?;
    let (tcp, _) = etherparse::TcpHeader::from_slice(header).ok()?;
    tcp.calc_checksum_ipv6(&ip, payload).ok()
}

/// The source address of an IP packet.
pub open spec fn ip_source(p: Seq<u8>) -> IpAddr {
    if p[0] / 16 == 4 {
        IpAddr::V4(be_value(p.subrange(12, 16)) as u32)
    } else {
        IpAddr::V6(be_value(p.subrange(8, 24)) as u128)
    }
}

/// The destination address of an IP packet.
pub open spec fn ip_destination(p: Seq<u8>) -> IpAddr {
    if p[0] / 16 == 4 {
        IpAddr::V4(be_value(p.subrange(16, 20)) as u32)
    } else {
        IpAddr::V6(be_value(p.subrange(24, 40)) as u128)
    }
}

/// Reads the source and destination addresses of an IP packet.
pub fn ip_addresses(packet: &[u8]) -> (r: (IpAddr, IpAddr))
    requires
        packet@.len() >= 20,
        packet@[0] / 16 != 4 ==> packet@.len() >= 40,
    ensures
        r == (ip_source(packet@), ip_destination(packet@)),
{
    if packet[0] / 16 == 4 {
        (IpAddr::V4(be_u32_at(packet, 12)), IpAddr::V4(be_u32_at(packet, 16)))
    } else {
        (
            IpAddr::V6(be_number(vstd::slice::slice_subrange(packet, 8, 24))),
            IpAddr::V6(be_number(vstd::slice::slice_subrange(packet, 24, 40))),
        )
    }
}

/// The TCP header of the segment at a span.
pub open spec fn header_at(p: Seq<u8>, span: SegmentSpan) -> Seq<u8> {
    p.subrange(span.start as int, span.start + span.header_len)
}

/// The TCP payload of the segment at a span.
pub open spec fn payload_at(p: Seq<u8>, span: SegmentSpan) -> Seq<u8> {
    p.subrange(span.start + span.header_len, span.end as int)
}

/// A TCP header with the next acknowledgement number.
pub open spec fn next_ack_header(h: Seq<u8>) -> Seq<u8> {
    let ack = be4(((tcp_fields_of(h).acknowledgment_number + 1) % 0x1_0000_0000) as nat);
    h.update(8, ack[0]).update(9, ack[1]).update(10, ack[2]).update(11, ack[3])
}

/// The checksum that a TCP header gets in a packet: zero for a segment too
/// long to have one.
pub open spec fn tcp_checksum_in(p: Seq<u8>, h: Seq<u8>, payload: Seq<u8>) -> nat {
    let n = ip_header_len(p) as int;
    if p[0] / 16 == 4 {
        if h.len() + payload.len() <= 0xffff {
            internet_checksum(tcp_checksum_input_v4(p.take(n), h, payload))
        } else {
            0
        }
    } else {
        if h.len() + payload.len() <= 0xffff_ffff {
            internet_checksum(tcp_checksum_input_v6(p.take(n), h, payload))
        } else {
            0
        }
    }
}

/// The TCP header of the segment at a span with the next acknowledgement
/// number and the checksum that goes with it.
pub open spec fn raised_tcp_header(p: Seq<u8>, span: SegmentSpan) -> Seq<u8> {
    let h = next_ack_header(header_at(p, span));
    let sum = tcp_checksum_in(p, h, payload_at(p, span));
    tcp_header_written(h.update(16, (sum / 256) as u8).update(17, (sum % 256) as u8))
}

/// The IP header of a packet as it is written back.
pub open spec fn written_ip_header(p: Seq<u8>) -> Seq<u8> {
    let ip = p.take(ip_header_len(p) as int);
    if p[0] / 16 == 4 {
        ipv4_header_written(ip)
    } else {
        ip
    }
}

/// A packet whose TCP header has the next acknowledgement number. The IP
/// header is written anew and the TCP header right behind it.
pub open spec fn ack_raised(p: Seq<u8>, span: SegmentSpan) -> Seq<u8> {
    written_ip_header(p) + raised_tcp_header(p, span) + p.skip(ip_header_len(p) + span.header_len)
}

proof fn lemma_raised_lens(p: Seq<u8>, span: SegmentSpan)
    requires
        span_of(p, span),
    ensures
        written_ip_header(p).len() == ip_header_len(p),
        raised_tcp_header(p, span).len() == span.header_len,
        ack_raised(p, span).len() == p.len(),
        ip_header_len(p) + span.header_len <= p.len(),
{
}

/// Writes the IP header of a packet anew.
fn make_ip_header(packet: &[u8], n: usize) -> (out: Vec<u8>)
    requires
        packet@.len() >= n >= 20,
        n == ip_header_len(packet@),
        packet@[0] / 16 == 4 || packet@[0] / 16 == 6,
    ensures
        out@ == written_ip_header(packet@),
{
    let ip = vstd::slice::slice_subrange(packet, 0, n);
    assert(ip@ =~= packet@.take(n as int));
    if packet[0] / 16 == 4 {
        rewrite_ipv4_header(ip)
    } else {
        rewrite_ipv6_header(ip)
    }
}

/// The checksum of a TCP header in a packet.
fn make_tcp_checksum(packet: &[u8], n: usize, header: &[u8], payload: &[u8]) -> (sum: u16)
    requires
        packet@.len() >= n >= 20,
        n == ip_header_len(packet@),
        packet@[0] / 16 == 4 || packet@[0] / 16 == 6,
        header@.len() >= 20,
        header@.len() == tcp_header_len(header@),
    ensures
        sum == tcp_checksum_in(packet@, header@, payload@),
{
    let ip = vstd::slice::slice_subrange(packet, 0, n);
    assert(ip@ =~= packet@.take(n as int));
    let checksum: Option<u16> = if packet[0] / 16 == 4 {
        tcp_checksum_v4(ip, header, payload)
    } else {
        tcp_checksum_v6(ip, header, payload)
    };
    match checksum {
        Some(sum) => sum,
        None => 0,
    }
}

/// Makes the TCP header with the next acknowledgement number.
fn make_raised_header(packet: &[u8], n: usize, span: SegmentSpan) -> (out: Vec<u8>)
    requires
        span_of(packet@, span),
        n == ip_header_len(packet@),
    ensures
        out@ == raised_tcp_header(packet@, span),
{
    let ghost p = packet@;
    let old_header = vstd::slice::slice_subrange(packet, span.start, span.start + span.header_len);
    let payload = vstd::slice::slice_subrange(packet, span.start + span.header_len, span.end);
    let ghost h0 = old_header@;
    assert(h0 == header_at(p, span));
    assert(h0[12] == p.skip(span.start as int)[12]);
    let old_ack: u32 = be_u32_at(old_header, 8);
    let ack: u32 = old_ack.wrapping_add(1);
    let mut header = vstd::slice::slice_to_vec(old_header);
    header[8] = (ack / 0x100_0000) as u8;
    header[9] = (ack / 0x1_0000 % 0x100) as u8;
    header[10] = (ack / 0x100 % 0x100) as u8;
    header[11] = (ack % 0x100) as u8;
    let ghost h1 = header@;
    assert(h1 == next_ack_header(h0));
    let sum: u16 = make_tcp_checksum(packet, n, header.as_slice(), payload);
    header[16] = (sum / 256) as u8;
    header[17] = (sum % 256) as u8;
    rewrite_tcp_header(header.as_slice())
}

/// Raises the acknowledgement number of the segment at a span by one, and
/// brings the checksums up to date.
pub fn raise_ack(packet: &mut [u8], span: SegmentSpan)
    requires
        span_of(old(packet)@, span),
    ensures
        final(packet)@ == ack_raised(old(packet)@, span),
        final(packet)@.len() == old(packet)@.len(),
{
    let ghost p = packet@;
    proof {
        lemma_raised_lens(p, span);
    }
    let n: usize = if packet[0] / 16 == 4 {
        (packet[0] % 16) as usize * 4
    } else {
        40
    };
    let ip = make_ip_header(packet, n);
    let tcp = make_raised_header(packet, n, span);
    copy_into(packet, 0, ip.as_slice());
    let ghost q = packet@;
    copy_into(packet, n, tcp.as_slice());
    assert(q.take(n as int) =~= ip@);
    assert(q.skip(n + tcp@.len()) =~= p.skip(n + tcp@.len()));
    assert(packet@ =~= ack_raised(p, span));
}

/// Copies bytes over those of a packet from `at` on.
fn copy_into(packet: &mut [u8], at: usize, bytes: &[u8])
    requires
        at + bytes@.len() <= old(packet)@.len(),
    ensures
        final(packet)@ == old(packet)@.take(at as int) + bytes@ + old(packet)@.skip(
            at + bytes@.len(),
        ),
{
    let ghost p = packet@;
    let total: usize = packet.len();
    let mut i: usize = 0;
    while i < bytes.len()
        invariant
            i <= bytes@.len(),
            at + bytes@.len() <= total == p.len() == packet@.len(),
            packet@ =~= p.take(at as int) + bytes@.take(i as int) + p.skip(at + i),
        decreases bytes@.len() - i,
    {
        packet[at + i] = bytes[i];
        i = i + 1;
    }
    assert(packet@ =~= p.take(at as int) + bytes@ + p.skip(at + bytes@.len()));
}

/// Whether a segment is a reset with an acknowledgement and nothing else.
pub open spec fn is_reset_ack(f: TcpFields) -> bool {
    f.rst && f.ack && !f.syn && !f.fin && !f.psh && !f.urg && !f.ece && !f.cwr && !f.ns
}

/// Whether a segment of a packet answers a SYN with the SYN's own sequence
/// number.
pub open spec fn answers(syn: SynFingerprint, p: Seq<u8>, f: TcpFields) -> bool {
    &&& syn.src == ip_destination(p)
    &&& syn.dst == ip_source(p)
    &&& syn.sport == f.destination_port
    &&& syn.dport == f.source_port
    &&& syn.seq == f.acknowledgment_number
}

/// The first SYN, from place `from` on, that a segment answers.
pub open spec fn first_answered(
    syns: Seq<SynFingerprint>,
    p: Seq<u8>,
    f: TcpFields,
    from: int,
) -> Option<int>
    decreases syns.len() - from,
{
    if from >= syns.len() {
        None
    } else if answers(syns[from], p, f) {
        Some(from)
    } else {
        first_answered(syns, p, f, from + 1)
    }
}

/// The place of the SYN that the segment at a span resets, if it is a reset
/// of one.
pub open spec fn reset_syn(
    syns: Seq<SynFingerprint>,
    p: Seq<u8>,
    parsed: Option<SegmentSpan>,
) -> Option<int> {
    match parsed {
        Some(span) => {
            let f = tcp_fields_of(header_at(p, span));
            if is_reset_ack(f) {
                first_answered(syns, p, f, 0)
            } else {
                None
            }
        },
        None => None,
    }
}

/// The span that the packet parser finds in a packet.
pub open spec fn parsed_span(p: Seq<u8>) -> Option<SegmentSpan> {
    match tcp_segment_at(p) {
        Some((start, end)) => Some(
            SegmentSpan {
                start: start as usize,
                header_len: tcp_header_len(p.skip(start as int)) as usize,
                end: end as usize,
            },
        ),
        None => None,
    }
}

/// An inbound packet as the stack gets to see it.
pub open spec fn normalized(
    syns: Seq<SynFingerprint>,
    p: Seq<u8>,
    parsed: Option<SegmentSpan>,
) -> Seq<u8> {
    if reset_syn(syns, p, parsed) is Some {
        ack_raised(p, parsed.unwrap())
    } else {
        p
    }
}

/// The SYNs remembered after an inbound packet: the one that it resets is
/// forgotten.
pub open spec fn syns_after_inbound(
    syns: Seq<SynFingerprint>,
    p: Seq<u8>,
    parsed: Option<SegmentSpan>,
) -> Seq<SynFingerprint> {
    match reset_syn(syns, p, parsed) {
        Some(i) => syns.remove(i),
        None => syns,
    }
}

/// The SYN in an outbound packet, if its segment is the first of a
/// connection.
pub open spec fn sent_syn(p: Seq<u8>, parsed: Option<SegmentSpan>) -> Option<SynFingerprint> {
    match parsed {
        Some(span) => {
            let f = tcp_fields_of(header_at(p, span));
            if f.syn && !f.ack && !f.rst {
                Some(
                    SynFingerprint {
                        src: ip_source(p),
                        dst: ip_destination(p),
                        sport: f.source_port,
                        dport: f.destination_port,
                        seq: f.sequence_number,
                    },
                )
            } else {
                None
            }
        },
        None => None,
    }
}

/// The SYNs remembered after an outbound packet: a SYN is put last, and the
/// oldest makes room for it.
pub open spec fn syns_after_outbound(
    syns: Seq<SynFingerprint>,
    p: Seq<u8>,
    parsed: Option<SegmentSpan>,
) -> Seq<SynFingerprint> {
    match sent_syn(p, parsed) {
        Some(syn) => if syns.len() >= MAX_RECENT_SYNS {
            syns.drop_first().push(syn)
        } else {
            syns.push(syn)
        },
        None => syns,
    }
}

/// The device: the inbound packets that wait for the stack, and the SYNs that
/// it sent.
pub struct ChannelPhy {
    rx: VecDeque<Vec<u8>>,
    recent_syns: VecDeque<SynFingerprint>,
}

impl ChannelPhy {
    /// The number of SYNs remembered is bounded.
    pub open spec fn wf(&self) -> bool {
        self.syns().len() <= MAX_RECENT_SYNS
    }

    /// The packets that wait for the stack, in order.
    pub closed spec fn waiting(&self) -> Seq<Seq<u8>> {
        self.rx@.map_values(|p: Vec<u8>| p@)
    }

    /// The SYNs remembered, the oldest first.
    pub closed spec fn syns(&self) -> Seq<SynFingerprint> {
        self.recent_syns@
    }

    pub fn new() -> (r: Self)
        ensures
            r.wf(),
            r.waiting() == Seq::<Seq<u8>>::empty(),
            r.syns() == Seq::<SynFingerprint>::empty(),
    {
        let r = ChannelPhy {
            rx: VecDeque::new(),
            recent_syns: VecDeque::with_capacity(MAX_RECENT_SYNS),
        };
        assert(r.waiting() =~= Seq::<Seq<u8>>::empty());
        r
    }

    /// Takes a packet from the tunnel: it is normalized and put in line for
    /// the stack.
    pub fn push_rx(&mut self, packet: Vec<u8>)
        requires
            old(self).wf(),
        ensures
            final(self).wf(),
            final(self).waiting() == old(self).waiting().push(
                normalized(old(self).syns(), packet@, parsed_span(packet@)),
            ),
            final(self).syns() == syns_after_inbound(
                old(self).syns(),
                packet@,
                parsed_span(packet@),
            ),
            is_plain(packet@) ==> parsed_span(packet@) == plain_segment(packet@),
    {
        let mut packet = packet;
        self.normalize_inbound_rst_ack(packet.as_mut_slice());
        let ghost before = self.waiting();
        self.rx.push_back(packet);
        assert(self.waiting() =~= before.push(packet@));
    }

    /// Raises the acknowledgement number of a reset that answers a SYN with
    /// the SYN's own sequence number, and forgets that SYN.
    pub fn normalize_inbound_rst_ack(&mut self, packet: &mut [u8])
        requires
            old(self).wf(),
        ensures
            final(self).wf(),
            final(self).waiting() == old(self).waiting(),
            final(self).syns() == syns_after_inbound(
                old(self).syns(),
                old(packet)@,
                parsed_span(old(packet)@),
            ),
            final(packet)@ == normalized(
                old(self).syns(),
                old(packet)@,
                parsed_span(old(packet)@),
            ),
            is_plain(old(packet)@) ==> parsed_span(old(packet)@) == plain_segment(old(packet)@),
    {
        let parsed = find_tcp_segment(packet);
        self.normalize_parsed(packet, parsed);
    }

    /// Does the same for a packet that has been parsed.
    pub fn normalize_parsed(&mut self, packet: &mut [u8], parsed: Option<SegmentSpan>)
        requires
            old(self).wf(),
            parsed matches Some(span) ==> span_of(old(packet)@, span),
        ensures
            final(self).wf(),
            final(self).waiting() == old(self).waiting(),
            final(self).syns() == syns_after_inbound(old(self).syns(), old(packet)@, parsed),
            final(packet)@ == normalized(old(self).syns(), old(packet)@, parsed),
    {
        let span = match parsed {
            Some(span) => span,
            None => {
                return;
            },
        };
        let ghost p = packet@;
        let f = match fields_at(packet, span) {
            Some(f) => f,
            None => {
                return;
            },
        };
        if !(f.rst && f.ack && !f.syn && !f.fin && !f.psh && !f.urg && !f.ece && !f.cwr && !f.ns) {
            return;
        }
        let (source, destination) = ip_addresses(packet);
        let mut i: usize = 0;
        while i < self.recent_syns.len()
            invariant
                i <= self.recent_syns@.len(),
                *self == *old(self),
                packet@ == p,
                p == old(packet)@,
                source == ip_source(p),
                destination == ip_destination(p),
                parsed == Some(span),
                f == tcp_fields_of(header_at(p, span)),
                is_reset_ack(f),
                span_of(p, span),
                old(self).wf(),
                first_answered(self.recent_syns@, p, f, 0) == first_answered(
                    self.recent_syns@,
                    p,
                    f,
                    i as int,
                ),
            decreases self.recent_syns@.len() - i,
        {
            let syn: SynFingerprint = self.recent_syns[i];
            if syn.src == destination && syn.dst == source && syn.sport == f.destination_port
                && syn.dport == f.source_port && syn.seq == f.acknowledgment_number {
                raise_ack(packet, span);
                let _ = self.recent_syns.remove(i);
                return;
            }
            i = i + 1;
        }
    }

    /// Takes the next packet for the stack.
    pub fn receive(&mut self) -> (r: Option<Vec<u8>>)
        requires
            old(self).wf(),
        ensures
            final(self).wf(),
            final(self).syns() == old(self).syns(),
            match r {
                Some(packet) => old(self).waiting().len() > 0 && packet@ == old(self).waiting()[0]
                    && final(self).waiting() == old(self).waiting().drop_first(),
                None => old(self).waiting().len() == 0 && final(self).waiting() == old(
                    self,
                ).waiting(),
            },
    {
        let ghost before = self.rx@;
        let r = self.rx.pop_front();
        proof {
            if before.len() > 0 {
                assert(self.waiting() =~= old(self).waiting().drop_first());
            }
        }
        r
    }

    /// Notes a packet that the stack sends.
    pub fn record_outbound(&mut self, packet: &[u8])
        requires
            old(self).wf(),
        ensures
            final(self).wf(),
            final(self).waiting() == old(self).waiting(),
            final(self).syns() == syns_after_outbound(
                old(self).syns(),
                packet@,
                parsed_span(packet@),
            ),
            is_plain(packet@) ==> parsed_span(packet@) == plain_segment(packet@),
    {
        let parsed = find_tcp_segment(packet);
        self.record_parsed(packet, parsed);
    }

    /// Notes a packet that the stack sends and that has been parsed.
    pub fn record_parsed(&mut self, packet: &[u8], parsed: Option<SegmentSpan>)
        requires
            old(self).wf(),
            parsed matches Some(span) ==> span_of(packet@, span),
        ensures
            final(self).wf(),
            final(self).waiting() == old(self).waiting(),
            final(self).syns() == syns_after_outbound(old(self).syns(), packet@, parsed),
    {
        let span = match parsed {
            Some(span) => span,
            None => {
                return;
            },
        };
        let f = match fields_at(packet, span) {
            Some(f) => f,
            None => {
                return;
            },
        };
        if f.syn && !f.ack && !f.rst {
            let (src, dst) = ip_addresses(packet);
            if self.recent_syns.len() >= MAX_RECENT_SYNS {
                let _ = self.recent_syns.pop_front();
                assert(self.recent_syns@ =~= old(self).recent_syns@.drop_first());
            }
            self.recent_syns.push_back(
                SynFingerprint {
                    src,
                    dst,
                    sport: f.source_port,
                    dport: f.destination_port,
                    seq: f.sequence_number,
                },
            );
        }
    }
}

/// Reads the TCP header at a span.
fn fields_at(packet: &[u8], span: SegmentSpan) -> (r: Option<TcpFields>)
    requires
        span_of(packet@, span),
    ensures
        r == Some(tcp_fields_of(header_at(packet@, span))),
{
    let header = vstd::slice::slice_subrange(packet, span.start, span.start + span.header_len);
    assert(header@ =~= header_at(packet@, span));
    assert(header@[12] == packet@.skip(span.start as int)[12]);
    read_tcp_header(header)
}

/// A device never remembers more SYNs than it has room for, and a SYN that is
/// sent is remembered, as the latest.
pub proof fn law_sent_syn_is_remembered(
    syns: Seq<SynFingerprint>,
    p: Seq<u8>,
    parsed: Option<SegmentSpan>,
)
    requires
        syns.len() <= MAX_RECENT_SYNS,
    ensures
        syns_after_outbound(syns, p, parsed).len() <= MAX_RECENT_SYNS,
        sent_syn(p, parsed) matches Some(syn) ==> syns_after_outbound(syns, p, parsed).last()
            == syn,
        sent_syn(p, parsed) is None ==> syns_after_outbound(syns, p, parsed) == syns,
{
}

proof fn lemma_first_answered(
    syns: Seq<SynFingerprint>,
    p: Seq<u8>,
    f: TcpFields,
    from: int,
    i: int,
)
    requires
        0 <= from <= i < syns.len(),
        answers(syns[i], p, f),
    ensures
        first_answered(syns, p, f, from) matches Some(k) && from <= k <= i && answers(
            syns[k],
            p,
            f,
        ),
    decreases i - from,
{
    if !answers(syns[from], p, f) {
        lemma_first_answered(syns, p, f, from + 1, i);
    }
}

/// The segment of a plain packet lies right behind the IP header.
pub proof fn law_plain_segment_follows_header(p: Seq<u8>)
    requires
        is_plain(p),
        p.len() <= usize::MAX,
    ensures
        plain_segment(p) matches Some(span) ==> span_of(p, span) && span.start == ip_header_len(p),
{
}

/// A reset that answers a remembered SYN reaches the stack with the
/// acknowledgement number that follows the SYN, and one SYN fewer is
/// remembered. (Where extension headers lie between the IP header and the TCP
/// header, the new TCP header is written in front of its place, so the law
/// speaks of packets without.)
pub proof fn law_reset_acknowledges_syn(
    syns: Seq<SynFingerprint>,
    i: int,
    p: Seq<u8>,
    span: SegmentSpan,
)
    requires
        span_of(p, span),
        span.start == ip_header_len(p),
        0 <= i < syns.len(),
        is_reset_ack(tcp_fields_of(header_at(p, span))),
        answers(syns[i], p, tcp_fields_of(header_at(p, span))),
    ensures
        ({
            let out = normalized(syns, p, Some(span));
            &&& out.len() == p.len()
            &&& tcp_fields_of(header_at(out, span)).acknowledgment_number == (syns[i].seq + 1)
                % 0x1_0000_0000
            &&& payload_at(out, span) == payload_at(p, span)
            &&& syns_after_inbound(syns, p, Some(span)).len() == syns.len() - 1
        }),
{
    let f = tcp_fields_of(header_at(p, span));
    lemma_first_answered(syns, p, f, 0, i);
    lemma_raised_lens(p, span);
    lemma_raised_ack(p, span);
    let out = normalized(syns, p, Some(span));
    assert(out == ack_raised(p, span));
    assert(header_at(out, span) =~= raised_tcp_header(p, span));
    assert(payload_at(out, span) =~= payload_at(p, span));
}

#[verifier::spinoff_prover]
proof fn lemma_raised_ack(p: Seq<u8>, span: SegmentSpan)
    requires
        span_of(p, span),
    ensures
        tcp_fields_of(raised_tcp_header(p, span)).acknowledgment_number == (tcp_fields_of(
            header_at(p, span),
        ).acknowledgment_number + 1) % 0x1_0000_0000,
{
    let h = next_ack_header(header_at(p, span));
    let w = raised_tcp_header(p, span);
    let ack = ((tcp_fields_of(header_at(p, span)).acknowledgment_number + 1) % 0x1_0000_0000) as nat;
    assert(w.len() >= 20);
    assert(w[8] == h[8] && w[9] == h[9] && w[10] == h[10] && w[11] == h[11]);
    assert(h[8] == be4(ack)[0] && h[9] == be4(ack)[1] && h[10] == be4(ack)[2] && h[11] == be4(
        ack,
    )[3]);
    assert(w.subrange(8, 12) =~= be4(ack));
    lemma_be4_value(ack);
}

/// A packet that resets no remembered SYN reaches the stack as it came.
pub proof fn law_other_packets_pass(
    syns: Seq<SynFingerprint>,
    p: Seq<u8>,
    parsed: Option<SegmentSpan>,
)
    requires
        parsed matches Some(span) ==> !is_reset_ack(tcp_fields_of(header_at(p, span))) || forall|
            i: int,
        |
            0 <= i < syns.len() ==> !answers(
                #[trigger] syns[i],
                p,
                tcp_fields_of(header_at(p, span)),
            ),
    ensures
        normalized(syns, p, parsed) == p,
        syns_after_inbound(syns, p, parsed) == syns,
{
    if let Some(span) = parsed {
        lemma_none_answered(syns, p, tcp_fields_of(header_at(p, span)), 0);
    }
}

proof fn lemma_none_answered(syns: Seq<SynFingerprint>, p: Seq<u8>, f: TcpFields, from: int)
    requires
        0 <= from,
    ensures
        (forall|i: int| 0 <= i < syns.len() ==> !answers(#[trigger] syns[i], p, f))
            ==> first_answered(syns, p, f, from) is None,
    decreases syns.len() - from,
{
    if from < syns.len() {
        lemma_none_answered(syns, p, f, from + 1);
    }
}

/// What the TCP checksum covers, checksum included.
pub open spec fn tcp_checked_words(p: Seq<u8>, h: Seq<u8>, payload: Seq<u8>) -> Seq<u8> {
    let len = h.len() + payload.len();
    let pseudo = if p[0] / 16 == 4 {
        p.subrange(12, 20) + seq![0u8, 6u8] + be2(len)
    } else {
        p.subrange(8, 40) + be4(len) + seq![0u8, 6u8]
    };
    pseudo + h + payload + (if payload.len() % 2 == 0 {
        Seq::<u8>::empty()
    } else {
        seq![0u8]
    })
}

/// The TCP checksum of a reset that was normalized is right: the ones'
/// complement sum of the words it covers is zero. (A segment of more bytes
/// than the pseudo header can tell gets a checksum of zero instead.)
pub proof fn law_raised_checksum_is_valid(p: Seq<u8>, span: SegmentSpan)
    requires
        span_of(p, span),
        span.end - span.start <= 0xffff_ffff,
    ensures
        word_sum(tcp_checked_words(p, raised_tcp_header(p, span), payload_at(p, span))) % 65535
            == 0,
{
    let n = ip_header_len(p) as int;
    let h = next_ack_header(header_at(p, span));
    let payload = payload_at(p, span);
    let len = h.len() + payload.len();
    assert(h[12] == p.skip(span.start as int)[12]);
    assert(h.len() % 4 == 0);
    if p[0] / 16 == 4 {
        let pseudo = p.take(n).subrange(12, 20) + seq![0u8, 6u8] + be2(len);
        assert(pseudo =~= p.subrange(12, 20) + seq![0u8, 6u8] + be2(len));
        lemma_tcp_checksum_fills(pseudo, 8, h, payload);
    } else {
        let pseudo = p.take(n).subrange(8, 40) + be4(len) + seq![0u8, 6u8];
        assert(pseudo =~= p.subrange(8, 40) + be4(len) + seq![0u8, 6u8]);
        lemma_tcp_checksum_fills(pseudo, 36, h, payload);
    }
}

proof fn lemma_tcp_checksum_fills(pseudo: Seq<u8>, j: int, h: Seq<u8>, payload: Seq<u8>)
    requires
        pseudo.len() % 2 == 0,
        0 <= j,
        j + 1 < pseudo.len(),
        j % 2 == 0,
        pseudo[j + 1] == 6,
        h.len() >= 20,
        h.len() % 4 == 0,
    ensures
        ({
            let sum = internet_checksum(pseudo + tcp_checksum_body(h, payload));
            let w = tcp_header_written(
                h.update(16, (sum / 256) as u8).update(17, (sum % 256) as u8),
            );
            let pad = if payload.len() % 2 == 0 {
                Seq::<u8>::empty()
            } else {
                seq![0u8]
            };
            word_sum(pseudo + w + payload + pad) % 65535 == 0
        }),
{
    let input = pseudo + tcp_checksum_body(h, payload);
    let sum = internet_checksum(input);
    let hi = (sum / 256) as u8;
    let lo = (sum % 256) as u8;
    let at: int = pseudo.len() as int + 16;
    lemma_word_sum_ge(input, j);
    lemma_checksum_fills(input, at);
    let w = tcp_header_written(h.update(16, hi).update(17, lo));
    let pad = if payload.len() % 2 == 0 {
        Seq::<u8>::empty()
    } else {
        seq![0u8]
    };
    assert(pseudo + w + payload + pad =~= input.update(at, hi).update(at + 1, lo));
}

/// A segment with SYN (weight 2) and without RST (4) and ACK (16) is
/// remembered as the latest, whatever the length of its header: by the
/// addresses of the packet, by the ports in the first four bytes of the TCP
/// header and by the sequence number in the next four. The SYNs before it stay,
/// but for the oldest where there are sixteen.
pub proof fn law_syn_is_remembered_by_its_bytes(
    syns: Seq<SynFingerprint>,
    p: Seq<u8>,
    span: SegmentSpan,
)
    requires
        span_of(p, span),
        p[span.start + 13] / 2 % 2 == 1,
        p[span.start + 13] / 4 % 2 == 0,
        p[span.start + 13] / 16 % 2 == 0,
    ensures
        ({
            let t = span.start as int;
            let after = syns_after_outbound(syns, p, Some(span));
            let syn = after.last();
            &&& after.len() > 0
            &&& after.drop_last() == (if syns.len() >= 16 {
                syns.drop_first()
            } else {
                syns
            })
            &&& syn.sport == p[t] * 256 + p[t + 1]
            &&& syn.dport == p[t + 2] * 256 + p[t + 3]
            &&& syn.seq == p[t + 4] * 0x100_0000 + p[t + 5] * 0x1_0000 + p[t + 6] * 0x100 + p[t
                + 7]
            &&& p[0] / 16 == 4 ==> (syn.src matches IpAddr::V4(a) && a == p[12] * 0x100_0000
                + p[13] * 0x1_0000 + p[14] * 0x100 + p[15])
            &&& p[0] / 16 == 4 ==> (syn.dst matches IpAddr::V4(a) && a == p[16] * 0x100_0000
                + p[17] * 0x1_0000 + p[18] * 0x100 + p[19])
            &&& p[0] / 16 == 6 ==> (syn.src matches IpAddr::V6(a) && a == be_value(
                p.subrange(8, 24),
            ))
            &&& p[0] / 16 == 6 ==> (syn.dst matches IpAddr::V6(a) && a == be_value(
                p.subrange(24, 40),
            ))
        }),
{
    let t = span.start as int;
    let h = header_at(p, span);
    lemma_fields_by_bytes(p, span);
    lemma_addresses_by_bytes(p);
    let after = syns_after_outbound(syns, p, Some(span));
    assert(sent_syn(p, Some(span)) is Some);
    assert(after.drop_last() =~= (if syns.len() >= 16 {
        syns.drop_first()
    } else {
        syns
    }));
}

/// A segment that is no SYN, or that has RST or ACK set, leaves what is
/// remembered as it is; so does a packet without a segment.
pub proof fn law_only_syns_are_remembered(
    syns: Seq<SynFingerprint>,
    p: Seq<u8>,
    span: SegmentSpan,
)
    requires
        span_of(p, span),
        p[span.start + 13] / 2 % 2 == 0 || p[span.start + 13] / 4 % 2 == 1 || p[span.start + 13]
            / 16 % 2 == 1,
    ensures
        syns_after_outbound(syns, p, Some(span)) == syns,
        syns_after_outbound(syns, p, None) == syns,
{
    lemma_fields_by_bytes(p, span);
}

/// The fields of a TCP header by the bytes of the packet.
proof fn lemma_fields_by_bytes(p: Seq<u8>, span: SegmentSpan)
    requires
        span_of(p, span),
    ensures
        ({
            let t = span.start as int;
            let f = tcp_fields_of(header_at(p, span));
            &&& f.source_port == p[t] * 256 + p[t + 1]
            &&& f.destination_port == p[t + 2] * 256 + p[t + 3]
            &&& f.sequence_number == p[t + 4] * 0x100_0000 + p[t + 5] * 0x1_0000 + p[t + 6] * 0x100
                + p[t + 7]
            &&& f.acknowledgment_number == p[t + 8] * 0x100_0000 + p[t + 9] * 0x1_0000 + p[t + 10]
                * 0x100 + p[t + 11]
            &&& f.ns == (p[t + 12] % 2 == 1)
            &&& f.fin == (p[t + 13] % 2 == 1)
            &&& f.syn == (p[t + 13] / 2 % 2 == 1)
            &&& f.rst == (p[t + 13] / 4 % 2 == 1)
            &&& f.psh == (p[t + 13] / 8 % 2 == 1)
            &&& f.ack == (p[t + 13] / 16 % 2 == 1)
            &&& f.urg == (p[t + 13] / 32 % 2 == 1)
            &&& f.ece == (p[t + 13] / 64 % 2 == 1)
            &&& f.cwr == (p[t + 13] / 128 % 2 == 1)
        }),
{
    let t = span.start as int;
    let h = header_at(p, span);
    lemma_be_2(h.subrange(0, 2));
    lemma_be_2(h.subrange(2, 4));
    lemma_be_4(h.subrange(4, 8));
    lemma_be_4(h.subrange(8, 12));
    assert(h[12] == p[t + 12]);
    assert(h[13] == p[t + 13]);
}

proof fn lemma_addresses_by_bytes(p: Seq<u8>)
    requires
        p.len() >= 20,
        p[0] / 16 != 4 ==> p.len() >= 40,
    ensures
        p[0] / 16 == 4 ==> (ip_source(p) matches IpAddr::V4(a) && a == p[12] * 0x100_0000 + p[13]
            * 0x1_0000 + p[14] * 0x100 + p[15]),
        p[0] / 16 == 4 ==> (ip_destination(p) matches IpAddr::V4(a) && a == p[16] * 0x100_0000
            + p[17] * 0x1_0000 + p[18] * 0x100 + p[19]),
        p[0] / 16 != 4 ==> (ip_source(p) matches IpAddr::V6(a) && a == be_value(
            p.subrange(8, 24),
        )),
        p[0] / 16 != 4 ==> (ip_destination(p) matches IpAddr::V6(a) && a == be_value(
            p.subrange(24, 40),
        )),
{
    lemma_be_4(p.subrange(12, 16));
    lemma_be_4(p.subrange(16, 20));
    if p[0] / 16 != 4 {
        lemma_be_16_bound(p.subrange(8, 24));
        lemma_be_16_bound(p.subrange(24, 40));
    }
}

proof fn lemma_be_16_bound(s: Seq<u8>)
    requires
        s.len() == 16,
    ensures
        be_value(s) <= u128::MAX,
{
    lemma_be_bound(s);
    vstd::arithmetic::power2::lemma2_to64();
    vstd::arithmetic::power2::lemma_pow2_adds(32, 32);
    vstd::arithmetic::power2::lemma_pow2_adds(64, 64);
}

/// Whether the bytes of two packets of one IP version say that the one goes
/// from where the other goes to, and back, ports included.
pub open spec fn goes_back(p: Seq<u8>, span: SegmentSpan, q: Seq<u8>, back: SegmentSpan) -> bool {
    let s = span.start as int;
    let t = back.start as int;
    &&& p[0] / 16 == q[0] / 16
    &&& p[0] / 16 == 4 ==> q.subrange(12, 16) == p.subrange(16, 20) && q.subrange(16, 20)
        == p.subrange(12, 16)
    &&& p[0] / 16 == 6 ==> q.subrange(8, 24) == p.subrange(24, 40) && q.subrange(24, 40)
        == p.subrange(8, 24)
    &&& q[t] == p[s + 2] && q[t + 1] == p[s + 3]
    &&& q[t + 2] == p[s] && q[t + 3] == p[s + 1]
}

/// A connection that is refused right after its SYN is refused for the stack:
/// where a SYN was sent, with whatever options, and a reset (RST and ACK and
/// no other flag) comes back that acknowledges the SYN's own sequence number,
/// the stack gets to see the reset with the next number. Nothing else of its
/// payload, ports, addresses or lengths changes, and one SYN is forgotten.
pub proof fn law_refused_connection_is_seen(
    syns: Seq<SynFingerprint>,
    p: Seq<u8>,
    span: SegmentSpan,
    q: Seq<u8>,
    back: SegmentSpan,
)
    requires
        span_of(p, span),
        p[span.start + 13] / 2 % 2 == 1,
        p[span.start + 13] / 4 % 2 == 0,
        p[span.start + 13] / 16 % 2 == 0,
        span_of(q, back),
        back.start == ip_header_len(q),
        goes_back(p, span, q, back),
        q[back.start + 12] % 2 == 0,
        q[back.start + 13] == 20,
        q.subrange(back.start + 8, back.start + 12) == p.subrange(span.start + 4, span.start + 8),
    ensures
        ({
            let s = span.start as int;
            let t = back.start as int;
            let known = syns_after_outbound(syns, p, Some(span));
            let out = normalized(known, q, Some(back));
            let number = p[s + 4] * 0x100_0000 + p[s + 5] * 0x1_0000 + p[s + 6] * 0x100 + p[s + 7];
            &&& out.len() == q.len()
            &&& out[t + 8] * 0x100_0000 + out[t + 9] * 0x1_0000 + out[t + 10] * 0x100 + out[t + 11]
                == (number + 1) % 0x1_0000_0000
            &&& forall|i: int|
                0 <= i < q.len() && i != 6 && i != 10 && i != 11 && !(t + 8 <= i <= t + 12) && i
                    != t + 16 && i != t + 17 ==> #[trigger] out[i] == q[i]
            &&& syns_after_inbound(known, q, Some(back)).len() == known.len() - 1
        }),
{
    let s = span.start as int;
    let t = back.start as int;
    let known = syns_after_outbound(syns, p, Some(span));
    let i = known.len() - 1;
    law_syn_is_remembered_by_its_bytes(syns, p, span);
    lemma_fields_by_bytes(p, span);
    lemma_fields_by_bytes(q, back);
    lemma_addresses_by_bytes(p);
    lemma_addresses_by_bytes(q);
    let f = tcp_fields_of(header_at(q, back));
    let c = q.subrange(t + 8, t + 12);
    let d = p.subrange(s + 4, s + 8);
    assert(c[0] == d[0] && c[1] == d[1] && c[2] == d[2] && c[3] == d[3]);
    assert(known[i] == known.last());
    assert(known[i].src == ip_source(p) && known[i].dst == ip_destination(p));
    assert(answers(known[i], q, f)) by {
        if p[0] / 16 == 4 {
            let a = q.subrange(12, 16);
            let b = q.subrange(16, 20);
            assert(a == p.subrange(16, 20) && b == p.subrange(12, 16));
        }
    }
    law_reset_acknowledges_syn(known, i, q, back);
    lemma_first_answered(known, q, f, 0, i);
    let out = normalized(known, q, Some(back));
    lemma_raised_lens(q, back);
    assert(out == ack_raised(q, back));
    assert(header_at(out, back) =~= raised_tcp_header(q, back));
    lemma_be_4(header_at(out, back).subrange(8, 12));
    lemma_ack_raised_keeps(q, back);
}

proof fn lemma_ack_raised_keeps(q: Seq<u8>, back: SegmentSpan)
    requires
        span_of(q, back),
        back.start == ip_header_len(q),
    ensures
        ({
            let t = back.start as int;
            let out = ack_raised(q, back);
            forall|i: int|
                0 <= i < q.len() && i != 6 && i != 10 && i != 11 && !(t + 8 <= i <= t + 12) && i
                    != t + 16 && i != t + 17 ==> #[trigger] out[i] == q[i]
        }),
{
    let t = back.start as int;
    let out = ack_raised(q, back);
    let n = ip_header_len(q) as int;
    lemma_raised_lens(q, back);
    let ip = written_ip_header(q);
    let tcp = raised_tcp_header(q, back);
    let h = header_at(q, back);
    assert forall|i: int|
        0 <= i < q.len() && i != 6 && i != 10 && i != 11 && !(t + 8 <= i <= t + 12) && i != t + 16
            && i != t + 17 implies #[trigger] out[i] == q[i] by {
        if i < n {
            assert(out[i] == ip[i]);
            assert(ip[i] == q.take(n)[i]);
        } else if i < n + back.header_len {
            assert(out[i] == tcp[i - n]);
            assert(tcp[i - n] == h[i - n]);
        } else {
            assert(out[i] == q.skip(n + back.header_len)[i - n - back.header_len]);
        }
    }
}

/// What answers a SYN is undone once: after a reset has been repaired, the
/// same reset passes as it came unless another SYN like it is remembered.
pub proof fn law_reset_is_repaired_once(
    syns: Seq<SynFingerprint>,
    i: int,
    q: Seq<u8>,
    back: SegmentSpan,
)
    requires
        0 <= i < syns.len(),
        answers(syns[i], q, tcp_fields_of(header_at(q, back))),
        is_reset_ack(tcp_fields_of(header_at(q, back))),
        forall|k: int|
            0 <= k < syns.len() && k != i ==> !answers(
                #[trigger] syns[k],
                q,
                tcp_fields_of(header_at(q, back)),
            ),
    ensures
        syns_after_inbound(syns, q, Some(back)) == syns.remove(i),
        normalized(syns_after_inbound(syns, q, Some(back)), q, Some(back)) == q,
{
    let f = tcp_fields_of(header_at(q, back));
    lemma_first_answered(syns, q, f, 0, i);
    let left = syns.remove(i);
    assert forall|k: int| 0 <= k < left.len() implies !answers(#[trigger] left[k], q, f) by {
        if k < i {
            assert(left[k] == syns[k]);
        } else {
            assert(left[k] == syns[k + 1]);
        }
    }
    law_other_packets_pass(left, q, Some(back));
}

/// A reset is left alone where it has another flag set, lacks RST or ACK, or
/// acknowledges another number than those of the SYNs remembered.
pub proof fn law_other_segments_pass(syns: Seq<SynFingerprint>, q: Seq<u8>, back: SegmentSpan)
    requires
        span_of(q, back),
        q[back.start + 13] != 20 || q[back.start + 12] % 2 == 1 || forall|k: int|
            0 <= k < syns.len() ==> (#[trigger] syns[k]).seq != q[back.start + 8] * 0x100_0000
                + q[back.start + 9] * 0x1_0000 + q[back.start + 10] * 0x100 + q[back.start + 11],
    ensures
        normalized(syns, q, Some(back)) == q,
        syns_after_inbound(syns, q, Some(back)) == syns,
        normalized(syns, q, None) == q,
        syns_after_inbound(syns, q, None) == syns,
{
    lemma_fields_by_bytes(q, back);
    let b = q[back.start + 13];
    if is_reset_ack(tcp_fields_of(header_at(q, back))) {
        assert(b == 20);
    }
    law_other_packets_pass(syns, q, Some(back));
}

/// The segment of a complete IPv4 packet of TCP that is no fragment and has no
/// authentication header lies behind the header and ends with the packet, as
/// the length fields say; a fragment, and a packet of another protocol, has
/// none.
pub proof fn law_ipv4_segment_by_bytes(p: Seq<u8>)
    requires
        20 <= p.len() <= usize::MAX,
        p[0] / 16 == 4,
        p[0] % 16 >= 5,
        p[0] % 16 * 4 <= p[2] * 256 + p[3] <= p.len(),
        p[9] != 51,
    ensures
        ({
            let t = p[0] % 16 * 4;
            let end = p[2] * 256 + p[3];
            &&& is_plain(p)
            &&& p[9] != 6 || p[6] % 64 != 0 || p[7] != 0 ==> plain_segment(p) is None
            &&& p[9] == 6 && p[6] % 64 == 0 && p[7] == 0 && t + 20 <= end && p[t + 12] >= 80 && t
                + p[t + 12] / 16 * 4 <= end ==> (plain_segment(p) matches Some(span) && span.start
                == t && span.header_len == p[t + 12] / 16 * 4 && span.end == end)
        }),
{
}

/// The segment of a complete IPv6 packet whose next header is TCP lies behind
/// the forty bytes of the header and ends where the payload length says, or
/// with the packet where that is zero.
pub proof fn law_ipv6_segment_by_bytes(p: Seq<u8>)
    requires
        60 <= p.len() <= usize::MAX,
        p[0] / 16 == 6,
        p[6] == 6,
        p[52] >= 80,
    ensures
        ({
            let len = p[4] * 256 + p[5];
            let header_len = p[52] / 16 * 4;
            &&& is_plain(p)
            &&& len > 0 && header_len <= len && 40 + len <= p.len() ==> (plain_segment(
                p,
            ) matches Some(span) && span.start == 40 && span.header_len == header_len && span.end
                == 40 + len)
            &&& len == 0 && 40 + header_len <= p.len() ==> (plain_segment(p) matches Some(span)
                && span.start == 40 && span.header_len == header_len && span.end == p.len())
            &&& 40 + len > p.len() ==> plain_segment(p) is None
        }),
{
    assert(p.skip(40)[12] == p[52]);
}

/// Of several SYNs that a reset answers, the oldest is forgotten.
pub proof fn law_oldest_answered_syn_is_forgotten(
    syns: Seq<SynFingerprint>,
    i: int,
    q: Seq<u8>,
    back: SegmentSpan,
)
    requires
        0 <= i < syns.len(),
        answers(syns[i], q, tcp_fields_of(header_at(q, back))),
        is_reset_ack(tcp_fields_of(header_at(q, back))),
        forall|k: int|
            0 <= k < i ==> !answers(#[trigger] syns[k], q, tcp_fields_of(header_at(q, back))),
    ensures
        syns_after_inbound(syns, q, Some(back)) == syns.remove(i),
{
    lemma_first_answered(syns, q, tcp_fields_of(header_at(q, back)), 0, i);
}

/// Sixteen SYNs are remembered: with fewer at hand none is forgotten, and with
/// sixteen the oldest is.
pub proof fn law_sixteen_syns_are_remembered(
    syns: Seq<SynFingerprint>,
    p: Seq<u8>,
    span: SegmentSpan,
    syn: SynFingerprint,
)
    requires
        sent_syn(p, Some(span)) == Some(syn),
    ensures
        syns.len() < 16 ==> syns_after_outbound(syns, p, Some(span)) == syns.push(syn),
        syns.len() == 16 ==> syns_after_outbound(syns, p, Some(span)) == syns.skip(1).push(syn),
        DEVICE_MTU == 1280,
{
}

} // verus!
