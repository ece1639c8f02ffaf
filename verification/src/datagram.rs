//! IP packets on their way into and out of HTTP datagrams.

use vstd::arithmetic::power2::{
    lemma2_to64, lemma2_to64_rest, lemma_pow2_adds, lemma_pow2_pos, lemma_pow2_strictly_increases,
    pow2,
};
use vstd::prelude::*;
use vstd::string::*;

use bytes::{Bytes, BytesMut};

use crate::buffer::{bytes_as_slice, bytes_mut_view, bytes_slice, bytes_view};
use crate::capsule::{capsule_bytes, put_capsule, put_varint, varint_bytes, CAPSULE_CONNECT_IP_DATA};
use crate::text::{decimal, decimal_text};

verus! {

/// The datagram context of whole IP packets.
pub const CONTEXT_ID: u64 = 0;

/// Why a packet cannot be passed on with one hop less.
pub enum TtlError {
    /// There is no packet.
    Empty,
    /// The packet does not parse as IPv4, with the parser's reason.
    MalformedIpv4(String),
    /// The IPv4 packet may take no further hop.
    TtlTooSmall(u8),
    /// The packet is shorter than an IPv6 header.
    Ipv6TooShort,
    /// The IPv6 packet may take no further hop.
    HopLimitTooSmall(u8),
    /// The packet is neither IPv4 nor IPv6.
    UnknownVersion(u8),
}

/// The sum of the big-endian 16-bit words of `s`, whose length is even.
pub open spec fn word_sum(s: Seq<u8>) -> nat
    decreases s.len(),
{
    if s.len() < 2 {
        0
    } else {
        word_sum(s.take(s.len() - 2)) + s[s.len() - 2] as nat * 256 + s[s.len() - 1] as nat
    }
}

/// The Internet checksum (RFC 1071) over words of which one at least is not
/// zero: the complement of their ones' complement sum.
pub open spec fn internet_checksum(s: Seq<u8>) -> nat {
    (65534 - (word_sum(s) - 1) % 65535) as nat
}

/// An IPv4 header as it is written back: the reserved flag cleared, and the
/// checksum computed over the header without its checksum field.
pub open spec fn ipv4_header_written(h: Seq<u8>) -> Seq<u8> {
    let cleared = h.update(6, (h[6] % 128) as u8).update(10, 0).update(11, 0);
    let checksum = internet_checksum(cleared);
    cleared.update(10, (checksum / 256) as u8).update(11, (checksum % 256) as u8)
}

/// The header length that the first byte of an IPv4 packet gives.
pub open spec fn ipv4_header_len(p: Seq<u8>) -> nat {
    (p[0] % 16) as nat * 4
}

/// The total length field of an IPv4 header.
pub open spec fn ipv4_total_len(p: Seq<u8>) -> nat {
    p[2] as nat * 256 + p[3] as nat
}

/// Whether an authentication header (RFC 4302) is complete at the start of `s`.
pub open spec fn auth_header_complete(s: Seq<u8>) -> bool {
    s.len() >= 12 && s[1] >= 1 && s.len() >= (s[1] + 2) * 4
}

/// Whether a packet of IP version 4 is complete: a header of a legal length, a
/// total length that covers it and fits, and behind it, where the protocol
/// says so, a complete authentication header.
pub open spec fn ipv4_complete(p: Seq<u8>) -> bool {
    let header_len = ipv4_header_len(p);
    let total_len = ipv4_total_len(p);
    &&& p.len() >= 20
    &&& header_len >= 20
    &&& header_len <= total_len <= p.len()
    &&& p[9] == 51 ==> auth_header_complete(p.subrange(header_len as int, total_len as int))
}

/// The reason that the parser gives for a packet that is not complete.
pub uninterp spec fn ipv4_parse_reason(packet: Seq<u8>) -> Seq<char>;

/// `etherparse::IpHeaders::from_slice` on a packet of IP version 4. It
/// succeeds where the packet is complete in the sense of `ipv4_complete`, and
/// the header then has the time to live of byte 8 and the length that the
/// first byte gives. What the reason for a failure says is left unsaid.
#[verifier::external_body]
fn parse_ipv4(packet: &[u8]) -> (r: Result<(u8, usize), String>)
    requires
        packet@.len() > 0,
        packet@[0] / 16 == 4,
    ensures
        match r {
            Ok((ttl, header_len)) => ipv4_complete(packet@) && ttl == packet@[8] && header_len
                == ipv4_header_len(packet@),
            Err(reason) => !ipv4_complete(packet@) && reason@ == ipv4_parse_reason(packet@),
        },
{
    match etherparse::IpHeaders::from_slice(packet) {
        Ok((etherparse::IpHeaders::Ipv4(header, _), _)) => Ok(
            (header.time_to_live, header.header_len()),
        ),
        Ok((etherparse::IpHeaders::Ipv6(_, _), _)) => Err(String::new()),
        Err(err) => Err(err.to_string()),
    }
}

/// `etherparse::Ipv4Header::write` on the header that
/// `etherparse::Ipv4Header::from_slice` reads from `header`. All fields are
/// written as they were read, but for the reserved flag, which is always
/// written as zero, and the checksum, which is computed anew.
#[verifier::external_body]
pub(crate) fn rewrite_ipv4_header(header: &[u8]) -> (out: Vec<u8>)
    requires
        header@.len() >= 20,
        header@[0] / 16 == 4,
        header@.len() == ipv4_header_len(header@),
    ensures
        out@ == ipv4_header_written(header@),
{
    let mut out = Vec::with_capacity(header.len());
    if let Ok((parsed, _)) = etherparse::Ipv4Header::from_slice(header) {
        let _ = parsed.write(&mut out);
    }
    out
}

/// Why a packet may not be passed on, if it may not.
pub open spec fn ttl_error_text(p: Seq<u8>) -> Option<Seq<char>> {
    if p.len() == 0 {
        Some("empty IP packet"@)
    } else if p[0] / 16 == 4 {
        if !ipv4_complete(p) {
            Some("failed to parse IPv4 packet: "@ + ipv4_parse_reason(p))
        } else if p[8] <= 1 {
            Some("IPv4 TTL too small: "@ + decimal_text(p[8] as nat))
        } else {
            None
        }
    } else if p[0] / 16 == 6 {
        if p.len() < 40 {
            Some("IPv6 packet too short"@)
        } else if p[7] <= 1 {
            Some("IPv6 hop limit too small: "@ + decimal_text(p[7] as nat))
        } else {
            None
        }
    } else {
        Some("unknown IP version: "@ + decimal_text((p[0] / 16) as nat))
    }
}

/// A packet after one hop: the time to live of IPv4, with the header's
/// checksum, or the hop limit of IPv6 is one less.
pub open spec fn after_hop(p: Seq<u8>) -> Seq<u8> {
    if p[0] / 16 == 4 {
        let n = ipv4_header_len(p) as int;
        ipv4_header_written(p.take(n).update(8, (p[8] - 1) as u8)) + p.skip(n)
    } else {
        p.update(7, (p[7] - 1) as u8)
    }
}

impl TtlError {
    /// The message that the error stands for.
    pub open spec fn text(&self) -> Seq<char> {
        match self {
            TtlError::Empty => "empty IP packet"@,
            TtlError::MalformedIpv4(reason) => "failed to parse IPv4 packet: "@ + reason@,
            TtlError::TtlTooSmall(ttl) => "IPv4 TTL too small: "@ + decimal_text(*ttl as nat),
            TtlError::Ipv6TooShort => "IPv6 packet too short"@,
            TtlError::HopLimitTooSmall(hop) => "IPv6 hop limit too small: "@ + decimal_text(
                *hop as nat,
            ),
            TtlError::UnknownVersion(version) => "unknown IP version: "@ + decimal_text(
                *version as nat,
            ),
        }
    }

    /// Writes the error as a message.
    pub fn message(&self) -> (out: String)
        ensures
            out@ == self.text(),
    {
        match self {
            TtlError::Empty => "empty IP packet".to_owned(),
            TtlError::MalformedIpv4(reason) => "failed to parse IPv4 packet: ".to_owned().concat(
                reason.as_str(),
            ),
            TtlError::TtlTooSmall(ttl) => "IPv4 TTL too small: ".to_owned().concat(
                decimal(*ttl as u64).as_str(),
            ),
            TtlError::Ipv6TooShort => "IPv6 packet too short".to_owned(),
            TtlError::HopLimitTooSmall(hop) => "IPv6 hop limit too small: ".to_owned().concat(
                decimal(*hop as u64).as_str(),
            ),
            TtlError::UnknownVersion(version) => "unknown IP version: ".to_owned().concat(
                decimal(*version as u64).as_str(),
            ),
        }
    }
}

/// Decrements the time to live or the hop limit of an IP packet in place. A
/// packet that is refused is left as it was.
pub fn decrement_ttl(packet: &mut [u8]) -> (r: Result<(), TtlError>)
    ensures
        match r {
            Ok(()) => ttl_error_text(old(packet)@) is None && final(packet)@ == after_hop(
                old(packet)@,
            ),
            Err(err) => ttl_error_text(old(packet)@) == Some(err.text()) && final(packet)@ == old(
                packet,
            )@,
        },
        r matches Err(err) ==> match err {
            TtlError::Empty => old(packet)@.len() == 0,
            TtlError::MalformedIpv4(_) => old(packet)@.len() > 0 && old(packet)@[0] / 16 == 4
                && !ipv4_complete(old(packet)@),
            TtlError::TtlTooSmall(ttl) => old(packet)@[0] / 16 == 4 && ttl == old(packet)@[8] && ttl
                <= 1,
            TtlError::Ipv6TooShort => old(packet)@[0] / 16 == 6 && old(packet)@.len() < 40,
            TtlError::HopLimitTooSmall(hop) => old(packet)@[0] / 16 == 6 && hop == old(packet)@[7]
                && hop <= 1,
            TtlError::UnknownVersion(version) => version == old(packet)@[0] / 16 && version != 4
                && version != 6,
        },
        old(packet)@.len() > 0 && old(packet)@[0] / 16 == 4 && ipv4_complete(old(packet)@)
            && old(packet)@[8] >= 2 ==> r is Ok && final(packet)@[8] == old(packet)@[8] - 1,
        old(packet)@.len() >= 40 && old(packet)@[0] / 16 == 6 && old(packet)@[7] >= 2 ==> r is Ok
            && final(packet)@[7] == old(packet)@[7] - 1,
        final(packet)@.len() == old(packet)@.len(),
{
    if packet.len() == 0 {
        return Err(TtlError::Empty);
    }
    let version: u8 = packet[0] / 16;
    if version == 4 {
        let (ttl, header_len) = match parse_ipv4(packet) {
            Ok(found) => found,
            Err(reason) => {
                return Err(TtlError::MalformedIpv4(reason));
            },
        };
        if ttl <= 1 {
            return Err(TtlError::TtlTooSmall(ttl));
        }
        let ghost before = packet@;
        let mut header: Vec<u8> = vstd::slice::slice_to_vec(
            vstd::slice::slice_subrange(packet, 0, header_len),
        );
        header[8] = ttl - 1;
        assert(header@ =~= before.take(header_len as int).update(8, (before[8] - 1) as u8));
        let written = rewrite_ipv4_header(header.as_slice());
        let mut i: usize = 0;
        while i < header_len
            invariant
                i <= header_len == written@.len() <= before.len(),
                packet@ =~= written@.take(i as int) + before.skip(i as int),
            decreases header_len - i,
        {
            packet[i] = written[i];
            i = i + 1;
        }
        assert(packet@ =~= after_hop(before));
        Ok(())
    } else if version == 6 {
        if packet.len() < 40 {
            return Err(TtlError::Ipv6TooShort);
        }
        let hop: u8 = packet[7];
        if hop <= 1 {
            return Err(TtlError::HopLimitTooSmall(hop));
        }
        packet[7] = hop - 1;
        Ok(())
    } else {
        Err(TtlError::UnknownVersion(version))
    }
}

/// Appends a packet as an HTTP/3 datagram payload: the context identifier and
/// the packet behind it. The caller has decremented the hop count already.
pub fn encode_h3_datagram_payload_into(packet: &[u8], out: &mut BytesMut)
    requires
        bytes_mut_view(*old(out)).len() + 8 + packet@.len() <= isize::MAX,
    ensures
        bytes_mut_view(*final(out)) == bytes_mut_view(*old(out)) + h3_payload(packet@),
{
    put_varint(out, CONTEXT_ID);
    out.extend_from_slice(packet);
    assert(bytes_mut_view(*out) =~= bytes_mut_view(*old(out)) + h3_payload(packet@));
}

/// Appends a packet as a DATA capsule, the HTTP/2 form of a datagram. The
/// caller has decremented the hop count already.
pub fn encode_h2_datagram_capsule_into(packet: &[u8], out: &mut BytesMut)
    requires
        bytes_mut_view(*old(out)).len() + 16 + packet@.len() <= isize::MAX,
    ensures
        bytes_mut_view(*final(out)) == bytes_mut_view(*old(out)) + capsule_bytes(
            CAPSULE_CONNECT_IP_DATA,
            packet@,
        ),
{
    put_capsule(out, CAPSULE_CONNECT_IP_DATA, packet);
}

/// The HTTP/3 datagram payload that carries a packet.
pub open spec fn h3_payload(packet: Seq<u8>) -> Seq<u8> {
    varint_bytes(CONTEXT_ID) + packet
}

/// The number whose 7-bit groups, least significant first, are the low bits
/// of the bytes of `s`.
pub open spec fn group_value(s: Seq<u8>) -> nat
    decreases s.len(),
{
    if s.len() == 0 {
        0
    } else {
        group_value(s.drop_last()) + (s.last() % 128) as nat * pow2((7 * (s.len() - 1)) as nat)
    }
}

/// The number of bytes up to and including the first one below 128.
pub open spec fn group_len(s: Seq<u8>) -> nat
    decreases s.len(),
{
    if s.len() == 0 || s[0] < 128 {
        1
    } else {
        1 + group_len(s.drop_first())
    }
}

/// The identifier that a datagram payload starts with and the number of bytes
/// it takes: 7-bit groups, least significant first, up to the first byte
/// without the continuation bit, which is one of the first ten. What does not
/// fit in 64 bits is dropped.
pub open spec fn context_prefix(s: Seq<u8>) -> Option<(nat, nat)> {
    let n = group_len(s);
    if n <= s.len() && n <= 10 {
        Some((group_value(s.take(n as int)) % 0x1_0000_0000_0000_0000, n))
    } else {
        None
    }
}

/// The packet in a datagram payload: what follows the identifier of the
/// context of whole packets, if there is anything.
pub open spec fn h3_packet(s: Seq<u8>) -> Option<Seq<u8>> {
    match context_prefix(s) {
        Some((context, n)) => if context == CONTEXT_ID && n < s.len() {
            Some(s.skip(n as int))
        } else {
            None
        },
        None => None,
    }
}

proof fn lemma_group_value_bound(s: Seq<u8>)
    ensures
        group_value(s) < pow2((7 * s.len()) as nat),
    decreases s.len(),
{
    if s.len() == 0 {
        lemma2_to64();
    } else {
        let k = (7 * (s.len() - 1)) as nat;
        lemma_group_value_bound(s.drop_last());
        lemma_pow2_adds(k, 7);
        lemma2_to64();
        let d = (s.last() % 128) as nat;
        assert(d * pow2(k) <= 127 * pow2(k)) by (nonlinear_arith)
            requires
                d <= 127,
        ;
    }
}

proof fn lemma_group_len_step(s: Seq<u8>, i: int)
    requires
        0 <= i < s.len(),
        forall|j: int| 0 <= j < i ==> #[trigger] s[j] >= 128,
    ensures
        s[i] < 128 ==> group_len(s) == i + 1,
        s[i] >= 128 ==> group_len(s) > i + 1,
    decreases i,
{
    if i > 0 {
        let t = s.drop_first();
        assert forall|j: int| 0 <= j < i - 1 implies #[trigger] t[j] >= 128 by {
            assert(t[j] == s[j + 1]);
        }
        assert(s[0] >= 128);
        lemma_group_len_step(t, i - 1);
    } else if s[0] >= 128 {
        let t = s.drop_first();
        assert(group_len(t) >= 1);
    }
}

proof fn lemma_group_len_all(s: Seq<u8>)
    requires
        forall|j: int| 0 <= j < s.len() ==> #[trigger] s[j] >= 128,
    ensures
        group_len(s) == s.len() + 1,
    decreases s.len(),
{
    if s.len() > 0 {
        let t = s.drop_first();
        assert forall|j: int| 0 <= j < t.len() implies #[trigger] t[j] >= 128 by {
            assert(t[j] == s[j + 1]);
        }
        assert(s[0] >= 128);
        lemma_group_len_all(t);
    }
}

/// Reads the context identifier of a datagram payload.
fn decode_context(data: &Bytes) -> (r: Option<(u64, usize)>)
    ensures
        r is Some <==> context_prefix(bytes_view(*data)) is Some,
        r matches Some((value, n)) ==> context_prefix(bytes_view(*data)) == Some(
            (value as nat, n as nat),
        ),
{
    let bytes = bytes_as_slice(data);
    let ghost s = bytes@;
    let mut value: u64 = 0;
    let mut shift: u32 = 0;
    let mut i: usize = 0;
    assert(s.take(0) =~= Seq::<u8>::empty());
    while i < bytes.len()
        invariant
            bytes@ == s,
            s == bytes_view(*data),
            i <= s.len(),
            shift == 7 * i,
            i <= 9,
            value == group_value(s.take(i as int)),
            forall|j: int| 0 <= j < i ==> #[trigger] s[j] >= 128,
        decreases s.len() - i,
    {
        let byte: u8 = bytes[i];
        let group: u64 = (byte % 128) as u64;
        proof {
            let sofar = s.take(i as int);
            assert(s.take(i + 1).drop_last() =~= sofar);
            assert(s.take(i + 1).last() == byte);
            lemma_group_value_bound(sofar);
            lemma_group_step(value, group, shift);
            lemma_group_len_step(s, i as int);
        }
        value = value | (group << shift);
        if byte < 128 {
            return Some((value, i + 1));
        }
        if i == 9 {
            return None;
        }
        proof {
            lemma_group_value_bound(s.take(i + 1));
            lemma_pow2_small((7 * (i + 1)) as nat);
        }
        shift = shift + 7;
        i = i + 1;
    }
    proof {
        lemma_group_len_all(s);
    }
    None
}

proof fn lemma_pow2_small(k: nat)
    requires
        k <= 63,
    ensures
        pow2(k) <= 0x8000_0000_0000_0000,
{
    lemma2_to64_rest();
    if k < 63 {
        lemma_pow2_strictly_increases(k, 63);
    }
}

/// Putting a 7-bit group on top of the groups read so far.
proof fn lemma_group_step(value: u64, group: u64, shift: u32)
    requires
        value < pow2(shift as nat),
        group < 128,
        shift <= 63,
        shift % 7 == 0,
    ensures
        (value | (group << shift)) == (value + group * pow2(shift as nat)) % 0x1_0000_0000_0000_0000,
        shift < 63 ==> (value | (group << shift)) == value + group * pow2(shift as nat),
{
    lemma2_to64();
    lemma2_to64_rest();
    if shift == 63 {
        assert((value | (group << 63u32)) == value + (group % 2) * 0x8000_0000_0000_0000)
            by (bit_vector)
            requires
                value < 0x8000_0000_0000_0000,
        ;
    } else {
        let s = shift as nat;
        vstd::bits::lemma_u64_pow2_no_overflow(s);
        lemma_pow2_adds(s, 7);
        lemma_pow2_small(s + 7);
        assert(group * pow2(s) <= 127 * pow2(s)) by (nonlinear_arith)
            requires
                group <= 127,
        ;
        vstd::bits::lemma_u64_shl_is_mul(group, shift as u64);
        vstd::bits::lemma_u64_shl_is_mul(1, shift as u64);
        assert((group << shift) == (group << (shift as u64)));
        assert((1u64 << shift) == (1u64 << (shift as u64)));
        assert((value | (group << shift)) == value + (group << shift)) by (bit_vector)
            requires
                value < (1u64 << shift),
                shift <= 56,
                group < 128,
        ;
    }
}

/// Takes the packet out of a datagram payload, from which the stream
/// identifier has been stripped. The packet shares the payload's memory.
pub fn decode_h3_datagram_payload_owned(data: &Bytes) -> (r: Option<Bytes>)
    ensures
        r is Some <==> h3_packet(bytes_view(*data)) is Some,
        r matches Some(b) ==> h3_packet(bytes_view(*data)) == Some(bytes_view(b)),
{
    let (context, n) = match decode_context(data) {
        Some(found) => found,
        None => {
            return None;
        },
    };
    if context != CONTEXT_ID {
        return None;
    }
    let payload = bytes_slice(data, n, data.len());
    if payload.is_empty() {
        return None;
    }
    assert(bytes_view(*data).subrange(n as int, bytes_view(*data).len() as int) =~= bytes_view(
        *data,
    ).skip(n as int));
    Some(payload)
}

/// A packet that was put into a datagram payload, behind a single zero byte,
/// comes out again from behind that byte. (An empty packet does not: a payload
/// without a packet is dropped.)
pub proof fn law_h3_roundtrip(packet: Seq<u8>)
    requires
        packet.len() > 0,
    ensures
        h3_payload(packet) == seq![0u8] + packet,
        context_prefix(h3_payload(packet)) == Some((CONTEXT_ID as nat, 1nat)),
        h3_packet(h3_payload(packet)) == Some(packet),
{
    let s = h3_payload(packet);
    assert(s[0] == 0u8);
    assert(s.take(1) =~= seq![0u8]);
    assert(s.take(1).drop_last() =~= Seq::<u8>::empty());
    assert(group_value(s.take(1)) == 0) by {
        reveal_with_fuel(group_value, 2);
    }
    assert(s.skip(1) =~= packet);
}

proof fn lemma_word_sum_update(s: Seq<u8>, i: int, b: u8)
    requires
        0 <= i < s.len(),
        s.len() % 2 == 0,
    ensures
        word_sum(s.update(i, b)) == word_sum(s) + (b - s[i]) * (if i % 2 == 0 {
            256int
        } else {
            1int
        }),
    decreases s.len(),
{
    let n = s.len() - 2;
    if i < n {
        lemma_word_sum_update(s.take(n), i, b);
        assert(s.update(i, b).take(n) =~= s.take(n).update(i, b));
    } else {
        assert(s.update(i, b).take(n) =~= s.take(n));
    }
}

/// After a hop the checksum of an IPv4 header is right whatever it was
/// before: the ones' complement sum of the header's words is zero.
pub proof fn law_hop_gives_valid_checksum(p: Seq<u8>)
    requires
        p.len() > 0,
        p[0] / 16 == 4,
        ttl_error_text(p) is None,
    ensures
        word_sum(after_hop(p).take(ipv4_header_len(p) as int)) % 65535 == 0,
{
    let n = ipv4_header_len(p) as int;
    let h = p.take(n).update(8, (p[8] - 1) as u8);
    let cleared = h.update(6, (h[6] % 128) as u8).update(10, 0).update(11, 0);
    let c = internet_checksum(cleared);
    lemma_word_sum_ge(cleared, 0);
    lemma_checksum_fills(cleared, 10);
    assert(after_hop(p).take(n) =~= cleared.update(10, (c / 256) as u8).update(
        11,
        (c % 256) as u8,
    ));
}

/// Every word adds to the sum.
pub proof fn lemma_word_sum_ge(s: Seq<u8>, i: int)
    requires
        0 <= i,
        i + 1 < s.len(),
        i % 2 == 0,
        s.len() % 2 == 0,
    ensures
        word_sum(s) >= s[i] * 256 + s[i + 1],
    decreases s.len(),
{
    if i + 2 < s.len() {
        lemma_word_sum_ge(s.take(s.len() - 2), i);
    }
}

/// With the checksum of words put in the place of a zero word, the ones'
/// complement sum is zero.
pub proof fn lemma_checksum_fills(s: Seq<u8>, i: int)
    requires
        0 <= i,
        i + 1 < s.len(),
        i % 2 == 0,
        s.len() % 2 == 0,
        s[i] == 0,
        s[i + 1] == 0,
        word_sum(s) > 0,
    ensures
        word_sum(
            s.update(i, (internet_checksum(s) / 256) as u8).update(
                i + 1,
                (internet_checksum(s) % 256) as u8,
            ),
        ) % 65535 == 0,
{
    let sum = word_sum(s);
    let c = internet_checksum(s);
    let hi = (c / 256) as u8;
    let lo = (c % 256) as u8;
    lemma_word_sum_update(s, i, hi);
    lemma_word_sum_update(s.update(i, hi), i + 1, lo);
    let total = word_sum(s.update(i, hi).update(i + 1, lo));
    assert(total == sum + c);
    let q = (sum - 1) / 65535;
    assert(sum - 1 == 65535 * q + (sum - 1) % 65535) by {
        vstd::arithmetic::div_mod::lemma_fundamental_div_mod(sum - 1, 65535);
    }
    assert(total == 65535 * (q + 1));
    vstd::arithmetic::div_mod::lemma_mod_multiples_basic(q + 1, 65535);
}

/// A hop changes nothing of a packet but the hop count and, in IPv4, the
/// checksum and the reserved flag.
pub proof fn law_hop_keeps_the_rest(p: Seq<u8>, i: int)
    requires
        p.len() > 0,
        ttl_error_text(p) is None,
        0 <= i < p.len(),
    ensures
        after_hop(p).len() == p.len(),
        p[0] / 16 == 4 ==> after_hop(p)[8] == p[8] - 1,
        p[0] / 16 == 4 && i != 6 && i != 8 && i != 10 && i != 11 ==> after_hop(p)[i] == p[i],
        p[0] / 16 == 4 ==> after_hop(p)[6] % 128 == p[6] % 128,
        p[0] / 16 == 6 ==> after_hop(p)[7] == p[7] - 1,
        p[0] / 16 == 6 && i != 7 ==> after_hop(p)[i] == p[i],
{
}

/// An IPv4 packet without an authentication header is passed on exactly where
/// its lengths fit and its time to live is two or more, however large.
pub proof fn law_ipv4_hop_is_taken(p: Seq<u8>)
    requires
        p.len() >= 20,
        p[0] / 16 == 4,
        p[9] != 51,
    ensures
        ttl_error_text(p) is None <==> {
            &&& p[0] % 16 >= 5
            &&& p[0] % 16 * 4 <= p[2] * 256 + p[3] <= p.len()
            &&& p[8] >= 2
        },
{
}

/// A packet with an authentication header behind the IPv4 header is passed on
/// where that header is complete as well.
pub proof fn law_authenticated_hop_is_taken(p: Seq<u8>)
    requires
        p.len() >= 20,
        p[0] / 16 == 4,
        p[9] == 51,
        p[0] % 16 >= 5,
        p[0] % 16 * 4 <= p[2] * 256 + p[3] <= p.len(),
    ensures
        ttl_error_text(p) is None <==> {
            let at = p[0] % 16 * 4;
            let end = p[2] * 256 + p[3];
            &&& at + 12 <= end
            &&& p[at + 1] >= 1
            &&& at + (p[at + 1] + 2) * 4 <= end
            &&& p[8] >= 2
        },
{
    let at = p[0] % 16 * 4;
    let end = p[2] * 256 + p[3];
    let s = p.subrange(at as int, end as int);
    if s.len() >= 2 {
        assert(s[1] == p[at + 1]);
    }
}

/// An IPv6 packet is passed on exactly where its header is there and its hop
/// limit is two or more, however large.
pub proof fn law_ipv6_hop_is_taken(p: Seq<u8>)
    requires
        p.len() > 0,
        p[0] / 16 == 6,
    ensures
        ttl_error_text(p) is None <==> p.len() >= 40 && p[7] >= 2,
{
}

/// What is neither IPv4 nor IPv6 is never passed on, nor is an IPv4 packet
/// shorter than its header.
pub proof fn law_other_bytes_take_no_hop(p: Seq<u8>)
    requires
        p.len() == 0 || (p[0] / 16 != 4 && p[0] / 16 != 6) || (p[0] / 16 == 4 && p.len() < 20),
    ensures
        ttl_error_text(p) is Some,
{
}

/// A packet that may be passed on can take one hop fewer than its count says,
/// and then no more: after a hop it may be passed on again exactly where the
/// count was three or more.
pub proof fn law_hops_run_out(p: Seq<u8>)
    requires
        p.len() > 0,
        ttl_error_text(p) is None,
    ensures
        ttl_error_text(after_hop(p)) is None <==> (if p[0] / 16 == 4 {
            p[8] >= 3
        } else {
            p[7] >= 3
        }),
{
    let q = after_hop(p);
    law_hop_keeps_the_rest(p, 0);
    if p[0] / 16 == 4 {
        law_hop_keeps_the_rest(p, 2);
        law_hop_keeps_the_rest(p, 3);
        law_hop_keeps_the_rest(p, 9);
        let n = ipv4_header_len(p) as int;
        let end = ipv4_total_len(p) as int;
        assert(q.subrange(n, end) =~= p.subrange(n, end));
    }
}

/// Of a datagram payload that starts with a zero byte, the packet is all that
/// follows, if there is anything. One that starts with another context holds no
/// packet, and neither does an empty one.
pub proof fn law_only_the_first_context_holds_packets(s: Seq<u8>)
    ensures
        s.len() > 1 && s[0] == 0 ==> h3_packet(s) == Some(s.skip(1)),
        s.len() == 1 && s[0] == 0 ==> h3_packet(s) is None,
        s.len() > 0 && 0 < s[0] < 128 ==> h3_packet(s) is None,
        s.len() == 0 ==> h3_packet(s) is None,
{
    if s.len() > 0 && s[0] < 128 {
        assert(group_len(s) == 1);
        let t = s.take(1);
        assert(t.drop_last() =~= Seq::<u8>::empty());
        lemma2_to64();
        assert(group_value(t.drop_last()) == 0);
        assert(pow2(0) == 1);
        assert(group_value(t) == s[0] % 128) by {
            assert((s[0] % 128) as nat * pow2((7 * (t.len() - 1)) as nat) == s[0] % 128);
        }
    }
}

/// The context of whole packets may be written in more than one byte: bytes of
/// 128 and then one of zero, ten in all at most. The packet is what follows.
pub proof fn law_first_context_in_any_length(n: int, packet: Seq<u8>)
    requires
        1 <= n <= 10,
        packet.len() > 0,
    ensures
        h3_packet(Seq::new((n - 1) as nat, |i: int| 128u8) + seq![0u8] + packet) == Some(packet),
{
    let front = Seq::new((n - 1) as nat, |i: int| 128u8);
    let s = front + seq![0u8] + packet;
    assert forall|j: int| 0 <= j < n - 1 implies #[trigger] s[j] >= 128 by {
        assert(s[j] == front[j]);
    }
    assert(s[n - 1] == 0);
    lemma_group_len_step(s, n - 1);
    assert(s.skip(n) =~= packet);
    let t = s.take(n);
    assert forall|j: int| 0 <= j < t.len() implies #[trigger] t[j] % 128 == 0 by {
        if j < n - 1 {
            assert(t[j] == front[j]);
        } else {
            assert(t[j] == 0);
        }
    }
    lemma_zero_groups(t);
}

proof fn lemma_zero_groups(s: Seq<u8>)
    requires
        forall|j: int| 0 <= j < s.len() ==> #[trigger] s[j] % 128 == 0,
    ensures
        group_value(s) == 0,
    decreases s.len(),
{
    if s.len() > 0 {
        assert forall|j: int| 0 <= j < s.drop_last().len() implies #[trigger] s.drop_last()[j] % 128
            == 0 by {
            assert(s.drop_last()[j] == s[j]);
        }
        lemma_zero_groups(s.drop_last());
        assert(s.last() == s[s.len() - 1]);
        let d = (s.last() % 128) as nat;
        assert(d * pow2((7 * (s.len() - 1)) as nat) == 0) by (nonlinear_arith)
            requires
                d == 0,
        ;
    }
}

/// What stops a hop is reported with the number that is wrong.
pub proof fn law_hop_errors_are_reported(number: u8, reason: String)
    ensures
        TtlError::Empty.text() == "empty IP packet"@,
        TtlError::MalformedIpv4(reason).text() == "failed to parse IPv4 packet: "@ + reason@,
        TtlError::TtlTooSmall(number).text() == "IPv4 TTL too small: "@ + decimal_text(
            number as nat,
        ),
        TtlError::Ipv6TooShort.text() == "IPv6 packet too short"@,
        TtlError::HopLimitTooSmall(number).text() == "IPv6 hop limit too small: "@ + decimal_text(
            number as nat,
        ),
        TtlError::UnknownVersion(number).text() == "unknown IP version: "@ + decimal_text(
            number as nat,
        ),
{
}

/// What stops a hop is told by the first thing that is wrong: the version, then
/// the length, then the hops that are left.
pub proof fn law_hop_errors_by_bytes(p: Seq<u8>)
    ensures
        p.len() == 0 ==> ttl_error_text(p) == Some("empty IP packet"@),
        p.len() > 0 && p[0] / 16 != 4 && p[0] / 16 != 6 ==> ttl_error_text(p) == Some(
            "unknown IP version: "@ + decimal_text((p[0] / 16) as nat),
        ),
        0 < p.len() < 40 && p[0] / 16 == 6 ==> ttl_error_text(p) == Some("IPv6 packet too short"@),
        p.len() >= 40 && p[0] / 16 == 6 && p[7] <= 1 ==> ttl_error_text(p) == Some(
            "IPv6 hop limit too small: "@ + decimal_text(p[7] as nat),
        ),
        p.len() >= 20 && p[0] / 16 == 4 && p[9] != 51 && p[0] % 16 >= 5 && p[0] % 16 * 4 <= p[2]
            * 256 + p[3] <= p.len() && p[8] <= 1 ==> ttl_error_text(p) == Some(
            "IPv4 TTL too small: "@ + decimal_text(p[8] as nat),
        ),
        p.len() > 0 && p[0] / 16 == 4 && (p.len() < 20 || p[0] % 16 < 5 || p[2] * 256 + p[3]
            < p[0] % 16 * 4 || p[2] * 256 + p[3] > p.len()) ==> ttl_error_text(p) == Some(
            "failed to parse IPv4 packet: "@ + ipv4_parse_reason(p),
        ),
{
}

/// A context in up to nine bytes that has a bit set in any of them holds no
/// packet.
pub proof fn law_other_contexts_hold_no_packet(s: Seq<u8>, n: int, k: int)
    requires
        0 <= k < n <= 9,
        n <= s.len(),
        forall|j: int| 0 <= j < n - 1 ==> #[trigger] s[j] >= 128,
        s[n - 1] < 128,
        s[k] % 128 != 0,
    ensures
        h3_packet(s) is None,
{
    lemma_group_len_step(s, n - 1);
    let t = s.take(n);
    assert(t[k] == s[k]);
    lemma_groups_not_zero(t, k);
    lemma_group_value_bound(t);
    lemma2_to64();
    lemma2_to64_rest();
    assert(pow2(63) < pow2(64));
    if 7 * n < 63 {
        lemma_pow2_strictly_increases((7 * n) as nat, 63);
    }
    assert(group_value(t) < 0x1_0000_0000_0000_0000);
}

proof fn lemma_groups_not_zero(s: Seq<u8>, k: int)
    requires
        0 <= k < s.len(),
        s[k] % 128 != 0,
    ensures
        group_value(s) > 0,
    decreases s.len(),
{
    let d = (s.last() % 128) as nat;
    let w = pow2((7 * (s.len() - 1)) as nat);
    lemma_pow2_pos((7 * (s.len() - 1)) as nat);
    assert(d > 0 ==> d * w > 0) by (nonlinear_arith)
        requires
            w > 0,
    ;
    if k < s.len() - 1 {
        assert(s.drop_last()[k] == s[k]);
        lemma_groups_not_zero(s.drop_last(), k);
    }
}

} // verus!
