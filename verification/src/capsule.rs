//! Capsules (RFC 9297) as CONNECT-IP (RFC 9484) uses them.

use vstd::prelude::*;

use bytes::{Bytes, BytesMut};

use crate::buffer::{bytes_as_slice, bytes_mut_view, bytes_slice, bytes_view, put_u8};
use crate::octets::{be_value, lemma_be_1, lemma_be_2, lemma_be_4, lemma_be_8};

verus! {

pub const CAPSULE_CONNECT_IP_DATA: u64 = 0x00;

pub const CAPSULE_ADDRESS_ASSIGN: u64 = 0x01;

pub const CAPSULE_ADDRESS_REQUEST: u64 = 0x02;

pub const CAPSULE_ROUTE_ADVERTISEMENT: u64 = 0x03;

pub const CAPSULE_CONNECT_IP_REQUEST: u64 = 0x04;

/// Byte overhead of a DATA capsule with a payload of up to 16383 bytes: one
/// byte of type and two of length.
pub const CAPSULE_OVERHEAD: usize = 3;

/// The number of bytes of a variable-length integer, which the two high bits
/// of its first byte select.
pub open spec fn varint_len(first: u8) -> nat {
    if first < 64 {
        1
    } else if first < 128 {
        2
    } else if first < 192 {
        4
    } else {
        8
    }
}

/// The variable-length integer that `s` starts with and the number of bytes
/// it takes, if `s` holds all of it.
pub open spec fn varint_prefix(s: Seq<u8>) -> Option<(nat, nat)> {
    if s.len() == 0 || s.len() < varint_len(s[0]) {
        None
    } else {
        let n = varint_len(s[0]);
        Some((be_value(seq![(s[0] % 64) as u8] + s.subrange(1, n as int)), n))
    }
}

/// The bytes of a variable-length integer: the shortest form that fits. Of a
/// number too large for any form, the eight-byte form keeps the low 62 bits.
pub open spec fn varint_bytes(v: u64) -> Seq<u8> {
    if v < 64 {
        seq![v as u8]
    } else if v < 16_384 {
        seq![(64 + v / 0x100) as u8, (v % 0x100) as u8]
    } else if v < 1_073_741_824 {
        seq![
            (128 + v / 0x100_0000) as u8,
            (v / 0x1_0000 % 0x100) as u8,
            (v / 0x100 % 0x100) as u8,
            (v % 0x100) as u8,
        ]
    } else {
        seq![
            (192 + v / 0x100_0000_0000_0000 % 64) as u8,
            (v / 0x1_0000_0000_0000 % 0x100) as u8,
            (v / 0x100_0000_0000 % 0x100) as u8,
            (v / 0x1_0000_0000 % 0x100) as u8,
            (v / 0x100_0000 % 0x100) as u8,
            (v / 0x1_0000 % 0x100) as u8,
            (v / 0x100 % 0x100) as u8,
            (v % 0x100) as u8,
        ]
    }
}

/// Appends a value as a QUIC variable-length integer (RFC 9000, section 16).
///
/// The two high bits of the first byte select a form of one, two, four or
/// eight bytes.
pub fn put_varint(out: &mut BytesMut, value: u64)
    requires
        bytes_mut_view(*old(out)).len() + 8 <= isize::MAX,
    ensures
        bytes_mut_view(*final(out)) == bytes_mut_view(*old(out)) + varint_bytes(value),
{
    let ghost before = bytes_mut_view(*out);
    if value < 64 {
        put_u8(out, value as u8);
        assert(bytes_mut_view(*out) =~= before + varint_bytes(value));
    } else if value < 16_384 {
        assert((0x40u8 | (value >> 8) as u8) == 64 + value / 0x100 && value as u8 == value % 0x100)
            by (bit_vector)
            requires
                value < 16_384,
        ;
        put_u8(out, 0x40 | (value >> 8) as u8);
        put_u8(out, value as u8);
        assert(bytes_mut_view(*out) =~= before + varint_bytes(value));
    } else if value < 1_073_741_824 {
        assert((0x80u8 | (value >> 24) as u8) == 128 + value / 0x100_0000 && (value >> 16) as u8
            == value / 0x1_0000 % 0x100 && (value >> 8) as u8 == value / 0x100 % 0x100
            && value as u8 == value % 0x100) by (bit_vector)
            requires
                value < 1_073_741_824,
        ;
        put_u8(out, 0x80 | (value >> 24) as u8);
        put_u8(out, (value >> 16) as u8);
        put_u8(out, (value >> 8) as u8);
        put_u8(out, value as u8);
        assert(bytes_mut_view(*out) =~= before + varint_bytes(value));
    } else {
        assert((0xC0u8 | (value >> 56) as u8) == 192 + value / 0x100_0000_0000_0000 % 64 && (value
            >> 48) as u8 == value / 0x1_0000_0000_0000 % 0x100 && (value >> 40) as u8 == value
            / 0x100_0000_0000 % 0x100 && (value >> 32) as u8 == value / 0x1_0000_0000 % 0x100
            && (value >> 24) as u8 == value / 0x100_0000 % 0x100 && (value >> 16) as u8 == value
            / 0x1_0000 % 0x100 && (value >> 8) as u8 == value / 0x100 % 0x100 && value as u8
            == value % 0x100) by (bit_vector);
        put_u8(out, 0xC0 | (value >> 56) as u8);
        put_u8(out, (value >> 48) as u8);
        put_u8(out, (value >> 40) as u8);
        put_u8(out, (value >> 32) as u8);
        put_u8(out, (value >> 24) as u8);
        put_u8(out, (value >> 16) as u8);
        put_u8(out, (value >> 8) as u8);
        put_u8(out, value as u8);
        assert(bytes_mut_view(*out) =~= before + varint_bytes(value));
    }
}

/// The bytes of a capsule: its type, the length of its value, its value.
pub open spec fn capsule_bytes(capsule_type: u64, value: Seq<u8>) -> Seq<u8> {
    varint_bytes(capsule_type) + varint_bytes(value.len() as u64) + value
}

/// Appends a capsule.
pub fn put_capsule(out: &mut BytesMut, capsule_type: u64, value: &[u8])
    requires
        bytes_mut_view(*old(out)).len() + 16 + value@.len() <= isize::MAX,
    ensures
        bytes_mut_view(*final(out)) == bytes_mut_view(*old(out)) + capsule_bytes(
            capsule_type,
            value@,
        ),
{
    let ghost before = bytes_mut_view(*out);
    put_varint(out, capsule_type);
    put_varint(out, value.len() as u64);
    out.extend_from_slice(value);
    assert(bytes_mut_view(*out) =~= before + capsule_bytes(capsule_type, value@));
}

/// Reads a QUIC variable-length integer (RFC 9000, section 16): the value and
/// the number of bytes consumed, or `None` if the input is too short to hold
/// all of it.
pub fn decode_varint(input: &[u8]) -> (res: Option<(u64, usize)>)
    ensures
        match res {
            Some((value, len)) => varint_prefix(input@) == Some((value as nat, len as nat)),
            None => varint_prefix(input@) is None,
        },
{
    if input.len() == 0 {
        return None;
    }
    let first: u8 = input[0];
    assert(first >> 6 == first / 64 && first & 0x3f == first % 64) by (bit_vector);
    let len: usize = match first >> 6 {
        0 => 1,
        1 => 2,
        2 => 4,
        _ => 8,
    };
    if input.len() < len {
        return None;
    }
    let mut value: u64 = (first & 0x3f) as u64;
    let mut i: usize = 1;
    let ghost lead = seq![(first % 64) as u8];
    proof {
        reveal_with_fuel(be_value, 2);
        assert((lead + input@.subrange(1, 1)) =~= lead);
        assert(lead.drop_last() =~= Seq::<u8>::empty());
    }
    while i < len
        invariant
            1 <= i <= len <= 8,
            len <= input@.len(),
            lead == seq![(first % 64) as u8],
            value == be_value(lead + input@.subrange(1, i as int)),
            i == 1 ==> value < 0x40,
            i == 2 ==> value < 0x4000,
            i == 3 ==> value < 0x40_0000,
            i == 4 ==> value < 0x4000_0000,
            i == 5 ==> value < 0x40_0000_0000,
            i == 6 ==> value < 0x4000_0000_0000,
            i == 7 ==> value < 0x40_0000_0000_0000,
            i == 8 ==> value < 0x4000_0000_0000_0000,
        decreases len - i,
    {
        let byte: u8 = input[i];
        assert((value << 8) | byte as u64 == value * 256 + byte) by (bit_vector)
            requires
                value < 0x40_0000_0000_0000,
        ;
        proof {
            let longer = lead + input@.subrange(1, i + 1);
            assert(longer.drop_last() =~= lead + input@.subrange(1, i as int));
            assert(longer.last() == byte);
        }
        value = (value << 8) | byte as u64;
        i = i + 1;
    }
    Some((value, len))
}

/// Reading back what was written gives the value and all the bytes of it,
/// whatever follows, for every value that the eight-byte form can carry.
pub proof fn law_varint_roundtrip(v: u64, rest: Seq<u8>)
    requires
        v < 0x4000_0000_0000_0000,
    ensures
        varint_prefix(varint_bytes(v) + rest) == Some((v as nat, varint_bytes(v).len())),
{
    let e = varint_bytes(v);
    let s = e + rest;
    let n = varint_len(s[0]);
    let digits = seq![(s[0] % 64) as u8] + s.subrange(1, n as int);
    if v < 64 {
        assert(digits =~= seq![v as u8]);
        lemma_be_1(digits);
    } else if v < 16_384 {
        lemma_be_2(digits);
    } else if v < 1_073_741_824 {
        lemma_be_4(digits);
    } else {
        lemma_varint_roundtrip_8(v, rest);
    }
}

proof fn lemma_varint_roundtrip_8(v: u64, rest: Seq<u8>)
    requires
        1_073_741_824 <= v < 0x4000_0000_0000_0000,
    ensures
        varint_prefix(varint_bytes(v) + rest) == Some((v as nat, 8nat)),
{
    let e = varint_bytes(v);
    let s = e + rest;
    assert(s[0] >= 192 && s[0] % 64 == v / 0x100_0000_0000_0000);
    let digits = seq![(s[0] % 64) as u8] + s.subrange(1, 8);
    assert(digits =~= seq![(v / 0x100_0000_0000_0000) as u8] + e.subrange(1, 8));
    lemma_be_8(digits);
    assert((v / 0x100_0000_0000_0000) * 0x100_0000_0000_0000 + (v / 0x1_0000_0000_0000 % 0x100)
        * 0x1_0000_0000_0000 + (v / 0x100_0000_0000 % 0x100) * 0x100_0000_0000 + (v / 0x1_0000_0000
        % 0x100) * 0x1_0000_0000 + (v / 0x100_0000 % 0x100) * 0x100_0000 + (v / 0x1_0000 % 0x100)
        * 0x1_0000 + (v / 0x100 % 0x100) * 0x100 + v % 0x100 == v) by {
        let a = v / 0x100;
        let b = a / 0x100;
        let c = b / 0x100;
        let d = c / 0x100;
        let f = d / 0x100;
        let g = f / 0x100;
        assert(b == v / 0x1_0000);
        assert(c == v / 0x100_0000);
        assert(d == v / 0x1_0000_0000);
        assert(f == v / 0x100_0000_0000);
        assert(g == v / 0x1_0000_0000_0000);
        assert(g / 0x100 == v / 0x100_0000_0000_0000);
    }
}

/// The bytes of a chain of chunks, one after the other.
pub open spec fn joined(chunks: Seq<Bytes>) -> Seq<u8>
    decreases chunks.len(),
{
    if chunks.len() == 0 {
        Seq::empty()
    } else {
        bytes_view(chunks[0]) + joined(chunks.drop_first())
    }
}

/// The type, the header length and the value length of the capsule that `s`
/// starts with, if `s` holds the whole header.
pub open spec fn capsule_head(s: Seq<u8>) -> Option<(nat, nat, nat)> {
    match varint_prefix(s) {
        None => None,
        Some((capsule_type, t_len)) => match varint_prefix(s.skip(t_len as int)) {
            None => None,
            Some((length, l_len)) => Some((capsule_type, t_len + l_len, length)),
        },
    }
}

/// The first DATA payload of a capsule stream and what follows its capsule.
/// Complete capsules of other types in front of it are dropped. Without a
/// complete DATA capsule there is no payload, and what is left starts at the
/// first incomplete capsule.
pub open spec fn next_data(s: Seq<u8>) -> (Option<Seq<u8>>, Seq<u8>)
    decreases s.len(),
{
    match capsule_head(s) {
        None => (None, s),
        Some((capsule_type, header_len, length)) => {
            let total = header_len + length;
            if s.len() < total {
                (None, s)
            } else if capsule_type == CAPSULE_CONNECT_IP_DATA {
                (Some(s.subrange(header_len as int, total as int)), s.skip(total as int))
            } else if total > 0 {
                next_data(s.skip(total as int))
            } else {
                (None, s)
            }
        },
    }
}

/// Streaming reader for capsule-framed bodies. It stores pushed chunks and
/// returns DATA payloads as handles on the same memory where a payload lies
/// inside one chunk.
pub struct CapsuleReader {
    chunks: Vec<Bytes>,
    /// How far the first chunk has been consumed.
    start_in_first: usize,
}

impl CapsuleReader {
    /// The consumed part lies inside the first chunk, no chunk is empty, and
    /// what is held could be assembled in one allocation.
    pub closed spec fn wf(&self) -> bool {
        &&& self.chunks@.len() == 0 ==> self.start_in_first == 0
        &&& self.chunks@.len() > 0 ==> self.start_in_first <= bytes_view(self.chunks@[0]).len()
        &&& forall|i: int|
            0 <= i < self.chunks@.len() ==> bytes_view(#[trigger] self.chunks@[i]).len() > 0
        &&& joined(self.chunks@).len() <= isize::MAX
    }

    /// The bytes that were pushed and are not consumed yet.
    pub closed spec fn pending(&self) -> Seq<u8> {
        joined(self.chunks@).skip(self.start_in_first as int)
    }

    /// The number of bytes that the reader holds in memory: those pending and
    /// those consumed of a chunk that is still held.
    pub closed spec fn held(&self) -> nat {
        joined(self.chunks@).len()
    }

    /// The number of chunks held.
    pub closed spec fn chunk_total(&self) -> nat {
        self.chunks@.len()
    }

    /// Whether the first chunk held still has a pending byte.
    pub closed spec fn compacted(&self) -> bool {
        self.chunks@.len() > 0 ==> self.start_in_first < bytes_view(self.chunks@[0]).len()
    }

    pub fn new() -> (r: Self)
        ensures
            r.wf(),
            r.pending() == Seq::<u8>::empty(),
            r.held() == 0,
            r.chunk_total() == 0,
            r.compacted(),
    {
        let r = CapsuleReader { chunks: Vec::new(), start_in_first: 0 };
        assert(r.pending() =~= Seq::<u8>::empty());
        r
    }

    /// Appends a chunk to what is pending. An empty chunk is not stored.
    pub fn push(&mut self, data: Bytes)
        requires
            old(self).wf(),
            old(self).held() + bytes_view(data).len() <= isize::MAX,
        ensures
            final(self).wf(),
            final(self).pending() == old(self).pending() + bytes_view(data),
            final(self).held() == old(self).held() + bytes_view(data).len(),
            final(self).chunk_total() == old(self).chunk_total() + (if bytes_view(data).len() == 0 {
                0nat
            } else {
                1nat
            }),
            old(self).compacted() ==> final(self).compacted(),
    {
        if !data.is_empty() {
            proof {
                lemma_joined_push(self.chunks@, data);
            }
            self.chunks.push(data);
        }
        assert(self.pending() =~= old(self).pending() + bytes_view(data));
    }

    /// Returns the payload of the next DATA capsule and drops all that came
    /// before it. Returns `None` if more bytes are needed to complete the
    /// current capsule. How the bytes were cut into chunks does not matter.
    pub fn next_ip_packet(&mut self) -> (res: Option<Bytes>)
        requires
            old(self).wf(),
        ensures
            final(self).wf(),
            res is Some <==> next_data(old(self).pending()).0 is Some,
            res matches Some(b) ==> next_data(old(self).pending()).0 == Some(bytes_view(b)),
            final(self).pending() == next_data(old(self).pending()).1,
            final(self).held() <= old(self).held(),
            final(self).chunk_total() <= old(self).chunk_total(),
            old(self).compacted() ==> final(self).compacted(),
    {
        loop
            invariant
                self.wf(),
                next_data(self.pending()) == next_data(old(self).pending()),
                self.held() <= old(self).held(),
                self.chunk_total() <= old(self).chunk_total(),
                old(self).compacted() ==> self.compacted(),
            decreases self.pending().len(),
        {
            let ghost s = self.pending();
            let head: Vec<u8> = self.peek(16);
            proof {
                lemma_capsule_head_prefix(s, head@);
            }
            let (capsule_type, t_len) = match decode_varint(head.as_slice()) {
                Some(found) => found,
                None => {
                    return None;
                },
            };
            let rest = vstd::slice::slice_subrange(head.as_slice(), t_len, head.len());
            assert(rest@ =~= head@.skip(t_len as int));
            let (length, l_len) = match decode_varint(rest) {
                Some(found) => found,
                None => {
                    return None;
                },
            };
            let header_len: usize = t_len + l_len;
            let held: usize = self.total_len();
            if held < header_len || ((held - header_len) as u64) < length {
                return None;
            }
            let value = self.slice_bytes(header_len, length as usize);
            self.skip(header_len + length as usize);
            if capsule_type == CAPSULE_CONNECT_IP_DATA {
                return Some(value);
            }
        }
    }

    /// Drops chunks at the front that hold no pending byte. What is pending
    /// stays as it is.
    pub fn compact(&mut self)
        requires
            old(self).wf(),
        ensures
            final(self).wf(),
            final(self).pending() == old(self).pending(),
            final(self).compacted(),
            final(self).held() <= old(self).held(),
            old(self).compacted() ==> final(self).chunk_total() == old(self).chunk_total(),
            !old(self).compacted() ==> final(self).chunk_total() + 1 == old(self).chunk_total(),
            final(self).pending().len() == 0 ==> final(self).chunk_total() == 0,
    {
        let mut dropped: bool = false;
        while self.chunks.len() > 0 && self.start_in_first >= self.chunks[0].len()
            invariant
                self.wf(),
                self.pending() == old(self).pending(),
                self.held() <= old(self).held(),
                !dropped ==> *self == *old(self),
                dropped ==> self.compacted() && !old(self).compacted() && self.chunk_total() + 1
                    == old(self).chunk_total(),
            decreases self.chunks@.len(),
        {
            self.start_in_first = self.start_in_first - self.chunks[0].len();
            let ghost before = self.chunks@;
            self.chunks.remove(0);
            assert(self.chunks@ =~= before.drop_first());
            assert(self.pending() =~= old(self).pending());
            dropped = true;
        }
    }

    /// The number of chunks held, by which a caller decides when to call
    /// `compact`.
    pub fn chunk_count(&self) -> (n: usize)
        ensures
            n == self.chunk_total(),
    {
        self.chunks.len()
    }

    /// The number of bytes held in memory.
    pub fn held_len(&self) -> (n: usize)
        requires
            self.wf(),
        ensures
            n == self.held(),
    {
        let mut i: usize = 0;
        let mut n: usize = 0;
        proof {
            assert(self.chunks@.skip(0) =~= self.chunks@);
        }
        while i < self.chunks.len()
            invariant
                i <= self.chunks@.len(),
                n + joined(self.chunks@.skip(i as int)).len() == joined(self.chunks@).len(),
                joined(self.chunks@).len() <= isize::MAX,
            decreases self.chunks@.len() - i,
        {
            proof {
                lemma_joined_step(self.chunks@, i as int);
            }
            n = n + self.chunks[i].len();
            i = i + 1;
        }
        assert(self.chunks@.skip(i as int).len() == 0);
        n
    }

    fn total_len(&self) -> (n: usize)
        requires
            self.wf(),
        ensures
            n == self.pending().len(),
    {
        proof {
            lemma_first_fits(self.chunks@);
        }
        self.held_len() - self.start_in_first
    }

    /// Copies up to `limit` of the first pending bytes.
    fn peek(&self, limit: usize) -> (out: Vec<u8>)
        requires
            self.wf(),
        ensures
            out@ == self.pending().take(if limit <= self.pending().len() {
                limit as int
            } else {
                self.pending().len() as int
            }),
    {
        let mut out: Vec<u8> = Vec::new();
        let mut cursor = self.cursor_after(0);
        let ghost all = self.pending();
        assert(all.skip(0) =~= all);
        loop
            invariant
                cursor.wf(),
                out@.len() <= limit,
                out@.len() <= all.len(),
                out@ == all.take(out@.len() as int),
                out@.len() < limit ==> cursor.remaining() == all.skip(out@.len() as int),
            ensures
                out@.len() == limit || out@.len() == all.len(),
                out@.len() <= limit,
                out@ == all.take(out@.len() as int),
            decreases cursor.chunks@.len() - cursor.idx,
        {
            if out.len() == limit {
                break;
            }
            let chunk = match cursor.next() {
                Some(chunk) => chunk,
                None => {
                    break;
                },
            };
            let bytes = bytes_as_slice(&chunk);
            let room: usize = limit - out.len();
            let n: usize = if bytes.len() < room {
                bytes.len()
            } else {
                room
            };
            let ghost before = out@;
            out.extend_from_slice(vstd::slice::slice_subrange(bytes, 0, n));
            proof {
                assert(out@ =~= before + bytes@.subrange(0, n as int));
                assert(out@ =~= all.take(out@.len() as int));
                if out@.len() < limit {
                    assert(all.skip(before.len() as int).skip(n as int) =~= all.skip(
                        out@.len() as int,
                    ));
                }
            }
        }
        out
    }

    /// Returns the `length` pending bytes from `offset` on. If they lie inside
    /// one chunk, the result shares its memory; otherwise they are assembled
    /// in a fresh buffer.
    fn slice_bytes(&self, offset: usize, length: usize) -> (r: Bytes)
        requires
            self.wf(),
            offset + length <= self.pending().len(),
        ensures
            bytes_view(r) == self.pending().subrange(offset as int, offset + length),
    {
        let ghost all = self.pending().skip(offset as int);
        let ghost wanted = self.pending().subrange(offset as int, offset + length);
        let mut cursor = self.cursor_after(offset);
        let first = match cursor.next() {
            Some(first) => first,
            None => {
                assert(wanted =~= Seq::<u8>::empty());
                return Bytes::new();
            },
        };
        if first.len() >= length {
            assert(wanted =~= bytes_view(first).subrange(0, length as int));
            return bytes_slice(&first, 0, length);
        }
        let mut out = BytesMut::with_capacity(length);
        out.extend_from_slice(bytes_as_slice(&first));
        let mut remaining: usize = length - first.len();
        assert(all.take(bytes_mut_view(out).len() as int) =~= bytes_mut_view(out));
        loop
            invariant
                cursor.wf(),
                remaining > 0,
                length <= isize::MAX,
                bytes_mut_view(out).len() + remaining == length,
                length <= all.len(),
                wanted == all.take(length as int),
                wanted == self.pending().subrange(offset as int, offset + length),
                bytes_mut_view(out) == all.take(length - remaining),
                cursor.remaining() == all.skip(length - remaining),
            decreases cursor.chunks@.len() - cursor.idx,
        {
            let next = match cursor.next() {
                Some(next) => next,
                None => {
                    assert(false);
                    return out.freeze();
                },
            };
            let bytes = bytes_as_slice(&next);
            if bytes.len() >= remaining {
                out.extend_from_slice(vstd::slice::slice_subrange(bytes, 0, remaining));
                assert(bytes_mut_view(out) =~= wanted);
                return out.freeze();
            }
            let ghost before = remaining;
            out.extend_from_slice(bytes);
            remaining = remaining - bytes.len();
            proof {
                assert(bytes_mut_view(out) =~= all.take(length - remaining));
                assert(all.skip(length - before).skip(bytes@.len() as int) =~= all.skip(
                    length - remaining,
                ));
            }
        }
    }

    /// Consumes `n` pending bytes.
    fn skip(&mut self, n: usize)
        requires
            old(self).wf(),
            n <= old(self).pending().len(),
        ensures
            final(self).wf(),
            final(self).pending() == old(self).pending().skip(n as int),
            final(self).held() <= old(self).held(),
            final(self).chunk_total() <= old(self).chunk_total(),
            old(self).compacted() || n > 0 ==> final(self).compacted(),
    {
        let mut left: usize = n;
        let ghost all = self.pending();
        assert(all.skip(0) =~= all);
        while left > 0
            invariant
                self.wf(),
                left <= n <= all.len(),
                all == old(self).pending(),
                self.pending() == all.skip(n - left),
                self.held() <= old(self).held(),
                self.chunk_total() <= old(self).chunk_total(),
                old(self).compacted() || left < n ==> self.compacted(),
            decreases self.chunks@.len() + left,
        {
            proof {
                lemma_first_fits(self.chunks@);
            }
            let ghost before = self.chunks@;
            let ghost start = self.start_in_first as int;
            let ghost left_before = left;
            if self.chunks.len() == 0 {
                assert(joined(before) =~= Seq::<u8>::empty());
                assert(self.pending().len() == 0);
                assert(all.skip(n - left).len() > 0);
                assert(false);
                return;
            }
            let head_len: usize = self.chunks[0].len() - self.start_in_first;
            if left < head_len {
                self.start_in_first = self.start_in_first + left;
                left = 0;
                assert(joined(before).skip(start + left_before) =~= joined(before).skip(
                    start,
                ).skip(left_before as int));
            } else {
                left = left - head_len;
                self.chunks.remove(0);
                self.start_in_first = 0;
                assert(self.chunks@ =~= before.drop_first());
                assert(joined(before.drop_first()).skip(0) =~= joined(before).skip(start).skip(
                    head_len as int,
                ));
                assert(self.pending() =~= all.skip(n - left_before).skip(head_len as int));
            }
            assert(all.skip(n - left_before).skip(left_before - left) =~= all.skip(n - left));
        }
    }

    /// A cursor over the pending bytes from `offset` on.
    fn cursor_after(&self, offset: usize) -> (c: CursorAfter<'_>)
        requires
            self.wf(),
            offset <= self.pending().len(),
        ensures
            c.wf(),
            c.chunks@ == self.chunks@,
            c.remaining() == self.pending().skip(offset as int),
    {
        let mut idx: usize = 0;
        let mut skip: usize = offset;
        let mut local_start: usize = self.start_in_first;
        let ghost all = self.pending();
        proof {
            assert(self.chunks@.skip(0) =~= self.chunks@);
            assert(all.skip(0) =~= all);
        }
        while idx < self.chunks.len() && self.chunks[idx].len() - local_start <= skip
            invariant
                self.wf(),
                all == self.pending(),
                idx <= self.chunks@.len(),
                idx < self.chunks@.len() ==> local_start <= bytes_view(self.chunks@[idx as int]).len(),
                idx == self.chunks@.len() ==> local_start == 0,
                skip <= offset <= all.len(),
                joined(self.chunks@.skip(idx as int)).skip(local_start as int) == all.skip(
                    offset - skip,
                ),
            decreases self.chunks@.len() - idx,
        {
            proof {
                lemma_joined_step(self.chunks@, idx as int);
            }
            let ghost skip_before = skip;
            let ghost here = joined(self.chunks@.skip(idx as int)).skip(local_start as int);
            let ghost head = bytes_view(self.chunks@[idx as int]).len() - local_start;
            skip = skip - (self.chunks[idx].len() - local_start);
            idx = idx + 1;
            local_start = 0;
            proof {
                assert(joined(self.chunks@.skip(idx as int)).skip(0) =~= here.skip(head));
                assert(all.skip(offset - skip_before).skip(head) =~= all.skip(offset - skip));
            }
        }
        proof {
            if idx < self.chunks@.len() {
                lemma_joined_step(self.chunks@, idx as int);
            }
            assert(all.skip(offset - skip).skip(skip as int) =~= all.skip(offset as int));
            assert(joined(self.chunks@.skip(idx as int)).skip(local_start as int).skip(skip as int)
                =~= joined(self.chunks@.skip(idx as int)).skip(local_start + skip));
            if idx == self.chunks@.len() {
                assert(self.chunks@.skip(idx as int) =~= Seq::<Bytes>::empty());
                assert(all.skip(offset - skip).len() == 0);
            }
        }
        CursorAfter { chunks: &self.chunks, idx, local_start: local_start + skip }
    }
}

/// Walks a chain of chunks from a position in one of them.
struct CursorAfter<'a> {
    chunks: &'a Vec<Bytes>,
    idx: usize,
    local_start: usize,
}

impl<'a> CursorAfter<'a> {
    spec fn wf(&self) -> bool {
        &&& self.idx <= self.chunks@.len()
        &&& self.idx < self.chunks@.len() ==> self.local_start <= bytes_view(
            self.chunks@[self.idx as int],
        ).len()
        &&& self.idx == self.chunks@.len() ==> self.local_start == 0
    }

    spec fn remaining(&self) -> Seq<u8> {
        joined(self.chunks@.skip(self.idx as int)).skip(self.local_start as int)
    }

    /// Returns what is left of the current chunk and moves to the next one.
    fn next(&mut self) -> (res: Option<Bytes>)
        requires
            old(self).wf(),
        ensures
            final(self).wf(),
            final(self).chunks@ == old(self).chunks@,
            match res {
                Some(b) => {
                    &&& final(self).idx == old(self).idx + 1
                    &&& final(self).idx <= final(self).chunks@.len()
                    &&& bytes_view(b).len() <= old(self).remaining().len()
                    &&& bytes_view(b) == old(self).remaining().take(bytes_view(b).len() as int)
                    &&& final(self).remaining() == old(self).remaining().skip(
                        bytes_view(b).len() as int,
                    )
                },
                None => {
                    &&& old(self).remaining().len() == 0
                    &&& *final(self) == *old(self)
                },
            },
    {
        if self.idx >= self.chunks.len() {
            assert(self.chunks@.skip(self.idx as int).len() == 0);
            return None;
        }
        proof {
            lemma_joined_step(self.chunks@, self.idx as int);
        }
        let b = &self.chunks[self.idx];
        let slice = bytes_slice(b, self.local_start, b.len());
        self.idx = self.idx + 1;
        self.local_start = 0;
        proof {
            assert(bytes_view(slice) =~= old(self).remaining().take(bytes_view(slice).len() as int));
            assert(self.remaining() =~= old(self).remaining().skip(bytes_view(slice).len() as int));
        }
        Some(slice)
    }
}

impl Default for CapsuleReader {
    fn default() -> (r: Self)
        ensures
            r.wf(),
            r.pending() == Seq::<u8>::empty(),
            r.held() == 0,
            r.chunk_total() == 0,
            r.compacted(),
    {
        Self::new()
    }
}

proof fn lemma_joined_step(chunks: Seq<Bytes>, i: int)
    requires
        0 <= i < chunks.len(),
    ensures
        joined(chunks.skip(i)) == bytes_view(chunks[i]) + joined(chunks.skip(i + 1)),
{
    assert(chunks.skip(i)[0] == chunks[i]);
    assert(chunks.skip(i).drop_first() =~= chunks.skip(i + 1));
}

proof fn lemma_first_fits(chunks: Seq<Bytes>)
    ensures
        chunks.len() > 0 ==> bytes_view(chunks[0]).len() <= joined(chunks).len(),
{
}

proof fn lemma_joined_push(chunks: Seq<Bytes>, last: Bytes)
    ensures
        joined(chunks.push(last)) == joined(chunks) + bytes_view(last),
    decreases chunks.len(),
{
    if chunks.len() == 0 {
        assert(chunks.push(last).drop_first() =~= Seq::<Bytes>::empty());
        assert(joined(Seq::<Bytes>::empty()) =~= Seq::<u8>::empty());
        assert(joined(chunks.push(last)) =~= bytes_view(last));
        assert(joined(chunks) + bytes_view(last) =~= bytes_view(last));
    } else {
        lemma_joined_push(chunks.drop_first(), last);
        assert(chunks.push(last).drop_first() =~= chunks.drop_first().push(last));
        assert(joined(chunks.push(last)) =~= joined(chunks) + bytes_view(last));
    }
}

/// A variable-length integer is read from its first eight bytes alone.
proof fn lemma_varint_prefix_of(s: Seq<u8>, t: Seq<u8>)
    requires
        t.is_prefix_of(s),
        t.len() >= 8 || t.len() == s.len(),
    ensures
        varint_prefix(s) == varint_prefix(t),
{
    if t.len() == s.len() {
        assert(s =~= t);
    } else {
        let n = varint_len(s[0]) as int;
        assert(s[0] == t[0]);
        assert(s.subrange(1, n) =~= t.subrange(1, n));
    }
}

/// A capsule header is read from the first sixteen bytes alone.
proof fn lemma_capsule_head_prefix(s: Seq<u8>, t: Seq<u8>)
    requires
        t == s.take(if 16 <= s.len() {
            16
        } else {
            s.len() as int
        }),
    ensures
        varint_prefix(s) == varint_prefix(t),
        varint_prefix(s) matches Some((_, t_len)) ==> 1 <= t_len <= 8 && t_len <= t.len()
            && varint_prefix(s.skip(t_len as int)) == varint_prefix(t.skip(t_len as int)),
{
    lemma_varint_prefix_of(s, t);
    if let Some((_, t_len)) = varint_prefix(s) {
        assert(t.skip(t_len as int) =~= s.skip(t_len as int).take(t.len() - t_len));
        lemma_varint_prefix_of(s.skip(t_len as int), t.skip(t_len as int));
    }
}

/// More bytes behind a complete variable-length integer do not change it.
proof fn lemma_varint_prefix_extends(s: Seq<u8>, t: Seq<u8>)
    requires
        varint_prefix(s) is Some,
    ensures
        varint_prefix(s + t) == varint_prefix(s),
{
    let n = varint_len(s[0]) as int;
    assert((s + t)[0] == s[0]);
    assert((s + t).subrange(1, n) =~= s.subrange(1, n));
}

/// More bytes behind a complete capsule header do not change it.
proof fn lemma_capsule_head_extends(s: Seq<u8>, t: Seq<u8>)
    requires
        capsule_head(s) is Some,
    ensures
        capsule_head(s + t) == capsule_head(s),
{
    lemma_varint_prefix_extends(s, t);
    let t_len = varint_prefix(s).unwrap().1 as int;
    lemma_varint_prefix_extends(s.skip(t_len), t);
    assert((s + t).skip(t_len) =~= s.skip(t_len) + t);
}

/// The head of an encoded capsule is its type, the length of both integers
/// and the length of its value.
proof fn lemma_capsule_head_of_bytes(capsule_type: u64, value: Seq<u8>, rest: Seq<u8>)
    requires
        capsule_type < 0x4000_0000_0000_0000,
        value.len() < 0x4000_0000_0000_0000,
    ensures
        ({
            let header_len = varint_bytes(capsule_type).len() + varint_bytes(
                value.len() as u64,
            ).len();
            let s = capsule_bytes(capsule_type, value) + rest;
            &&& capsule_head(s) == Some((capsule_type as nat, header_len, value.len()))
            &&& s.len() >= header_len + value.len()
            &&& s.subrange(header_len as int, (header_len + value.len()) as int) == value
            &&& s.skip((header_len + value.len()) as int) == rest
            &&& header_len >= 2
        }),
{
    let a = varint_bytes(capsule_type);
    let b = varint_bytes(value.len() as u64);
    let s = capsule_bytes(capsule_type, value) + rest;
    assert(s =~= a + (b + (value + rest)));
    law_varint_roundtrip(capsule_type, b + (value + rest));
    assert(s.skip(a.len() as int) =~= b + (value + rest));
    law_varint_roundtrip(value.len() as u64, value + rest);
    assert(s.subrange((a.len() + b.len()) as int, (a.len() + b.len() + value.len()) as int)
        =~= value);
    assert(s.skip((a.len() + b.len() + value.len()) as int) =~= rest);
}

/// What `put_capsule` writes as a DATA capsule, the reader gives back: the
/// payload comes out as it was, and what follows the capsule stays pending.
/// (The length of a larger payload has no variable-length form.)
pub proof fn law_read_gives_back_data(payload: Seq<u8>, rest: Seq<u8>)
    requires
        payload.len() < 0x4000_0000_0000_0000,
    ensures
        next_data(capsule_bytes(CAPSULE_CONNECT_IP_DATA, payload) + rest) == (Some(payload), rest),
{
    lemma_capsule_head_of_bytes(CAPSULE_CONNECT_IP_DATA, payload, rest);
}

/// A complete capsule of another type is passed over: it changes nothing of
/// what is read after it.
pub proof fn law_other_capsules_are_skipped(capsule_type: u64, value: Seq<u8>, rest: Seq<u8>)
    requires
        capsule_type != CAPSULE_CONNECT_IP_DATA,
        capsule_type < 0x4000_0000_0000_0000,
        value.len() < 0x4000_0000_0000_0000,
    ensures
        next_data(capsule_bytes(capsule_type, value) + rest) == next_data(rest),
{
    lemma_capsule_head_of_bytes(capsule_type, value, rest);
}

/// Reading early is the same as reading late. A payload that is complete
/// comes out the same whatever arrives behind it; where none is complete,
/// what was left pending and what arrives later read as the whole would have.
pub proof fn law_late_bytes(s: Seq<u8>, late: Seq<u8>)
    ensures
        match next_data(s) {
            (Some(payload), rest) => next_data(s + late) == (Some(payload), rest + late),
            (None, rest) => next_data(s + late) == next_data(rest + late),
        },
    decreases s.len(),
{
    if let Some((capsule_type, header_len, length)) = capsule_head(s) {
        let total = (header_len + length) as int;
        lemma_capsule_head_extends(s, late);
        if s.len() >= total {
            assert((s + late).skip(total) =~= s.skip(total) + late);
            assert((s + late).subrange(header_len as int, total) =~= s.subrange(
                header_len as int,
                total,
            ));
            if capsule_type != CAPSULE_CONNECT_IP_DATA {
                law_late_bytes(s.skip(total), late);
            }
        }
    }
}

/// The payloads of a capsule stream in the order in which they are read.
pub open spec fn payloads(s: Seq<u8>) -> Seq<Seq<u8>>
    decreases s.len(),
{
    match next_data(s) {
        (Some(payload), rest) => if rest.len() < s.len() {
            seq![payload] + payloads(rest)
        } else {
            Seq::empty()
        },
        (None, _) => Seq::empty(),
    }
}

/// A stream of DATA capsules, one for each payload.
pub open spec fn data_stream(items: Seq<Seq<u8>>) -> Seq<u8>
    decreases items.len(),
{
    if items.len() == 0 {
        Seq::empty()
    } else {
        capsule_bytes(CAPSULE_CONNECT_IP_DATA, items[0]) + data_stream(items.drop_first())
    }
}

/// A stream of payloads is read back in full and in order.
pub proof fn law_stream_reads_back(items: Seq<Seq<u8>>)
    requires
        forall|i: int|
            0 <= i < items.len() ==> (#[trigger] items[i]).len() < 0x4000_0000_0000_0000,
    ensures
        payloads(data_stream(items)) == items,
    decreases items.len(),
{
    if items.len() > 0 {
        let rest = data_stream(items.drop_first());
        law_read_gives_back_data(items[0], rest);
        law_stream_reads_back(items.drop_first());
        assert(payloads(data_stream(items)) =~= items);
    } else {
        assert(payloads(data_stream(items)) =~= items);
    }
}

/// What is left pending of a stream once all its complete capsules are read.
pub open spec fn leftover(s: Seq<u8>) -> Seq<u8>
    decreases s.len(),
{
    match next_data(s) {
        (Some(_), rest) => if rest.len() < s.len() {
            leftover(rest)
        } else {
            rest
        },
        (None, rest) => rest,
    }
}

/// A payload that is read consumes bytes.
pub proof fn lemma_data_consumes(s: Seq<u8>)
    ensures
        next_data(s).0 is Some ==> next_data(s).1.len() < s.len(),
        next_data(s).1.len() <= s.len(),
    decreases s.len(),
{
    if let Some((capsule_type, header_len, length)) = capsule_head(s) {
        let total = (header_len + length) as int;
        if s.len() >= total && capsule_type != CAPSULE_CONNECT_IP_DATA {
            lemma_data_consumes(s.skip(total));
        }
    }
}

/// Where no payload is complete, what is pending is left.
pub proof fn lemma_leftover_settles(s: Seq<u8>)
    requires
        next_data(s).0 is None,
    ensures
        leftover(s) == next_data(s).1,
        leftover(next_data(s).1) == next_data(s).1,
    decreases s.len(),
{
    if let Some((capsule_type, header_len, length)) = capsule_head(s) {
        let total = (header_len + length) as int;
        if s.len() >= total && capsule_type != CAPSULE_CONNECT_IP_DATA {
            lemma_leftover_settles(s.skip(total));
        }
    }
}

/// Reading a stream piece by piece gives what reading it at once gives: the
/// payloads of the first piece, then those of what was left and the rest.
pub proof fn law_reading_is_incremental(s: Seq<u8>, late: Seq<u8>)
    ensures
        payloads(s + late) == payloads(s) + payloads(leftover(s) + late),
        leftover(s + late) == leftover(leftover(s) + late),
    decreases s.len(),
{
    law_late_bytes(s, late);
    lemma_data_consumes(s);
    match next_data(s) {
        (Some(payload), rest) => {
            law_reading_is_incremental(rest, late);
            assert(payloads(s + late) =~= payloads(s) + payloads(leftover(s) + late));
        },
        (None, rest) => {
            lemma_leftover_settles(s);
            assert(payloads(s) =~= Seq::<Seq<u8>>::empty());
            lemma_data_consumes(s + late);
            lemma_data_consumes(rest + late);
            assert(next_data(s + late) == next_data(rest + late));
            assert(payloads(s + late) =~= payloads(s) + payloads(leftover(s) + late));
        },
    }
}

/// The bytes of capsules of any types, one after the other.
pub open spec fn capsule_stream(items: Seq<(u64, Seq<u8>)>) -> Seq<u8>
    decreases items.len(),
{
    if items.len() == 0 {
        Seq::empty()
    } else {
        capsule_bytes(items[0].0, items[0].1) + capsule_stream(items.drop_first())
    }
}

/// The values of the DATA capsules of a list, in order.
pub open spec fn data_values(items: Seq<(u64, Seq<u8>)>) -> Seq<Seq<u8>>
    decreases items.len(),
{
    if items.len() == 0 {
        Seq::empty()
    } else if items[0].0 == CAPSULE_CONNECT_IP_DATA {
        seq![items[0].1] + data_values(items.drop_first())
    } else {
        data_values(items.drop_first())
    }
}

/// Pieces of a stream, one after the other.
pub open spec fn pieces_joined(pieces: Seq<Seq<u8>>) -> Seq<u8>
    decreases pieces.len(),
{
    if pieces.len() == 0 {
        Seq::empty()
    } else {
        pieces[0] + pieces_joined(pieces.drop_first())
    }
}

/// The payloads that come out where pieces are pushed one by one behind what
/// is pending, and all that is complete is read after each.
pub open spec fn read_by_pieces(pending: Seq<u8>, pieces: Seq<Seq<u8>>) -> Seq<Seq<u8>>
    decreases pieces.len(),
{
    if pieces.len() == 0 {
        Seq::empty()
    } else {
        let s = pending + pieces[0];
        payloads(s) + read_by_pieces(leftover(s), pieces.drop_first())
    }
}

/// What is left pending where pieces are pushed one by one behind what is
/// pending, and all that is complete is read after each.
pub open spec fn left_by_pieces(pending: Seq<u8>, pieces: Seq<Seq<u8>>) -> Seq<u8>
    decreases pieces.len(),
{
    if pieces.len() == 0 {
        leftover(pending)
    } else {
        left_by_pieces(leftover(pending + pieces[0]), pieces.drop_first())
    }
}

/// What is left pending holds no complete payload.
proof fn lemma_leftover_is_read(s: Seq<u8>)
    ensures
        payloads(leftover(s)) == Seq::<Seq<u8>>::empty(),
    decreases s.len(),
{
    lemma_data_consumes(s);
    if next_data(s).0 is Some {
        lemma_leftover_is_read(next_data(s).1);
    } else {
        lemma_leftover_settles(s);
        law_late_bytes(s, Seq::empty());
        assert(s + Seq::<u8>::empty() =~= s);
        assert(next_data(s).1 + Seq::<u8>::empty() =~= next_data(s).1);
        assert(payloads(leftover(s)) =~= Seq::<Seq<u8>>::empty());
    }
}

/// Reading piece by piece is reading the whole.
proof fn lemma_pieces_read_as_whole(pending: Seq<u8>, pieces: Seq<Seq<u8>>)
    requires
        payloads(pending) == Seq::<Seq<u8>>::empty(),
    ensures
        read_by_pieces(pending, pieces) == payloads(pending + pieces_joined(pieces)),
        left_by_pieces(pending, pieces) == leftover(pending + pieces_joined(pieces)),
    decreases pieces.len(),
{
    if pieces.len() == 0 {
        assert(pending + pieces_joined(pieces) =~= pending);
    } else {
        let s = pending + pieces[0];
        let rest = pieces_joined(pieces.drop_first());
        lemma_leftover_is_read(s);
        lemma_pieces_read_as_whole(leftover(s), pieces.drop_first());
        law_reading_is_incremental(s, rest);
        assert(pending + pieces_joined(pieces) =~= s + rest);
    }
}

/// A stream of capsules of any types reads back as the values of its DATA
/// capsules, in order and each once, and nothing is left of it.
pub proof fn law_mixed_stream_reads_back(items: Seq<(u64, Seq<u8>)>)
    requires
        forall|i: int|
            0 <= i < items.len() ==> (#[trigger] items[i]).0 < 0x4000_0000_0000_0000
                && items[i].1.len() < 0x4000_0000_0000_0000,
    ensures
        payloads(capsule_stream(items)) == data_values(items),
        leftover(capsule_stream(items)) == Seq::<u8>::empty(),
    decreases items.len(),
{
    let s = capsule_stream(items);
    if items.len() > 0 {
        let (capsule_type, value) = items[0];
        let rest = capsule_stream(items.drop_first());
        law_mixed_stream_reads_back(items.drop_first());
        lemma_data_consumes(s);
        lemma_data_consumes(rest);
        lemma_capsule_head_of_bytes(capsule_type, value, rest);
        if capsule_type == CAPSULE_CONNECT_IP_DATA {
            law_read_gives_back_data(value, rest);
        } else {
            law_other_capsules_are_skipped(capsule_type, value, rest);
        }
        assert(payloads(s) =~= data_values(items));
    } else {
        assert(payloads(s) =~= data_values(items));
    }
}

/// However a stream of capsules of any types is cut into pieces, what is read
/// are the values of its DATA capsules, in order and each once. Nothing is left
/// pending then, and nothing more is read.
pub proof fn law_cut_stream_reads_back(items: Seq<(u64, Seq<u8>)>, pieces: Seq<Seq<u8>>)
    requires
        forall|i: int|
            0 <= i < items.len() ==> (#[trigger] items[i]).0 < 0x4000_0000_0000_0000
                && items[i].1.len() < 0x4000_0000_0000_0000,
        pieces_joined(pieces) == capsule_stream(items),
    ensures
        read_by_pieces(Seq::empty(), pieces) == data_values(items),
        left_by_pieces(Seq::empty(), pieces) == Seq::<u8>::empty(),
        next_data(Seq::empty()) == (None::<Seq<u8>>, Seq::<u8>::empty()),
{
    let none = Seq::<u8>::empty();
    law_mixed_stream_reads_back(items);
    assert(payloads(none) =~= Seq::<Seq<u8>>::empty());
    lemma_pieces_read_as_whole(none, pieces);
    assert(none + pieces_joined(pieces) =~= capsule_stream(items));
}

/// A variable-length integer by its bytes: the two high bits of the first
/// select one, two, four or eight bytes, and the value is what all the other
/// bits make up, the most significant first. Bytes that are too few hold none.
pub proof fn law_varint_by_its_bytes(s: Seq<u8>)
    ensures
        s.len() == 0 ==> varint_prefix(s) is None,
        s.len() >= 1 && s[0] < 64 ==> varint_prefix(s) == Some((s[0] as nat, 1nat)),
        s.len() >= 1 && 64 <= s[0] < 128 ==> varint_prefix(s) == (if s.len() < 2 {
            None
        } else {
            Some((((s[0] - 64) * 0x100 + s[1]) as nat, 2nat))
        }),
        s.len() >= 1 && 128 <= s[0] < 192 ==> varint_prefix(s) == (if s.len() < 4 {
            None
        } else {
            Some(
                (
                    ((s[0] - 128) * 0x100_0000 + s[1] * 0x1_0000 + s[2] * 0x100 + s[3]) as nat,
                    4nat,
                ),
            )
        }),
        s.len() >= 1 && s[0] >= 192 ==> (varint_prefix(s) is None <==> s.len() < 8),
        s.len() >= 8 && s[0] >= 192 ==> varint_prefix(s) == Some(
            (
                ((s[0] - 192) * 0x100_0000_0000_0000 + s[1] * 0x1_0000_0000_0000 + s[2]
                    * 0x100_0000_0000 + s[3] * 0x1_0000_0000 + s[4] * 0x100_0000 + s[5] * 0x1_0000
                    + s[6] * 0x100 + s[7]) as nat,
                8nat,
            ),
        ),
{
    if varint_prefix(s) is Some {
        let n = varint_len(s[0]);
        let digits = seq![(s[0] % 64) as u8] + s.subrange(1, n as int);
        if n == 1 {
            lemma_be_1(digits);
        } else if n == 2 {
            lemma_be_2(digits);
        } else if n == 4 {
            lemma_be_4(digits);
        } else {
            lemma_be_8(digits);
        }
    }
}

/// A capsule that is not complete gives nothing and is kept as it is, however
/// much of it is there.
pub proof fn law_incomplete_capsule_waits(capsule_type: u64, value: Seq<u8>, k: int)
    requires
        capsule_type < 0x4000_0000_0000_0000,
        value.len() < 0x4000_0000_0000_0000,
        0 <= k < capsule_bytes(capsule_type, value).len(),
    ensures
        next_data(capsule_bytes(capsule_type, value).take(k)) == (
            None::<Seq<u8>>,
            capsule_bytes(capsule_type, value).take(k),
        ),
{
    let whole = capsule_bytes(capsule_type, value);
    let s = whole.take(k);
    let late = whole.skip(k);
    assert(s + late =~= whole);
    assert(whole + Seq::<u8>::empty() =~= whole);
    lemma_capsule_head_of_bytes(capsule_type, value, Seq::empty());
    if capsule_head(s) is Some {
        lemma_capsule_head_extends(s, late);
    }
}

/// A capsule is told by the number that it starts with, in whatever form that
/// is written, and the number behind it gives its length. A capsule of type
/// zero gives its value; one of another type is passed over.
pub proof fn law_capsules_by_their_heads(s: Seq<u8>, kind: nat, n: nat, length: nat, m: nat)
    requires
        varint_prefix(s) == Some((kind, n)),
        varint_prefix(s.skip(n as int)) == Some((length, m)),
    ensures
        s.len() < n + m + length ==> next_data(s) == (None::<Seq<u8>>, s),
        s.len() >= n + m + length && kind == 0 ==> next_data(s) == (
            Some(s.subrange((n + m) as int, (n + m + length) as int)),
            s.skip((n + m + length) as int),
        ),
        s.len() >= n + m + length && kind != 0 ==> next_data(s) == next_data(
            s.skip((n + m + length) as int),
        ),
{
}

/// The types of capsules are numbered from zero on.
pub proof fn law_capsule_types()
    ensures
        CAPSULE_CONNECT_IP_DATA == 0,
        CAPSULE_ADDRESS_ASSIGN == 1,
        CAPSULE_ADDRESS_REQUEST == 2,
        CAPSULE_ROUTE_ADVERTISEMENT == 3,
        CAPSULE_CONNECT_IP_REQUEST == 4,
        forall|payload: Seq<u8>|
            64 <= payload.len() < 16384 ==> #[trigger] capsule_bytes(0, payload).len()
                == CAPSULE_OVERHEAD + payload.len(),
{
}

} // verus!
