//! A CONNECT-IP session over HTTP/2 or HTTP/3.

use std::collections::VecDeque;

use vstd::prelude::*;
use vstd::string::*;

use bytes::{Bytes, BytesMut};

use crate::buffer::{bytes_as_slice, bytes_mut_view, bytes_view, views};
use crate::capsule::{
    capsule_bytes, data_stream, law_stream_reads_back, leftover, lemma_data_consumes,
    lemma_leftover_settles, next_data, payloads, CapsuleReader, CAPSULE_CONNECT_IP_DATA,
    CAPSULE_OVERHEAD,
};
use crate::datagram::{
    encode_h2_datagram_capsule_into, encode_h3_datagram_payload_into, h3_packet, h3_payload,
    law_h3_roundtrip,
};

verus! {

/// Why a session came to an end.
pub enum SessionError {
    /// The session was closed.
    Closed,
    /// Something else failed.
    Other(String),
}

/// A session error, without the buffer that its text comes in.
pub enum SessionFailure {
    Closed,
    Other(Seq<char>),
}

impl SessionError {
    /// What the error says.
    pub open spec fn failure(&self) -> SessionFailure {
        match self {
            SessionError::Closed => SessionFailure::Closed,
            SessionError::Other(text) => SessionFailure::Other(text@),
        }
    }
}

/// How the packets of a session are framed.
#[derive(Clone, Copy, Debug, PartialEq, Eq, Structural)]
pub enum Transport {
    /// As HTTP/3 datagrams.
    H3Quiche,
    /// As DATA capsules in an HTTP/2 stream.
    H2,
}

/// A packet as it goes over the wire.
pub open spec fn framed(transport: Transport, packet: Seq<u8>) -> Seq<u8> {
    match transport {
        Transport::H3Quiche => h3_payload(packet),
        Transport::H2 => capsule_bytes(CAPSULE_CONNECT_IP_DATA, packet),
    }
}

/// What a session has for its reader.
pub enum ReadStep {
    /// A packet.
    Packet(Bytes),
    /// Nothing, and nothing will come: the session is closed.
    Closed,
    /// Nothing yet.
    Wait,
}

/// A CONNECT-IP session: the packets received and not yet read, whether it is
/// closed, and how packets are framed.
pub struct ConnectIpSession {
    incoming: VecDeque<Bytes>,
    closed: bool,
    transport: Transport,
    /// The buffer that packets are framed in, reused for every packet.
    scratch: BytesMut,
}

impl ConnectIpSession {
    /// The packets received and not yet read, in order.
    pub closed spec fn queue(&self) -> Seq<Seq<u8>> {
        views(self.incoming@)
    }

    /// Whether the session is closed.
    pub closed spec fn is_closed(&self) -> bool {
        self.closed
    }

    /// How packets are framed.
    pub closed spec fn framing(&self) -> Transport {
        self.transport
    }

    /// The bytes left in the framing buffer.
    pub closed spec fn scratch_bytes(&self) -> Seq<u8> {
        bytes_mut_view(self.scratch)
    }

    pub fn new(transport: Transport) -> (r: Self)
        ensures
            r.queue() == Seq::<Seq<u8>>::empty(),
            !r.is_closed(),
            r.framing() == transport,
            r.scratch_bytes() == Seq::<u8>::empty(),
    {
        let r = ConnectIpSession {
            incoming: VecDeque::new(),
            closed: false,
            transport,
            scratch: BytesMut::new(),
        };
        assert(r.queue() =~= Seq::<Seq<u8>>::empty());
        r
    }

    /// A session with room for packets of a given size in its framing buffer,
    /// and with packets that have come in already.
    pub fn with_capacity(
        incoming: VecDeque<Bytes>,
        transport: Transport,
        closed: bool,
        capacity: usize,
    ) -> (r: Self)
        requires
            capacity <= isize::MAX,
        ensures
            r.queue() == views(incoming@),
            r.is_closed() == closed,
            r.framing() == transport,
            r.scratch_bytes() == Seq::<u8>::empty(),
    {
        let mut scratch = BytesMut::new();
        scratch.reserve(capacity);
        ConnectIpSession { incoming, closed, transport, scratch }
    }

    /// The packets received and not yet read.
    pub fn incoming_queue(&self) -> (r: &VecDeque<Bytes>)
        ensures
            views(r@) == self.queue(),
    {
        &self.incoming
    }

    /// Whether the session is closed.
    pub fn closed_flag(&self) -> (r: bool)
        ensures
            r == self.is_closed(),
    {
        self.closed
    }

    /// The number of bytes left in the framing buffer.
    pub fn scratch_len(&self) -> (n: usize)
        ensures
            n == self.scratch_bytes().len(),
    {
        self.scratch.len()
    }

    /// Takes a packet that came in.
    pub fn enqueue(&mut self, packet: Bytes)
        ensures
            final(self).queue() == old(self).queue().push(bytes_view(packet)),
            final(self).is_closed() == old(self).is_closed(),
            final(self).framing() == old(self).framing(),
            final(self).scratch_bytes() == old(self).scratch_bytes(),
    {
        let ghost before = self.incoming@;
        self.incoming.push_back(packet);
        assert(views(self.incoming@) =~= views(before).push(bytes_view(packet)));
    }

    /// Gives the next packet. Those that came in before the session was closed
    /// are given before the end is.
    pub fn read_packet(&mut self) -> (r: ReadStep)
        ensures
            final(self).is_closed() == old(self).is_closed(),
            final(self).framing() == old(self).framing(),
            final(self).scratch_bytes() == old(self).scratch_bytes(),
            match r {
                ReadStep::Packet(b) => old(self).queue().len() > 0 && bytes_view(b) == old(
                    self,
                ).queue()[0] && final(self).queue() == old(self).queue().drop_first(),
                ReadStep::Closed => old(self).queue().len() == 0 && old(self).is_closed()
                    && final(self).queue() == old(self).queue(),
                ReadStep::Wait => old(self).queue().len() == 0 && !old(self).is_closed()
                    && final(self).queue() == old(self).queue(),
            },
    {
        let ghost before = self.incoming@;
        match self.incoming.pop_front() {
            Some(packet) => {
                assert(views(self.incoming@) =~= views(before).drop_first());
                ReadStep::Packet(packet)
            },
            None => if self.closed {
                ReadStep::Closed
            } else {
                ReadStep::Wait
            },
        }
    }

    /// Frames a packet for the wire.
    pub fn write_packet(&mut self, packet: Bytes) -> (wire: Bytes)
        requires
            bytes_view(packet).len() + 16 <= isize::MAX,
        ensures
            bytes_view(wire) == framed(old(self).framing(), bytes_view(packet)),
            final(self).queue() == old(self).queue(),
            final(self).is_closed() == old(self).is_closed(),
            final(self).framing() == old(self).framing(),
            final(self).scratch_bytes() == Seq::<u8>::empty(),
    {
        self.scratch.clear();
        let bytes = bytes_as_slice(&packet);
        match self.transport {
            Transport::H3Quiche => {
                self.scratch.reserve(1 + bytes.len());
                encode_h3_datagram_payload_into(bytes, &mut self.scratch);
            },
            Transport::H2 => {
                self.scratch.reserve(CAPSULE_OVERHEAD + bytes.len());
                encode_h2_datagram_capsule_into(bytes, &mut self.scratch);
            },
        }
        assert(bytes_mut_view(self.scratch) =~= framed(self.transport, bytes@));
        self.scratch.split().freeze()
    }

    /// Closes the session.
    pub fn close(&mut self)
        ensures
            final(self).is_closed(),
            final(self).queue() == old(self).queue(),
            final(self).framing() == old(self).framing(),
            final(self).scratch_bytes() == old(self).scratch_bytes(),
    {
        self.closed = true;
    }
}

/// Takes a piece of an HTTP/2 response body and returns the packets that are
/// complete with it, in order. Where there is one and the body has come in
/// more than sixteen pieces, pieces that are used up are dropped.
pub fn receive_body(reader: &mut CapsuleReader, data: Bytes) -> (out: Vec<Bytes>)
    requires
        old(reader).wf(),
        old(reader).held() + bytes_view(data).len() <= isize::MAX,
    ensures
        final(reader).wf(),
        views(out@) == payloads(old(reader).pending() + bytes_view(data)),
        final(reader).pending() == leftover(old(reader).pending() + bytes_view(data)),
        final(reader).held() <= old(reader).held() + bytes_view(data).len(),
        out@.len() > 0 && final(reader).chunk_total() > 16 ==> final(reader).compacted(),
{
    let ghost all = reader.pending() + bytes_view(data);
    reader.push(data);
    let mut out: Vec<Bytes> = Vec::new();
    assert(views(out@) + payloads(all) =~= payloads(all));
    loop
        invariant_except_break
            reader.wf(),
            payloads(all) == views(out@) + payloads(reader.pending()),
            leftover(all) == leftover(reader.pending()),
            reader.held() <= old(reader).held() + bytes_view(data).len(),
        ensures
            payloads(all) == views(out@),
            leftover(all) == reader.pending(),
            reader.wf(),
            reader.held() <= old(reader).held() + bytes_view(data).len(),
        decreases reader.pending().len(),
    {
        let ghost s = reader.pending();
        proof {
            lemma_data_consumes(s);
        }
        match reader.next_ip_packet() {
            Some(packet) => {
                let ghost before = out@;
                out.push(packet);
                proof {
                    let rest = next_data(s).1;
                    assert(views(out@) =~= views(before).push(bytes_view(packet)));
                    assert(payloads(s) == seq![bytes_view(packet)] + payloads(rest));
                    assert(views(before) + payloads(s) =~= views(out@) + payloads(rest));
                }
            },
            None => {
                assert(payloads(s) =~= Seq::<Seq<u8>>::empty());
                assert(views(out@) + payloads(s) =~= views(out@));
                proof {
                    lemma_leftover_settles(s);
                }
                break;
            },
        }
    }
    if out.len() > 0 && reader.chunk_count() > 16 {
        reader.compact();
    }
    out
}

/// Takes a piece of the body of the HTTP/3 control stream: what it completes
/// is dropped. Returns whether the stream is over.
pub fn receive_control(reader: &mut CapsuleReader, data: Bytes, fin: bool) -> (done: bool)
    requires
        old(reader).wf(),
        old(reader).held() + bytes_view(data).len() <= isize::MAX,
    ensures
        final(reader).wf(),
        final(reader).pending() == next_data(old(reader).pending() + bytes_view(data)).1,
        done == fin,
{
    reader.push(data);
    let _ = reader.next_ip_packet();
    fin
}

/// What either transport frames, the receiving end of that transport takes
/// apart again: one frame, one packet. (An empty packet has no HTTP/3 form.)
pub proof fn law_frames_read_back(packet: Seq<u8>)
    requires
        0 < packet.len() < 0x4000_0000_0000_0000,
    ensures
        h3_packet(framed(Transport::H3Quiche, packet)) == Some(packet),
        payloads(framed(Transport::H2, packet)) == seq![packet],
{
    law_h3_roundtrip(packet);
    law_stream_reads_back(seq![packet]);
    assert(data_stream(seq![packet]) =~= framed(Transport::H2, packet)) by {
        assert(seq![packet].drop_first() =~= Seq::<Seq<u8>>::empty());
        assert(data_stream(Seq::<Seq<u8>>::empty()) =~= Seq::<u8>::empty());
    }
}

/// Over HTTP/3 a packet goes out behind a zero byte. Over HTTP/2 it goes out
/// behind a zero byte and its length: in one byte below 64, and in two below
/// 16384, of which the first has 64 added.
pub proof fn law_frames_by_their_bytes(packet: Seq<u8>)
    ensures
        framed(Transport::H3Quiche, packet) == seq![0u8] + packet,
        packet.len() < 64 ==> framed(Transport::H2, packet) == seq![0u8, packet.len() as u8]
            + packet,
        64 <= packet.len() < 16384 ==> framed(Transport::H2, packet) == seq![
            0u8,
            (64 + packet.len() / 256) as u8,
            (packet.len() % 256) as u8,
        ] + packet,
{
    assert(framed(Transport::H3Quiche, packet) =~= seq![0u8] + packet);
    if packet.len() < 64 {
        assert(framed(Transport::H2, packet) =~= seq![0u8, packet.len() as u8] + packet);
    } else if packet.len() < 16384 {
        assert(framed(Transport::H2, packet) =~= seq![
            0u8,
            (64 + packet.len() / 256) as u8,
            (packet.len() % 256) as u8,
        ] + packet);
    }
}

} // verus!
