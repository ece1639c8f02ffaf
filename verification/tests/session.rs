use std::collections::VecDeque;

use bytes::{Bytes, BytesMut};
use usque::capsule::{put_capsule, CapsuleReader, CAPSULE_ADDRESS_ASSIGN, CAPSULE_CONNECT_IP_DATA};
use usque::datagram::decode_h3_datagram_payload_owned;
use usque::session::{
    receive_body, receive_control, ConnectIpSession, ReadStep, Transport,
};

fn sample_packet() -> Bytes {
    // A minimal valid IPv4 TCP packet: version=4, ihl=5, ttl=63, proto=6
    // (TCP), total_length=20. 20 bytes of header, no payload.
    let mut pkt = vec![0u8; 20];
    pkt[0] = 0x45;
    pkt[2] = 0x00;
    pkt[3] = 0x14; // total_length = 20
    pkt[8] = 63; // TTL (already decremented)
    pkt[9] = 6; // TCP
    Bytes::from(pkt)
}

#[test]
fn write_packet_uses_capsule_layout_for_h2() {
    let mut session =
        ConnectIpSession::with_capacity(VecDeque::new(), Transport::H2, false, 1500);

    let pkt = sample_packet();
    let wire = session.write_packet(pkt.clone());
    // Capsule type 0 -> varint byte 0x00.
    assert_eq!(wire[0], 0x00);
    // Capsule length 20 -> varint byte 0x14.
    assert_eq!(wire[1], 0x14);
    // Payload: packet body is passed through as-is.
    assert_eq!(&wire[2..], &pkt[..]);
    assert_eq!(wire[2 + 8], 63);
}

#[test]
fn read_packet_returns_queued_bytes() {
    let expected = sample_packet();
    let mut incoming: VecDeque<Bytes> = VecDeque::new();
    incoming.push_back(expected.clone());
    let mut session = ConnectIpSession::with_capacity(incoming, Transport::H2, false, 1500);

    let got = match session.read_packet() {
        ReadStep::Packet(packet) => packet,
        _ => panic!("expected a packet"),
    };
    // Aliases the same allocation: the Bytes is a direct slice of
    // the queued buffer.
    assert_eq!(got.as_ptr(), expected.as_ptr());
    assert_eq!(&got[..], &expected[..]);
}

#[test]
fn write_packet_reuses_scratch_across_calls() {
    let mut session =
        ConnectIpSession::with_capacity(VecDeque::new(), Transport::H2, false, 1500);
    for _ in 0..16 {
        let wire = session.write_packet(sample_packet());
        assert_eq!(wire.len(), 22);
    }
    // The scratch is back to empty (cleared after each split).
    assert_eq!(session.scratch_len(), 0);
}

#[test]
fn h3_frames_read_back() {
    let mut session = ConnectIpSession::new(Transport::H3Quiche);
    let wire = session.write_packet(sample_packet());
    assert_eq!(wire[0], 0);
    assert_eq!(decode_h3_datagram_payload_owned(&wire).unwrap(), sample_packet());
}

#[test]
fn h2_frames_read_back() {
    let mut session = ConnectIpSession::new(Transport::H2);
    let wire = session.write_packet(sample_packet());
    let mut reader = CapsuleReader::new();
    assert_eq!(receive_body(&mut reader, wire), vec![sample_packet()]);
}

#[test]
fn queued_packets_come_before_the_end() {
    let mut session = ConnectIpSession::new(Transport::H2);
    assert!(matches!(session.read_packet(), ReadStep::Wait));
    session.enqueue(Bytes::from_static(b"one"));
    session.enqueue(Bytes::from_static(b"two"));
    assert_eq!(session.incoming_queue().len(), 2);
    assert!(!session.closed_flag());
    session.close();
    assert!(session.closed_flag());
    for expected in [&b"one"[..], &b"two"[..]] {
        match session.read_packet() {
            ReadStep::Packet(packet) => assert_eq!(&packet[..], expected),
            _ => panic!("expected a packet"),
        }
    }
    assert!(matches!(session.read_packet(), ReadStep::Closed));
}

#[test]
fn body_gives_complete_packets_only() {
    let mut body = BytesMut::new();
    put_capsule(&mut body, CAPSULE_CONNECT_IP_DATA, b"first");
    put_capsule(&mut body, CAPSULE_ADDRESS_ASSIGN, b"x");
    put_capsule(&mut body, CAPSULE_CONNECT_IP_DATA, b"second");
    let body = body.freeze();
    let mut reader = CapsuleReader::new();
    let cut = body.len() - 3;
    assert_eq!(receive_body(&mut reader, body.slice(..cut)), vec![Bytes::from_static(b"first")]);
    assert_eq!(receive_body(&mut reader, Bytes::new()), Vec::<Bytes>::new());
    assert_eq!(receive_body(&mut reader, body.slice(cut..)), vec![Bytes::from_static(b"second")]);
    assert_eq!(reader.held_len(), 0);
}

#[test]
fn body_in_many_pieces() {
    let mut body = BytesMut::new();
    put_capsule(&mut body, CAPSULE_CONNECT_IP_DATA, &[5u8; 40]);
    let body = body.freeze();
    let mut reader = CapsuleReader::new();
    for i in 0..body.len() - 1 {
        assert!(receive_body(&mut reader, body.slice(i..i + 1)).is_empty());
    }
    assert!(reader.chunk_count() > 16);
    let out = receive_body(&mut reader, body.slice(body.len() - 1..));
    assert_eq!(out, vec![Bytes::from(vec![5u8; 40])]);
    assert_eq!(reader.chunk_count(), 0);
}

#[test]
fn control_stream_ends_with_fin() {
    let mut control = BytesMut::new();
    put_capsule(&mut control, CAPSULE_CONNECT_IP_DATA, b"dropped");
    let control = control.freeze();
    let mut reader = CapsuleReader::new();
    assert!(!receive_control(&mut reader, control.slice(..3), false));
    assert_eq!(reader.held_len(), 3);
    assert!(receive_control(&mut reader, control.slice(3..), true));
    assert_eq!(reader.held_len(), 0);
}
