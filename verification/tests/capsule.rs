use bytes::{Bytes, BytesMut};
use usque::capsule::{
    decode_varint, put_capsule, put_varint, CapsuleReader, CAPSULE_ADDRESS_ASSIGN,
    CAPSULE_CONNECT_IP_DATA, CAPSULE_ROUTE_ADVERTISEMENT,
};

fn encode_varint_vec(value: u64) -> Vec<u8> {
    let mut out = BytesMut::new();
    put_varint(&mut out, value);
    out.to_vec()
}

fn encode_capsule_vec(capsule_type: u64, value: &[u8]) -> Vec<u8> {
    let mut out = encode_varint_vec(capsule_type);
    out.extend_from_slice(&encode_varint_vec(value.len() as u64));
    out.extend_from_slice(value);
    out
}

#[test]
fn varint_roundtrip() {
    let mut buf = BytesMut::new();
    put_varint(&mut buf, 300);
    let (value, len) = decode_varint(&buf).unwrap();
    assert_eq!(value, 300);
    assert_eq!(len, buf.len());
}

#[test]
fn read_ip_packet() {
    let packet = b"\x45\x00\x00\x1c";
    let frame = encode_capsule_vec(CAPSULE_CONNECT_IP_DATA, packet);
    let mut reader = CapsuleReader::new();
    reader.push(Bytes::from(frame));
    let out = reader.next_ip_packet().unwrap();
    assert_eq!(&out[..], packet);
}

#[test]
fn skip_non_data_capsules() {
    let packet = b"\x45\x00\x00\x1c";
    let assign = encode_capsule_vec(CAPSULE_ADDRESS_ASSIGN, b"\x00");
    let data = encode_capsule_vec(CAPSULE_CONNECT_IP_DATA, packet);
    let mut buf = BytesMut::new();
    buf.extend_from_slice(&assign);
    buf.extend_from_slice(&data);
    let mut reader = CapsuleReader::new();
    reader.push(buf.freeze());
    let out = reader.next_ip_packet().unwrap();
    assert_eq!(&out[..], packet);
}

#[test]
fn fragment_across_pushes() {
    let packet = b"\x45\x00\x00\x1c";
    let frame = encode_capsule_vec(CAPSULE_CONNECT_IP_DATA, packet);
    // Split the frame across two push() calls.
    let split = frame.len() / 2;
    let mut reader = CapsuleReader::new();
    reader.push(Bytes::from(frame[..split].to_vec()));
    assert!(reader.next_ip_packet().is_none());
    reader.push(Bytes::from(frame[split..].to_vec()));
    let out = reader.next_ip_packet().unwrap();
    assert_eq!(&out[..], packet);
}

#[test]
fn compact_drops_drained_chunks() {
    let packet = b"\x45\x00\x00\x1c";
    let frame = encode_capsule_vec(CAPSULE_CONNECT_IP_DATA, packet);
    let mut reader = CapsuleReader::new();
    reader.push(Bytes::from(frame.clone()));
    let _ = reader.next_ip_packet().unwrap();
    reader.compact();
    assert_eq!(reader.chunk_count(), 0);
}

#[test]
fn single_chunk_zero_copy_alias() {
    // When the entire capsule payload lives inside one pushed chunk, the
    // returned slice must alias the source buffer.
    let packet = b"\x45\x00\x00\x1c";
    let frame = encode_capsule_vec(CAPSULE_CONNECT_IP_DATA, packet);
    let frame_bytes = Bytes::from(frame);
    // Compute the expected pointer to the payload region.
    let header_len = 1 /* type varint */ + 1 /* length varint */;
    let expected_ptr = frame_bytes[header_len..].as_ptr();

    let mut reader = CapsuleReader::new();
    reader.push(frame_bytes);
    let out = reader.next_ip_packet().unwrap();
    assert_eq!(out.as_ptr(), expected_ptr);
}

#[test]
fn varint_forms_are_exact() {
    assert_eq!(encode_varint_vec(0), vec![0x00]);
    assert_eq!(encode_varint_vec(63), vec![0x3f]);
    assert_eq!(encode_varint_vec(64), vec![0x40, 0x40]);
    assert_eq!(encode_varint_vec(16_383), vec![0x7f, 0xff]);
    assert_eq!(encode_varint_vec(16_384), vec![0x80, 0x00, 0x40, 0x00]);
    assert_eq!(encode_varint_vec(1_073_741_823), vec![0xbf, 0xff, 0xff, 0xff]);
    assert_eq!(
        encode_varint_vec(1_073_741_824),
        vec![0xc0, 0, 0, 0, 0x40, 0, 0, 0]
    );
    assert_eq!(
        encode_varint_vec(0x3fff_ffff_ffff_ffff),
        vec![0xff, 0xff, 0xff, 0xff, 0xff, 0xff, 0xff, 0xff]
    );
}

#[test]
fn varints_of_every_form_come_back() {
    for v in [0u64, 37, 63, 64, 15_293, 16_384, 494_878_333, 151_288_809_941_952_652] {
        let mut bytes = encode_varint_vec(v);
        let len = bytes.len();
        bytes.extend_from_slice(&[1, 2, 3]);
        assert_eq!(decode_varint(&bytes), Some((v, len)));
    }
}

#[test]
fn varint_keeps_62_bits() {
    // The largest form has no room for the two high bits.
    let bytes = encode_varint_vec(1 << 62);
    assert_eq!(decode_varint(&bytes), Some((0, 8)));
}

#[test]
fn short_varint_is_none() {
    assert_eq!(decode_varint(&[]), None);
    assert_eq!(decode_varint(&[0x40]), None);
    assert_eq!(decode_varint(&[0x80, 0, 0]), None);
    assert_eq!(decode_varint(&[0xc0, 0, 0, 0, 0, 0, 0]), None);
}

#[test]
fn put_capsule_layout() {
    let mut out = BytesMut::new();
    out.extend_from_slice(b"x");
    put_capsule(&mut out, CAPSULE_ROUTE_ADVERTISEMENT, &[7u8; 70]);
    assert_eq!(&out[..4], &[b'x', 0x03, 0x40, 70]);
    assert_eq!(&out[4..], &[7u8; 70]);
}

#[test]
fn header_split_across_chunks_is_read() {
    // The two-byte length is cut in the middle.
    let packet = vec![9u8; 100];
    let frame = encode_capsule_vec(CAPSULE_CONNECT_IP_DATA, &packet);
    let mut reader = CapsuleReader::new();
    for byte in &frame {
        assert!(reader.next_ip_packet().is_none());
        reader.push(Bytes::from(vec![*byte]));
    }
    assert_eq!(reader.chunk_count(), frame.len());
    assert_eq!(&reader.next_ip_packet().unwrap()[..], &packet[..]);
    assert_eq!(reader.chunk_count(), 0);
    assert_eq!(reader.held_len(), 0);
}

#[test]
fn a_stream_reads_back_in_order() {
    let items: Vec<Vec<u8>> = vec![vec![1], vec![], vec![2; 64], vec![3; 17_000]];
    let mut stream = BytesMut::new();
    for item in &items {
        put_capsule(&mut stream, CAPSULE_CONNECT_IP_DATA, item);
        put_capsule(&mut stream, 0x1234_5678, b"skipped");
    }
    let mut reader = CapsuleReader::default();
    reader.push(stream.freeze());
    for item in &items {
        assert_eq!(&reader.next_ip_packet().unwrap()[..], &item[..]);
    }
    assert!(reader.next_ip_packet().is_none());
    assert_eq!(reader.held_len(), 0);
}

#[test]
fn reading_piece_by_piece_gives_the_same() {
    let mut stream = BytesMut::new();
    put_capsule(&mut stream, CAPSULE_CONNECT_IP_DATA, b"first");
    put_capsule(&mut stream, CAPSULE_ADDRESS_ASSIGN, b"other");
    put_capsule(&mut stream, CAPSULE_CONNECT_IP_DATA, b"second");
    let stream = stream.freeze();
    for cut in 0..stream.len() + 1 {
        let mut reader = CapsuleReader::new();
        let mut got: Vec<Vec<u8>> = Vec::new();
        for piece in [stream.slice(..cut), stream.slice(cut..)] {
            reader.push(piece);
            while let Some(packet) = reader.next_ip_packet() {
                got.push(packet.to_vec());
            }
        }
        assert_eq!(got, vec![b"first".to_vec(), b"second".to_vec()]);
    }
}

#[test]
fn mixed_capsules_read_back_however_they_are_cut() {
    let items: Vec<(u64, Vec<u8>)> = vec![
        (CAPSULE_ADDRESS_ASSIGN, vec![7; 70]),
        (CAPSULE_CONNECT_IP_DATA, vec![1, 2, 3]),
        (0x3fff_ffff_ffff_ffff, vec![]),
        (CAPSULE_CONNECT_IP_DATA, vec![]),
        (CAPSULE_CONNECT_IP_DATA, vec![4; 100]),
        (CAPSULE_ROUTE_ADVERTISEMENT, vec![5; 9]),
    ];
    let mut stream = BytesMut::new();
    for (capsule_type, value) in &items {
        put_capsule(&mut stream, *capsule_type, value);
    }
    let stream = stream.freeze();
    let expected: Vec<Vec<u8>> = vec![vec![1, 2, 3], vec![], vec![4; 100]];
    for size in 1..stream.len() + 1 {
        let mut reader = CapsuleReader::new();
        let mut got: Vec<Vec<u8>> = Vec::new();
        for piece in stream.chunks(size) {
            reader.push(Bytes::copy_from_slice(piece));
            while let Some(packet) = reader.next_ip_packet() {
                got.push(packet.to_vec());
            }
        }
        assert_eq!(got, expected);
        assert_eq!(reader.held_len(), 0);
        reader.compact();
        assert_eq!(reader.chunk_count(), 0);
    }
}

#[test]
fn empty_chunks_are_not_stored() {
    let mut reader = CapsuleReader::new();
    reader.push(Bytes::new());
    assert_eq!(reader.chunk_count(), 0);
    reader.push(Bytes::from_static(b"\x00"));
    assert_eq!(reader.chunk_count(), 1);
    assert_eq!(reader.held_len(), 1);
}

#[test]
fn oversized_length_waits() {
    // A capsule that claims the longest length there is.
    let mut reader = CapsuleReader::new();
    reader.push(Bytes::from_static(&[0x00, 0xff, 0xff, 0xff, 0xff, 0xff, 0xff, 0xff, 0xff]));
    assert!(reader.next_ip_packet().is_none());
    assert_eq!(reader.held_len(), 9);
}
