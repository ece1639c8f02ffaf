use bytes::{Bytes, BytesMut};
use usque::datagram::{
    decode_h3_datagram_payload_owned, decrement_ttl, encode_h2_datagram_capsule_into,
    encode_h3_datagram_payload_into, TtlError,
};

fn loopback_packet() -> Vec<u8> {
    vec![
        0x45, 0x00, 0x00, 0x14, 0x00, 0x00, 0x40, 0x00, 0x40, 0x06, 0x00, 0x00, 0x7f, 0x00, 0x00,
        0x01, 0x7f, 0x00, 0x00, 0x01,
    ]
}

fn word_sum(bytes: &[u8]) -> u32 {
    bytes
        .chunks(2)
        .map(|w| u32::from(w[0]) * 256 + u32::from(w[1]))
        .sum()
}

#[test]
fn h3_datagram_roundtrip() {
    let mut packet = vec![
        0x45, 0x00, 0x00, 0x14, 0x00, 0x00, 0x40, 0x00, 0x40, 0x06, 0x00, 0x00, 0x7f, 0x00,
        0x00, 0x01, 0x7f, 0x00, 0x00, 0x01,
    ];
    // Caller is responsible for the TTL decrement.
    assert!(decrement_ttl(&mut packet).is_ok());
    let mut out = BytesMut::new();
    encode_h3_datagram_payload_into(&packet, &mut out);
    let decoded = decode_h3_datagram_payload_owned(&out.freeze()).unwrap();
    // TTL was decremented from 0x40 (64) to 0x3f (63).
    assert_eq!(decoded[8], 0x3f);
}

#[test]
fn decode_zero_copy_aliases_input() {
    let mut packet = vec![
        0x45, 0x00, 0x00, 0x14, 0x00, 0x00, 0x40, 0x00, 0x40, 0x06, 0x00, 0x00, 0x7f, 0x00,
        0x00, 0x01, 0x7f, 0x00, 0x00, 0x01,
    ];
    assert!(decrement_ttl(&mut packet).is_ok());
    let mut encoded = BytesMut::new();
    encode_h3_datagram_payload_into(&packet, &mut encoded);
    let encoded = encoded.freeze();
    let decoded = decode_h3_datagram_payload_owned(&encoded).unwrap();
    // Skip the varint prefix (1 byte for context id 0).
    let prefix = 1;
    assert_eq!(
        decoded.as_ptr(),
        encoded[prefix..].as_ptr(),
        "decoded Bytes must alias the encoded buffer"
    );
}

#[test]
fn ttl_and_checksum_are_exact() {
    let mut packet = loopback_packet();
    assert!(decrement_ttl(&mut packet).is_ok());
    let mut expected = loopback_packet();
    expected[8] = 0x3f;
    expected[10] = 0x3d;
    expected[11] = 0xe2;
    assert_eq!(packet, expected);
}

#[test]
fn hop_gives_valid_checksum_and_keeps_the_rest() {
    // A header with options, a wrong checksum and the reserved flag set.
    let mut packet = vec![0u8; 30];
    packet[0] = 0x46;
    packet[3] = 30;
    packet[6] = 0xc0;
    packet[8] = 2;
    packet[9] = 17;
    packet[10] = 0xde;
    packet[11] = 0xad;
    for (i, b) in packet.iter_mut().enumerate().skip(12) {
        *b = i as u8;
    }
    let before = packet.clone();
    assert!(decrement_ttl(&mut packet).is_ok());
    assert_eq!(word_sum(&packet[..24]) % 65535, 0);
    assert_eq!(packet[8], 1);
    assert_eq!(packet[6], 0x40);
    assert_eq!(&packet[..6], &before[..6]);
    assert_eq!(packet[7], before[7]);
    assert_eq!(packet[9], before[9]);
    assert_eq!(&packet[12..], &before[12..]);
}

#[test]
fn ipv6_hop_limit_is_decremented() {
    let mut packet = vec![0u8; 44];
    packet[0] = 0x60;
    packet[7] = 64;
    let before = packet.clone();
    assert!(decrement_ttl(&mut packet).is_ok());
    assert_eq!(packet[7], 63);
    assert_eq!(&packet[8..], &before[8..]);
    assert_eq!(&packet[..7], &before[..7]);
}

#[test]
fn each_ttl_error() {
    let message = |packet: &mut [u8]| decrement_ttl(packet).err().unwrap().message();

    assert!(matches!(decrement_ttl(&mut []), Err(TtlError::Empty)));
    assert_eq!(message(&mut []), "empty IP packet");

    let mut short = loopback_packet()[..19].to_vec();
    assert!(matches!(decrement_ttl(&mut short), Err(TtlError::MalformedIpv4(_))));
    let text = message(&mut short);
    assert!(text.starts_with("failed to parse IPv4 packet: "));
    assert!(text.len() > "failed to parse IPv4 packet: ".len());

    let mut expired = loopback_packet();
    expired[8] = 1;
    assert!(matches!(decrement_ttl(&mut expired), Err(TtlError::TtlTooSmall(1))));
    assert_eq!(message(&mut expired), "IPv4 TTL too small: 1");
    assert_eq!(expired[8], 1);

    let mut short6 = vec![0x60u8; 39];
    assert!(matches!(decrement_ttl(&mut short6), Err(TtlError::Ipv6TooShort)));
    assert_eq!(message(&mut short6), "IPv6 packet too short");

    let mut expired6 = vec![0u8; 40];
    expired6[0] = 0x60;
    assert!(matches!(decrement_ttl(&mut expired6), Err(TtlError::HopLimitTooSmall(0))));
    assert_eq!(message(&mut expired6), "IPv6 hop limit too small: 0");

    let mut other = vec![0x50u8; 40];
    assert!(matches!(decrement_ttl(&mut other), Err(TtlError::UnknownVersion(5))));
    assert_eq!(message(&mut other), "unknown IP version: 5");
}

#[test]
fn incomplete_ipv4_packets_are_refused() {
    // A header length under twenty bytes.
    let mut packet = loopback_packet();
    packet[0] = 0x44;
    assert!(matches!(decrement_ttl(&mut packet), Err(TtlError::MalformedIpv4(_))));
    // A total length under the header length.
    let mut packet = loopback_packet();
    packet[3] = 19;
    assert!(matches!(decrement_ttl(&mut packet), Err(TtlError::MalformedIpv4(_))));
    // A total length over the packet's.
    let mut packet = loopback_packet();
    packet[3] = 21;
    assert!(matches!(decrement_ttl(&mut packet), Err(TtlError::MalformedIpv4(_))));
    // An authentication header that is missing, too short, cut off, complete.
    let mut packet = loopback_packet();
    packet[9] = 51;
    assert!(matches!(decrement_ttl(&mut packet), Err(TtlError::MalformedIpv4(_))));
    packet.extend_from_slice(&[6, 0, 0, 0, 0, 0, 0, 1, 0, 0, 0, 2]);
    packet[3] = 32;
    assert!(matches!(decrement_ttl(&mut packet), Err(TtlError::MalformedIpv4(_))));
    packet[21] = 2;
    assert!(matches!(decrement_ttl(&mut packet), Err(TtlError::MalformedIpv4(_))));
    packet[21] = 1;
    assert!(decrement_ttl(&mut packet).is_ok());
    // Bytes behind the total length do not matter.
    let mut packet = loopback_packet();
    packet.push(0xff);
    assert!(decrement_ttl(&mut packet).is_ok());
    assert_eq!(packet[20], 0xff);
}

#[test]
fn payloads_of_other_contexts_are_dropped() {
    let none = |bytes: &'static [u8]| {
        assert!(decode_h3_datagram_payload_owned(&Bytes::from_static(bytes)).is_none())
    };
    none(&[]);
    none(&[0]);
    none(&[1, 2, 3]);
    none(&[0x80]);
    none(&[0x80, 0x00]);
    none(&[0x80, 0x80, 0x80, 0x80, 0x80, 0x80, 0x80, 0x80, 0x80, 0x80, 0x00, 1]);
    none(&[0x80, 0x80, 0x80, 0x80, 0x80, 0x80, 0x80, 0x80, 0x80, 0x01, 1]);
}

#[test]
fn long_forms_of_the_context_are_read() {
    let some = |bytes: &'static [u8], packet: &[u8]| {
        let out = decode_h3_datagram_payload_owned(&Bytes::from_static(bytes)).unwrap();
        assert_eq!(&out[..], packet);
    };
    some(&[0x00, 7], &[7]);
    some(&[0x80, 0x00, 7, 8], &[7, 8]);
    some(&[0x80, 0x80, 0x80, 0x80, 0x80, 0x80, 0x80, 0x80, 0x80, 0x00, 9], &[9]);
    // The tenth group keeps one bit of seven.
    some(&[0x80, 0x80, 0x80, 0x80, 0x80, 0x80, 0x80, 0x80, 0x80, 0x02, 9], &[9]);
}

#[test]
fn h2_form_is_a_data_capsule() {
    let mut out = BytesMut::new();
    encode_h2_datagram_capsule_into(&[1, 2, 3], &mut out);
    assert_eq!(&out[..], &[0, 3, 1, 2, 3]);
}

#[test]
fn h3_form_has_a_context_in_front() {
    let mut out = BytesMut::new();
    encode_h3_datagram_payload_into(&[1, 2, 3], &mut out);
    assert_eq!(&out[..], &[0, 1, 2, 3]);
    assert_eq!(&decode_h3_datagram_payload_owned(&out.freeze()).unwrap()[..], &[1, 2, 3]);
}
