use usque::ip::IpAddr;
use usque::phy::{ip_addresses, ChannelPhy, DEVICE_MTU, MAX_RECENT_SYNS};

fn ones_sum(parts: &[&[u8]]) -> u32 {
    let bytes: Vec<u8> = parts.concat();
    let mut sum: u32 = 0;
    for pair in bytes.chunks(2) {
        sum += u32::from(pair[0]) * 256 + u32::from(*pair.get(1).unwrap_or(&0));
        sum = sum % 65536 + sum / 65536;
    }
    sum
}

fn segment(sport: u16, dport: u16, seq: u32, ack: u32, flags: u8, payload: &[u8]) -> Vec<u8> {
    let mut t = Vec::new();
    t.extend_from_slice(&sport.to_be_bytes());
    t.extend_from_slice(&dport.to_be_bytes());
    t.extend_from_slice(&seq.to_be_bytes());
    t.extend_from_slice(&ack.to_be_bytes());
    t.extend_from_slice(&[0x50, flags, 0x12, 0x34, 0, 0, 0, 0]);
    t.extend_from_slice(payload);
    t
}

fn ipv4(src: [u8; 4], dst: [u8; 4], segment: &[u8]) -> Vec<u8> {
    let total = (20 + segment.len()) as u16;
    let mut p = vec![0x45, 0];
    p.extend_from_slice(&total.to_be_bytes());
    p.extend_from_slice(&[0, 1, 0x40, 0, 64, 6, 0, 0]);
    p.extend_from_slice(&src);
    p.extend_from_slice(&dst);
    p.extend_from_slice(segment);
    p
}

fn ipv6(src: [u8; 16], dst: [u8; 16], segment: &[u8]) -> Vec<u8> {
    let mut p = vec![0x60, 0, 0, 0];
    p.extend_from_slice(&(segment.len() as u16).to_be_bytes());
    p.extend_from_slice(&[6, 64]);
    p.extend_from_slice(&src);
    p.extend_from_slice(&dst);
    p.extend_from_slice(segment);
    p
}

const LOCAL: [u8; 4] = [10, 0, 0, 2];
const REMOTE: [u8; 4] = [93, 184, 216, 34];
const LOCAL6: [u8; 16] = [0x26, 6, 0, 0, 0, 0, 0, 0, 0, 0, 0, 0, 0, 0, 0, 2];
const REMOTE6: [u8; 16] = [0x2a, 4, 0, 0, 0, 0, 0, 0, 0, 0, 0, 0, 0, 0, 0, 9];

const SYN: u8 = 0x02;
const RST_ACK: u8 = 0x14;

fn through(phy: &mut ChannelPhy, packet: Vec<u8>) -> Vec<u8> {
    phy.push_rx(packet);
    let out = phy.receive().unwrap();
    assert!(phy.receive().is_none());
    out
}

#[test]
fn reset_of_a_sent_syn_is_raised() {
    let mut phy = ChannelPhy::new();
    phy.record_outbound(&ipv4(LOCAL, REMOTE, &segment(50000, 443, 1000, 0, SYN, &[])));
    let reset = ipv4(REMOTE, LOCAL, &segment(443, 50000, 0, 1000, RST_ACK, b"abc"));
    let out = through(&mut phy, reset.clone());
    assert_eq!(out.len(), reset.len());
    assert_eq!(&out[28..32], &1001u32.to_be_bytes());
    assert_eq!(&out[20..28], &reset[20..28]);
    assert_eq!(&out[40..], b"abc");
    // Both checksums are right.
    assert_eq!(ones_sum(&[&out[..20]]), 0xffff);
    let pseudo = [&out[12..20], &[0u8, 6, 0, 23][..]].concat();
    assert_eq!(ones_sum(&[&pseudo, &out[20..]]), 0xffff);
    // The SYN is forgotten: the same reset now passes as it is.
    assert_eq!(through(&mut phy, reset.clone()), reset);
}

#[test]
fn ipv6_reset_is_raised() {
    let mut phy = ChannelPhy::new();
    phy.record_outbound(&ipv6(LOCAL6, REMOTE6, &segment(50001, 80, 0xffff_ffff, 0, SYN, &[])));
    let reset = ipv6(REMOTE6, LOCAL6, &segment(80, 50001, 7, 0xffff_ffff, RST_ACK, &[]));
    let out = through(&mut phy, reset.clone());
    // The number wraps around.
    assert_eq!(&out[48..52], &[0, 0, 0, 0]);
    assert_eq!(&out[..40], &reset[..40]);
    let pseudo = [&out[8..40], &[0u8, 0, 0, 20, 0, 6][..]].concat();
    assert_eq!(ones_sum(&[&pseudo, &out[40..]]), 0xffff);
}

#[test]
fn ipv6_payload_without_a_length_reaches_to_the_end() {
    let mut phy = ChannelPhy::new();
    let mut syn = ipv6(LOCAL6, REMOTE6, &segment(50001, 80, 5, 0, SYN, &[]));
    syn[5] = 0;
    phy.record_outbound(&syn);
    let mut reset = ipv6(REMOTE6, LOCAL6, &segment(80, 50001, 7, 5, RST_ACK, b"x"));
    reset[5] = 0;
    let out = through(&mut phy, reset);
    assert_eq!(&out[48..52], &[0, 0, 0, 6]);
    let pseudo = [&out[8..40], &[0u8, 0, 0, 21, 0, 6][..]].concat();
    assert_eq!(ones_sum(&[&pseudo, &out[40..]]), 0xffff);
    // A length over the packet's makes it no packet.
    let mut cut = ipv6(REMOTE6, LOCAL6, &segment(80, 50001, 7, 5, RST_ACK, &[]));
    cut[5] = 21;
    assert_eq!(through(&mut phy, cut.clone()), cut);
}

#[test]
fn options_of_the_headers_are_kept() {
    let mut phy = ChannelPhy::new();
    phy.record_outbound(&ipv4(LOCAL, REMOTE, &segment(50000, 443, 1000, 0, SYN, &[])));
    let mut tcp = segment(443, 50000, 0, 1000, RST_ACK, &[1, 1, 1, 0]);
    tcp[12] = 0x60;
    let mut reset = ipv4(REMOTE, LOCAL, &tcp);
    reset[0] = 0x46;
    reset[3] += 4;
    reset.splice(20..20, [1, 1, 1, 0]);
    let out = through(&mut phy, reset.clone());
    assert_eq!(&out[32..36], &1001u32.to_be_bytes());
    assert_eq!(&out[20..24], &[1, 1, 1, 0]);
    assert_eq!(&out[44..48], &[1, 1, 1, 0]);
    assert_eq!(ones_sum(&[&out[..24]]), 0xffff);
    let pseudo = [&out[12..20], &[0u8, 6, 0, 24][..]].concat();
    assert_eq!(ones_sum(&[&pseudo, &out[24..]]), 0xffff);
}

#[test]
fn other_packets_pass() {
    let mut phy = ChannelPhy::new();
    phy.record_outbound(&ipv4(LOCAL, REMOTE, &segment(50000, 443, 1000, 0, SYN, &[])));
    let others = vec![
        // No packet at all, and one of another version.
        vec![],
        vec![0x50; 40],
        // Another acknowledgement number, port, address.
        ipv4(REMOTE, LOCAL, &segment(443, 50000, 0, 1001, RST_ACK, &[])),
        ipv4(REMOTE, LOCAL, &segment(444, 50000, 0, 1000, RST_ACK, &[])),
        ipv4(REMOTE, LOCAL, &segment(443, 50001, 0, 1000, RST_ACK, &[])),
        ipv4(LOCAL, REMOTE, &segment(443, 50000, 0, 1000, RST_ACK, &[])),
        // Other flags: without RST, without ACK, with one more.
        ipv4(REMOTE, LOCAL, &segment(443, 50000, 0, 1000, 0x10, &[])),
        ipv4(REMOTE, LOCAL, &segment(443, 50000, 0, 1000, 0x04, &[])),
        ipv4(REMOTE, LOCAL, &segment(443, 50000, 0, 1000, 0x16, &[])),
        ipv4(REMOTE, LOCAL, &segment(443, 50000, 0, 1000, 0x15, &[])),
        ipv4(REMOTE, LOCAL, &segment(443, 50000, 0, 1000, 0x1c, &[])),
        ipv4(REMOTE, LOCAL, &segment(443, 50000, 0, 1000, 0x34, &[])),
        ipv4(REMOTE, LOCAL, &segment(443, 50000, 0, 1000, 0x54, &[])),
        ipv4(REMOTE, LOCAL, &segment(443, 50000, 0, 1000, 0x94, &[])),
    ];
    for packet in others {
        assert_eq!(through(&mut phy, packet.clone()), packet);
    }
    // The nonce flag lies in the byte of the header length.
    let mut nonce = ipv4(REMOTE, LOCAL, &segment(443, 50000, 0, 1000, RST_ACK, &[]));
    nonce[32] = 0x51;
    assert_eq!(through(&mut phy, nonce.clone()), nonce);
    // A fragment has no segment of its own.
    let mut fragment = ipv4(REMOTE, LOCAL, &segment(443, 50000, 0, 1000, RST_ACK, &[]));
    fragment[6] = 0x20;
    assert_eq!(through(&mut phy, fragment.clone()), fragment);
    // The SYN is still remembered.
    let reset = ipv4(REMOTE, LOCAL, &segment(443, 50000, 0, 1000, RST_ACK, &[]));
    assert_ne!(through(&mut phy, reset.clone()), reset);
}

#[test]
fn only_first_segments_are_remembered() {
    let mut phy = ChannelPhy::new();
    for flags in [0x12u8, 0x06, 0x10, 0x00] {
        phy.record_outbound(&ipv4(LOCAL, REMOTE, &segment(50000, 443, 1000, 0, flags, &[])));
    }
    let reset = ipv4(REMOTE, LOCAL, &segment(443, 50000, 0, 1000, RST_ACK, &[]));
    assert_eq!(through(&mut phy, reset.clone()), reset);
}

#[test]
fn the_oldest_syn_makes_room() {
    let mut phy = ChannelPhy::new();
    let count = MAX_RECENT_SYNS as u16 + 1;
    for i in 0..count {
        phy.record_outbound(&ipv4(LOCAL, REMOTE, &segment(50000 + i, 443, 77, 0, SYN, &[])));
    }
    for i in 0..count {
        let reset = ipv4(REMOTE, LOCAL, &segment(443, 50000 + i, 0, 77, RST_ACK, &[]));
        let raised = through(&mut phy, reset.clone()) != reset;
        assert_eq!(raised, i > 0);
    }
}

#[test]
fn packets_wait_in_order() {
    let mut phy = ChannelPhy::new();
    assert!(phy.receive().is_none());
    phy.push_rx(vec![1]);
    phy.push_rx(vec![2, 3]);
    assert_eq!(phy.receive(), Some(vec![1]));
    assert_eq!(phy.receive(), Some(vec![2, 3]));
    assert_eq!(phy.receive(), None);
    assert_eq!(DEVICE_MTU, 1280);
}

#[test]
fn reserved_bits_are_cleared_on_the_way() {
    let mut phy = ChannelPhy::new();
    phy.record_outbound(&ipv4(LOCAL, REMOTE, &segment(50000, 443, 1000, 0, SYN, &[])));
    let mut reset = ipv4(REMOTE, LOCAL, &segment(443, 50000, 0, 1000, RST_ACK, &[]));
    reset[32] = 0x5e;
    let out = through(&mut phy, reset);
    assert_eq!(out[32], 0x50);
    let pseudo = [&out[12..20], &[0u8, 6, 0, 20][..]].concat();
    assert_eq!(ones_sum(&[&pseudo, &out[20..]]), 0xffff);
}

#[test]
fn addresses_of_packets() {
    let p = ipv4(LOCAL, REMOTE, &[]);
    assert_eq!(ip_addresses(&p), (IpAddr::V4(0x0a00_0002), IpAddr::V4(0x5db8_d822)));
    let p = ipv6(LOCAL6, REMOTE6, &[]);
    assert_eq!(
        ip_addresses(&p),
        (IpAddr::V6(u128::from_be_bytes(LOCAL6)), IpAddr::V6(u128::from_be_bytes(REMOTE6)))
    );
}
