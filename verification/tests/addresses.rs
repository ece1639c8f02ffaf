use usque::ip::{
    format_ip, format_socket_addr, host_port_addr, parse_ip, parse_socket_addr, IpAddr, SocketAddr,
};
use usque::octets::{be_number, be_u16_at, be_u32_at};
use usque::text::{
    decimal, is_white_space, join_strings, parse_u16, push_hex_byte, split_text, str_eq, trimmed,
};

#[test]
fn addresses_are_read() {
    for (text, ip) in [
        ("0.0.0.0", IpAddr::V4(0x0000_0000)),
        ("255.255.255.255", IpAddr::V4(0xffff_ffff)),
        ("1.2.3.4", IpAddr::V4(0x0102_0304)),
        ("::", IpAddr::V6(0x0000_0000_0000_0000_0000_0000_0000_0000)),
        ("::1", IpAddr::V6(0x0000_0000_0000_0000_0000_0000_0000_0001)),
        ("1::", IpAddr::V6(0x0001_0000_0000_0000_0000_0000_0000_0000)),
        ("2606:4700:103::", IpAddr::V6(0x2606_4700_0103_0000_0000_0000_0000_0000)),
        ("2620:fe::fe", IpAddr::V6(0x2620_00fe_0000_0000_0000_0000_0000_00fe)),
        ("1:2:3:4:5:6:7:8", IpAddr::V6(0x0001_0002_0003_0004_0005_0006_0007_0008)),
        ("1:2:3:4:5:6:7::", IpAddr::V6(0x0001_0002_0003_0004_0005_0006_0007_0000)),
        ("::2:3:4:5:6:7:8", IpAddr::V6(0x0000_0002_0003_0004_0005_0006_0007_0008)),
        ("::ffff:1.2.3.4", IpAddr::V6(0x0000_0000_0000_0000_0000_ffff_0102_0304)),
        ("::1.2.3.4", IpAddr::V6(0x0000_0000_0000_0000_0000_0000_0102_0304)),
        ("1:2:3:4:5:6:1.2.3.4", IpAddr::V6(0x0001_0002_0003_0004_0005_0006_0102_0304)),
        ("ABCD:ef::", IpAddr::V6(0xabcd_00ef_0000_0000_0000_0000_0000_0000)),
        ("0:0:0:0:0:0:0:0", IpAddr::V6(0x0000_0000_0000_0000_0000_0000_0000_0000)),
        ("1:0:0:2:0:0:0:3", IpAddr::V6(0x0001_0000_0000_0002_0000_0000_0000_0003)),
        ("1:0:0:2:0:0:3:4", IpAddr::V6(0x0001_0000_0000_0002_0000_0000_0003_0004)),
        ("0001::00ff", IpAddr::V6(0x0001_0000_0000_0000_0000_0000_0000_00ff)),
    ] {
        assert_eq!(parse_ip(text), Some(ip), "{text:?}");
    }
}

#[test]
fn other_texts_are_no_addresses() {
    for text in [
        "01.2.3.4",
        "1.2.3",
        "1.2.3.4.5",
        "1.2.3.256",
        "1.2.3.",
        ".1.2.3",
        " 1.2.3.4",
        "1.2.3.4 ",
        "+1.2.3.4",
        "1.2.3.0004",
        "",
        "1:2:3:4:5:6:7",
        "1:2:3:4:5:6:7:8:9",
        "1:2:3:4:5:6::7:8",
        "1::3::5",
        ":::",
        ":1",
        "1:",
        "12345::",
        "g::",
        "1:2:3:4:5:6:7:1.2.3.4",
        "1.2.3.4::",
        "::1.2.3",
        "fe80::1%1",
        "[::1]",
    ] {
        assert_eq!(parse_ip(text), None, "{text:?}");
    }
}

#[test]
fn addresses_are_written() {
    for text in [
        "0.0.0.0",
        "255.255.255.255",
        "100.96.0.1",
        "::",
        "::1",
        "1::",
        "2606:4700:103::",
        "2620:fe::fe",
        "1:2:3:4:5:6:7:8",
        "1:2:3:4:5:6:7:0",
        "0:2:3:4:5:6:7:8",
        "::ffff:1.2.3.4",
        "::102:304",
        "abcd:ef::",
        "1:0:0:2::3",
        "1::2:0:0:3:4",
        "::1:0:0:0",
        "ffff:ffff:ffff:ffff:ffff:ffff:ffff:ffff",
    ] {
        assert_eq!(format_ip(parse_ip(text).unwrap()), text);
    }
}

#[test]
fn socket_addresses_are_read() {
    let v4 = IpAddr::V4(0x0102_0304);
    let v6 = IpAddr::V6(1);
    for (text, addr) in [
        ("1.2.3.4:80", SocketAddr::new(v4, 80)),
        ("1.2.3.4:00080", SocketAddr::new(v4, 80)),
        ("1.2.3.4:65535", SocketAddr::new(v4, 65535)),
        ("[::1]:80", SocketAddr::new(v6, 80)),
        ("[::1%5]:80", SocketAddr { ip: v6, port: 80, scope: 5 }),
        ("[::1%4294967295]:80", SocketAddr { ip: v6, port: 80, scope: 4294967295 }),
    ] {
        assert_eq!(parse_socket_addr(text), Some(addr), "{text:?}");
    }
    for text in [
        "1.2.3.4:65536",
        "1.2.3.4:",
        "1.2.3.4",
        "1.2.3.4:+1",
        "[::1%]:80",
        "[::1%4294967296]:80",
        "[::1%a]:80",
        "[::1]80",
        "[::1]:",
        "::1:80",
        "localhost:80",
        "[1.2.3.4]:80",
        "[::1]:80]",
        "",
    ] {
        assert_eq!(parse_socket_addr(text), None, "{text:?}");
    }
}

#[test]
fn socket_addresses_are_written() {
    let addr = SocketAddr::new(IpAddr::V4(0x0102_0304), 80);
    assert_eq!(format_socket_addr(addr), "1.2.3.4:80");
    let addr = SocketAddr::new(IpAddr::V6(1), 443);
    assert_eq!(format_socket_addr(addr), "[::1]:443");
    let addr = SocketAddr { ip: IpAddr::V6(1), port: 443, scope: 7 };
    assert_eq!(format_socket_addr(addr), "[::1%7]:443");
}

#[test]
fn written_addresses_read_back() {
    for ip in [
        IpAddr::V4(0),
        IpAddr::V4(0xc0a8_0001),
        IpAddr::V6(0),
        IpAddr::V6(1),
        IpAddr::V6(0xffff_0a00_0001),
        IpAddr::V6(0x2001_0db8_0000_0000_0001_0000_0000_0000),
        IpAddr::V6(0x0001_0000_0002_0000_0003_0000_0004_0000),
        IpAddr::V6(u128::MAX),
    ] {
        assert_eq!(parse_ip(&format_ip(ip)), Some(ip));
        let addr = SocketAddr::new(ip, 51820);
        assert_eq!(parse_socket_addr(&format_socket_addr(addr)), Some(addr));
    }
    let addr = SocketAddr { ip: IpAddr::V6(1), port: 0, scope: 4294967295 };
    assert_eq!(parse_socket_addr(&format_socket_addr(addr)), Some(addr));
}

#[test]
fn hosts_with_ports() {
    assert_eq!(
        host_port_addr("0.0.0.0", 1080),
        Some(SocketAddr::new(IpAddr::V4(0), 1080))
    );
    assert_eq!(host_port_addr("[::]", 1080), Some(SocketAddr::new(IpAddr::V6(0), 1080)));
    assert_eq!(host_port_addr("::", 1080), None);
    assert_eq!(host_port_addr("localhost", 1080), None);
    assert!(IpAddr::V6(0).is_ipv6());
    assert!(!IpAddr::V4(0).is_ipv6());
}

#[test]
fn numbers_in_network_order() {
    let bytes = [0x12u8, 0x34, 0x56, 0x78, 0x9a];
    assert_eq!(be_u16_at(&bytes, 1), 0x3456);
    assert_eq!(be_u32_at(&bytes, 1), 0x3456_789a);
    assert_eq!(be_number(&bytes), 0x12_3456_789a);
    assert_eq!(be_number(&[0xff; 16]), u128::MAX);
    assert_eq!(be_number(&[]), 0);
}

#[test]
fn numbers_as_text() {
    for n in [0u64, 9, 10, 443, 65535, u64::MAX] {
        assert_eq!(decimal(n), n.to_string());
        assert_eq!(parse_u16(&decimal(n)), u16::try_from(n).ok());
    }
    for text in ["0", "65535", "65536", "+7", "-7", "", "+", "007", " 7", "7x", "\u{661}"] {
        assert_eq!(parse_u16(text), text.parse().ok(), "{text:?}");
    }
    let mut out = "0x".to_string();
    push_hex_byte(&mut out, 0xa5);
    push_hex_byte(&mut out, 0x09);
    assert_eq!(out, "0xa509");
}

#[test]
fn pieces_of_text() {
    for text in ["", ".", "a.b", ".a.", "abc", "\u{e9}.\u{1f600}"] {
        let expected: Vec<String> = text.split('.').map(|s| s.to_string()).collect();
        assert_eq!(split_text(text, '.'), expected);
        assert_eq!(join_strings(&expected, "--"), expected.join("--"));
        assert_eq!(split_text(&join_strings(&expected, "."), '.'), expected);
    }
    assert_eq!(join_strings(&vec![], ","), "");
    assert!(str_eq("a\u{e9}", "a\u{e9}"));
    assert!(!str_eq("a", "ab"));
    assert!(!str_eq("a", "b"));
}

#[test]
fn white_space_is_that_of_std() {
    for n in 0u32..0x3100 {
        if let Some(c) = char::from_u32(n) {
            assert_eq!(is_white_space(c), c.is_whitespace(), "{n:x}");
        }
    }
    for text in ["", " ", " a ", "\u{a0}a b\u{3000}\n", "\ty\r\n"] {
        assert_eq!(trimmed(text), text.trim());
    }
}
