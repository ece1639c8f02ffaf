use usque::ip::{IpAddr, SocketAddr};
use usque::portfw::{
    forward_addrs, parse_port_mapping, parse_port_mappings, ForwardError, MappingError,
};

#[test]
fn parse_three_part_mapping() {
    let m = parse_port_mapping("8080:127.0.0.1:80").ok().unwrap();
    assert_eq!(m.bind_address, "localhost");
    assert_eq!(m.local_port, 8080);
    assert_eq!(m.remote_ip, "127.0.0.1");
    assert_eq!(m.remote_port, 80);
}

#[test]
fn parse_four_part_mapping() {
    let m = parse_port_mapping("0.0.0.0:9090:example.com:443").ok().unwrap();
    assert_eq!(m.bind_address, "0.0.0.0");
    assert_eq!(m.local_port, 9090);
    assert_eq!(m.remote_ip, "example.com");
    assert_eq!(m.remote_port, 443);
}

#[test]
fn reject_invalid_mapping() {
    assert!(parse_port_mapping("bad").is_err());
}

#[test]
fn each_mapping_error() {
    let err = |text: &str| parse_port_mapping(text).err().unwrap();
    assert_eq!(err(""), MappingError::Format);
    assert_eq!(err("1:2"), MappingError::Format);
    assert_eq!(err("a:1:b:2:c"), MappingError::Format);
    assert_eq!(err("x:b:80"), MappingError::LocalPort);
    assert_eq!(err("65536:b:80"), MappingError::LocalPort);
    assert_eq!(err(":b:80"), MappingError::LocalPort);
    assert_eq!(err("x:b:y"), MappingError::LocalPort);
    assert_eq!(err("80:b:-1"), MappingError::RemotePort);
    assert_eq!(err("80:b:99999999999999999999"), MappingError::RemotePort);
    assert_eq!(MappingError::Format.message(), "invalid port mapping format");
    assert_eq!(MappingError::LocalPort.message(), "invalid local port");
    assert_eq!(MappingError::RemotePort.message(), "invalid remote port");
}

#[test]
fn ports_as_numbers_are_read() {
    let m = parse_port_mapping("+0080:b:00000000065535").ok().unwrap();
    assert_eq!(m.local_port, 80);
    assert_eq!(m.remote_port, 65535);
    let m = parse_port_mapping("::1:0").ok().unwrap_or_else(|| {
        parse_port_mapping("a:0::0").ok().unwrap()
    });
    assert_eq!(m.remote_ip, "");
}

#[test]
fn several_mappings() {
    let texts: Vec<String> = vec!["1:a:2".to_string(), "3:b:4".to_string()];
    let all = parse_port_mappings(&texts).ok().unwrap();
    assert_eq!(all.len(), 2);
    assert_eq!(all[1].remote_ip, "b");
    let texts: Vec<String> = vec!["1:a:2".to_string(), "3:b:x".to_string(), "bad".to_string()];
    assert_eq!(parse_port_mappings(&texts).err(), Some(MappingError::RemotePort));
    assert!(parse_port_mappings(&vec![]).ok().unwrap().is_empty());
}

#[test]
fn addresses_of_a_forward() {
    let addrs = |text: &str| forward_addrs(&parse_port_mapping(text).ok().unwrap());
    assert_eq!(
        addrs("0.0.0.0:80:1.2.3.4:443"),
        Ok((
            SocketAddr::new(IpAddr::V4(0), 80),
            SocketAddr::new(IpAddr::V4(0x0102_0304), 443)
        ))
    );
    assert_eq!(addrs("80:1.2.3.4:443"), Err(ForwardError::Bind));
    assert_eq!(addrs("0.0.0.0:80:example.com:443"), Err(ForwardError::Remote));
}
