use usque::ip::IpAddr;
use usque::stack::{
    dial_tcp, fitting, interface_plan, local_port, poll_read, poll_write, random_local_port,
    recv_from, send_to, ReadOutcome, RecvOutcome, SocketError, TcpState, UdpRecvOutcome,
    UdpSendOutcome, WaitStep,
};
use usque::tun::{
    configure_link, named_device, netsh_setup, set_ipv4_address, set_ipv4_mtu, set_ipv6_address,
    set_ipv6_mtu, LinkError, NativeTunConfig,
};

const V4: IpAddr = IpAddr::V4(0x6460_0001);
const V6: IpAddr = IpAddr::V6(0x2606_0000_0000_0000_0000_0000_0000_0001);

fn tun(name: &str, ipv4: Option<&str>, ipv6: Option<&str>, configure_link: bool) -> NativeTunConfig {
    NativeTunConfig {
        name: name.to_string(),
        mtu: 1280,
        ipv4: ipv4.map(|s| s.to_string()),
        ipv6: ipv6.map(|s| s.to_string()),
        configure_link,
        persist: false,
    }
}

#[test]
fn local_ports_are_dynamic() {
    assert_eq!(local_port(0), 49152);
    assert_eq!(local_port(16383), 65535);
    assert_eq!(local_port(16384), 49152);
    assert_eq!(local_port(65535), 65535);
    let ports: Vec<u16> = (0..64).map(|_| random_local_port()).collect();
    assert!(ports.iter().all(|p| *p >= 49152));
    assert!(ports.iter().any(|p| *p != ports[0]));
}

#[test]
fn interface_of_the_stack() {
    let plan = interface_plan(Some(V4), Some(V6));
    assert_eq!(plan.addresses, vec![(V4, 32), (V6, 128)]);
    assert!(plan.route_v4 && plan.route_v6);
    let plan = interface_plan(None, Some(V6));
    assert_eq!(plan.addresses, vec![(V6, 128)]);
    assert!(!plan.route_v4 && plan.route_v6);
    assert!(interface_plan(None, None).addresses.is_empty());
}

#[test]
fn opening_a_connection() {
    assert_eq!(dial_tcp(TcpState::Established, true), WaitStep::Ready);
    assert_eq!(dial_tcp(TcpState::Closed, false), WaitStep::Fail(SocketError::TcpClosed));
    assert_eq!(dial_tcp(TcpState::TimeWait, false), WaitStep::Fail(SocketError::TcpClosed));
    assert_eq!(dial_tcp(TcpState::SynSent, false), WaitStep::Wait);
    assert_eq!(dial_tcp(TcpState::SynSent, true), WaitStep::Fail(SocketError::TcpTimedOut));
}

#[test]
fn reading_and_writing() {
    assert_eq!(poll_read(RecvOutcome::Read(5), TcpState::Established), ReadOutcome::Bytes(5));
    assert_eq!(poll_read(RecvOutcome::Read(0), TcpState::Established), ReadOutcome::Pending);
    assert_eq!(poll_read(RecvOutcome::Read(0), TcpState::Closed), ReadOutcome::Bytes(0));
    assert_eq!(poll_read(RecvOutcome::Read(0), TcpState::TimeWait), ReadOutcome::Bytes(0));
    assert_eq!(poll_read(RecvOutcome::Finished, TcpState::CloseWait), ReadOutcome::Bytes(0));
    assert_eq!(
        poll_read(RecvOutcome::InvalidState, TcpState::Closed),
        ReadOutcome::Failed(SocketError::NotConnected)
    );
    assert_eq!(poll_write(Some(3)), ReadOutcome::Bytes(3));
    assert_eq!(poll_write(Some(0)), ReadOutcome::Pending);
    assert_eq!(poll_write(None), ReadOutcome::Failed(SocketError::NotConnected));
}

#[test]
fn datagrams() {
    assert_eq!(send_to(UdpSendOutcome::Sent, true), WaitStep::Ready);
    assert_eq!(send_to(UdpSendOutcome::BufferFull, false), WaitStep::Wait);
    assert_eq!(
        send_to(UdpSendOutcome::BufferFull, true),
        WaitStep::Fail(SocketError::UdpSendTimedOut)
    );
    assert_eq!(
        send_to(UdpSendOutcome::Unaddressable, false),
        WaitStep::Fail(SocketError::UdpSendFailed)
    );
    assert_eq!(recv_from(UdpRecvOutcome::Received, true), WaitStep::Ready);
    assert_eq!(recv_from(UdpRecvOutcome::Exhausted, false), WaitStep::Wait);
    assert_eq!(
        recv_from(UdpRecvOutcome::Exhausted, true),
        WaitStep::Fail(SocketError::UdpRecvTimedOut)
    );
    assert_eq!(
        recv_from(UdpRecvOutcome::Truncated, false),
        WaitStep::Fail(SocketError::UdpTruncated)
    );
}

#[test]
fn socket_error_messages() {
    assert_eq!(SocketError::NotConnected.message(), "not connected");
    assert_eq!(SocketError::TcpConnectFailed.message(), "tcp connect failed");
    assert_eq!(SocketError::TcpClosed.message(), "tcp connection closed");
    assert_eq!(SocketError::TcpTimedOut.message(), "tcp connect timed out");
    assert_eq!(SocketError::UdpBindFailed.message(), "udp bind failed");
    assert_eq!(SocketError::UdpSendFailed.message(), "udp send failed");
    assert_eq!(SocketError::UdpSendTimedOut.message(), "udp send timed out");
    assert_eq!(SocketError::UdpTruncated.message(), "udp truncated");
    assert_eq!(SocketError::UdpRecvTimedOut.message(), "udp recv timed out");
}

#[test]
fn packets_are_cut_to_the_buffer() {
    assert_eq!(fitting(&[1, 2, 3], 2), &[1, 2]);
    assert_eq!(fitting(&[1, 2, 3], 9), &[1, 2, 3]);
    assert_eq!(fitting(&[], 9), &[] as &[u8]);
}

#[test]
fn addresses_of_a_link() {
    let link = |v4: Option<&str>, v6: Option<&str>| {
        configure_link(&v4.map(|s| s.to_string()), &v6.map(|s| s.to_string()))
    };
    assert_eq!(link(Some("100.96.0.1"), Some("2606::1")), Ok(vec![(V4, 32), (V6, 128)]));
    assert_eq!(link(None, None), Ok(vec![]));
    assert_eq!(link(Some("2606::1"), None), Err(LinkError::Ipv4));
    assert_eq!(link(Some("x"), Some("y")), Err(LinkError::Ipv4));
    assert_eq!(link(None, Some("1.2.3.4")), Err(LinkError::Ipv6));
    assert_eq!(link(Some("100.96.0.1"), Some("")), Err(LinkError::Ipv6));
}

#[test]
fn device_names() {
    assert_eq!(named_device(&tun("", None, None, true)), "usque");
    assert_eq!(named_device(&tun("tun7", None, None, true)), "tun7");
}

#[test]
fn netsh_arguments() {
    assert_eq!(
        set_ipv4_address("usque", "1.2.3.4", "255.255.255.255"),
        vec![
            "interface",
            "ipv4",
            "set",
            "address",
            "name=\"usque\"",
            "static",
            "1.2.3.4",
            "255.255.255.255"
        ]
    );
    assert_eq!(
        set_ipv6_address("usque", "::1", "128"),
        vec!["interface", "ipv6", "set", "address", "interface=\"usque\"", "::1/128"]
    );
    assert_eq!(
        set_ipv4_mtu("usque", 1280),
        vec!["interface", "ipv4", "set", "subinterface", "\"usque\"", "mtu=1280"]
    );
    assert_eq!(
        set_ipv6_mtu("usque", 0),
        vec!["interface", "ipv6", "set", "subinterface", "\"usque\"", "mtu=0"]
    );
}

#[test]
fn netsh_calls_of_a_device() {
    let calls = netsh_setup("if", &tun("", Some("1.2.3.4"), Some("::1"), true));
    assert_eq!(
        calls,
        vec![
            set_ipv4_address("if", "1.2.3.4", "255.255.255.255"),
            set_ipv4_mtu("if", 1280),
            set_ipv6_address("if", "::1", "128"),
            set_ipv6_mtu("if", 1280),
        ]
    );
    assert_eq!(netsh_setup("if", &tun("", None, Some("::1"), true)).len(), 2);
    assert!(netsh_setup("if", &tun("", Some("1.2.3.4"), Some("::1"), false)).is_empty());
}
