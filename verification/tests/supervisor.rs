use bytes::{Bytes, BytesMut};
use usque::hooks::HookEnv;
use usque::ip::{IpAddr, SocketAddr};
use usque::session::SessionError;
use usque::supervisor::{
    is_valid_ip_packet, log_ipv4_packet, prepare_outbound, MaintainTunnelConfig, Phase, PumpAction,
    PumpEvent, PumpPhase, TunnelAction, TunnelEvent, TunnelSupervisor,
};

fn config(always_reconnect: bool, on_connect: &str, on_disconnect: &str) -> MaintainTunnelConfig {
    MaintainTunnelConfig {
        endpoint: SocketAddr::new(IpAddr::V4(0xa29f_c601), 443),
        mtu: 1280,
        reconnect_delay: 1000,
        always_reconnect,
        on_connect: on_connect.to_string(),
        on_disconnect: on_disconnect.to_string(),
        hook_env: HookEnv::default().with("USQUE_MODE", "socks"),
    }
}

fn packet() -> Vec<u8> {
    let mut p = vec![0u8; 20];
    p[0] = 0x45;
    p[3] = 20;
    p[8] = 64;
    p[9] = 17;
    p
}

#[test]
fn packets_that_can_be_ip() {
    assert!(!is_valid_ip_packet(&[]));
    assert!(is_valid_ip_packet(&[0x45; 20]));
    assert!(!is_valid_ip_packet(&[0x45; 19]));
    assert!(is_valid_ip_packet(&[0x60; 40]));
    assert!(!is_valid_ip_packet(&[0x60; 39]));
    assert!(!is_valid_ip_packet(&[0x50; 60]));
}

#[test]
fn log_lines_of_a_syn() {
    let mut p = vec![0u8; 40];
    p[0] = 0x45;
    p[9] = 6;
    p[12..16].copy_from_slice(&[10, 0, 0, 1]);
    p[16..20].copy_from_slice(&[1, 2, 3, 255]);
    p[20..22].copy_from_slice(&50000u16.to_be_bytes());
    p[22..24].copy_from_slice(&443u16.to_be_bytes());
    p[24..28].copy_from_slice(&4000000000u32.to_be_bytes());
    p[33] = 0x02;
    let lines = log_ipv4_packet("out", &p);
    assert_eq!(lines.len(), 3);
    assert_eq!(lines[0], "tunnel: out ipv4 10.0.0.1 -> 1.2.3.255 proto 6 len 40");
    assert_eq!(lines[1], "tunnel: out tcp 50000->443 seq=4000000000 ack=0 flags=0x02");
    assert_eq!(lines[2], format!("tunnel: out syn hex {:02x?}", &p[..]));
    assert_eq!(log_ipv4_packet("in", &p).len(), 2);
    p[33] = 0x10;
    assert_eq!(log_ipv4_packet("out", &p).len(), 2);
    p[9] = 17;
    assert_eq!(log_ipv4_packet("out", &p).len(), 1);
    p[0] = 0x60;
    assert_eq!(log_ipv4_packet("out", &p).len(), 0);
}

#[test]
fn log_line_of_a_long_syn_is_cut() {
    let mut p = vec![0xabu8; 60];
    p[0] = 0x45;
    p[9] = 6;
    p[33] = 0x02;
    let lines = log_ipv4_packet("out", &p);
    assert_eq!(lines[2], format!("tunnel: out syn hex {:02x?}", &p[..52]));
}

#[test]
fn waking_packet_is_forwarded_first() {
    let mut t = TunnelSupervisor::new(config(false, "", ""));
    assert_eq!(t.phase(), Phase::Idle);
    assert!(matches!(t.maintain(TunnelEvent::Started), TunnelAction::WaitForActivity));
    // Bytes that are no packet do not wake the tunnel.
    let junk = Bytes::from_static(&[0u8; 30]);
    assert!(matches!(
        t.maintain(TunnelEvent::DevicePacket(junk)),
        TunnelAction::WaitForActivity
    ));
    let woken = Bytes::from(packet());
    assert!(matches!(t.maintain(TunnelEvent::DevicePacket(woken.clone())), TunnelAction::Connect));
    match t.maintain(TunnelEvent::Connected) {
        TunnelAction::Forward(first) => assert_eq!(first, woken),
        _ => panic!("expected the packet"),
    }
    assert!(matches!(t.maintain(TunnelEvent::Done), TunnelAction::Pump));
    // The session ends: it is closed, there is a pause, and all begins anew.
    assert!(matches!(t.maintain(TunnelEvent::Done), TunnelAction::Close));
    assert!(matches!(t.maintain(TunnelEvent::Done), TunnelAction::Sleep));
    assert!(matches!(t.maintain(TunnelEvent::Done), TunnelAction::WaitForActivity));
    assert_eq!(t.phase(), Phase::Waiting);
}

#[test]
fn failed_connect_forgets_the_packet() {
    let mut t = TunnelSupervisor::new(config(false, "", ""));
    t.maintain(TunnelEvent::Started);
    t.maintain(TunnelEvent::DevicePacket(Bytes::from(packet())));
    assert!(matches!(t.maintain(TunnelEvent::ConnectFailed), TunnelAction::Sleep));
    assert!(matches!(t.maintain(TunnelEvent::Done), TunnelAction::WaitForActivity));
    assert!(matches!(t.maintain(TunnelEvent::Woken), TunnelAction::Connect));
    assert!(matches!(t.maintain(TunnelEvent::Connected), TunnelAction::Pump));
}

#[test]
fn unreadable_device_is_waited_for() {
    let mut t = TunnelSupervisor::new(config(false, "", ""));
    t.maintain(TunnelEvent::Started);
    assert!(matches!(t.maintain(TunnelEvent::DeviceReadFailed), TunnelAction::Sleep));
    assert_eq!(t.phase(), Phase::WaitBackoff);
    assert!(matches!(t.maintain(TunnelEvent::Done), TunnelAction::WaitForActivity));
}

#[test]
fn always_reconnect_never_waits() {
    let mut t = TunnelSupervisor::new(config(true, "", ""));
    assert!(matches!(t.maintain(TunnelEvent::Started), TunnelAction::Connect));
    assert!(matches!(t.maintain(TunnelEvent::ConnectFailed), TunnelAction::Sleep));
    assert!(matches!(t.maintain(TunnelEvent::Done), TunnelAction::Connect));
    assert!(matches!(t.maintain(TunnelEvent::Connected), TunnelAction::Pump));
    assert!(matches!(t.maintain(TunnelEvent::Done), TunnelAction::Close));
    assert!(matches!(t.maintain(TunnelEvent::Done), TunnelAction::Sleep));
    assert!(matches!(t.maintain(TunnelEvent::Done), TunnelAction::Connect));
}

#[test]
fn hooks_run_around_the_session() {
    let mut t = TunnelSupervisor::new(config(true, "/up", "/down"));
    t.maintain(TunnelEvent::Started);
    match t.maintain(TunnelEvent::Connected) {
        TunnelAction::Hook(run) => {
            assert_eq!(run.path, "/up");
            assert_eq!(run.prefix, "hook[connect]");
            assert_eq!(
                run.env,
                vec![
                    ("USQUE_ENDPOINT".to_string(), "162.159.198.1:443".to_string()),
                    ("USQUE_EVENT".to_string(), "connect".to_string()),
                    ("USQUE_MODE".to_string(), "socks".to_string()),
                ]
            );
        }
        _ => panic!("expected a hook"),
    }
    assert!(matches!(t.maintain(TunnelEvent::Done), TunnelAction::Pump));
    match t.maintain(TunnelEvent::Done) {
        TunnelAction::Hook(run) => {
            assert_eq!(run.path, "/down");
            assert_eq!(run.prefix, "hook[disconnect]");
        }
        _ => panic!("expected a hook"),
    }
    assert!(matches!(t.maintain(TunnelEvent::Done), TunnelAction::Close));
    assert!(matches!(t.maintain(TunnelEvent::Done), TunnelAction::Sleep));
}

fn pump(phase: PumpPhase, event: PumpEvent) -> (PumpPhase, PumpAction) {
    TunnelSupervisor::run_pumps(phase, event)
}

fn other(action: PumpAction) -> String {
    match action {
        PumpAction::Stop(SessionError::Other(text)) => text,
        _ => panic!("expected a failure"),
    }
}

#[test]
fn pump_sends_packets_with_a_hop_less() {
    let read = BytesMut::from(&packet()[..]);
    match pump(PumpPhase::Listening, PumpEvent::DeviceRead(read)) {
        (PumpPhase::Sending, PumpAction::SendToSession(sent)) => {
            assert_eq!(sent[8], 63);
            assert_eq!(&sent[..8], &packet()[..8]);
        }
        _ => panic!("expected a packet"),
    }
}

#[test]
fn pump_drops_what_cannot_be_sent() {
    let mut expired = packet();
    expired[8] = 1;
    for bytes in [vec![], vec![0u8; 20], packet()[..19].to_vec(), expired] {
        let read = BytesMut::from(&bytes[..]);
        assert!(prepare_outbound(read.clone()).is_none());
        assert!(matches!(
            pump(PumpPhase::Listening, PumpEvent::DeviceRead(read)),
            (PumpPhase::Listening, PumpAction::Listen)
        ));
    }
}

#[test]
fn pump_delivers_packets() {
    let inbound = Bytes::from(packet());
    match pump(PumpPhase::Listening, PumpEvent::SessionRead(Some(inbound.clone()))) {
        (PumpPhase::Delivering, PumpAction::WriteToDevice(p)) => assert_eq!(p, inbound),
        _ => panic!("expected a packet"),
    }
    assert!(matches!(
        pump(PumpPhase::Listening, PumpEvent::SessionRead(None)),
        (PumpPhase::Listening, PumpAction::Listen)
    ));
    match pump(PumpPhase::Sending, PumpEvent::SessionWrote(Some(inbound.clone()))) {
        (PumpPhase::Replying, PumpAction::WriteToDevice(p)) => assert_eq!(p, inbound),
        _ => panic!("expected a packet"),
    }
    assert!(matches!(
        pump(PumpPhase::Sending, PumpEvent::SessionWrote(None)),
        (PumpPhase::Listening, PumpAction::Listen)
    ));
    assert!(matches!(
        pump(PumpPhase::Delivering, PumpEvent::DeviceWrote),
        (PumpPhase::Listening, PumpAction::Listen)
    ));
}

#[test]
fn pump_stops_on_failures() {
    let reason = || "boom".to_string();
    assert_eq!(
        other(pump(PumpPhase::Listening, PumpEvent::DeviceReadFailed(reason())).1),
        "failed to read from device: boom"
    );
    assert_eq!(
        other(pump(PumpPhase::Delivering, PumpEvent::DeviceWriteFailed(reason())).1),
        "failed to write to device: boom"
    );
    assert_eq!(
        other(pump(PumpPhase::Replying, PumpEvent::DeviceWriteFailed(reason())).1),
        "failed to write ICMP to device: boom"
    );
    assert!(matches!(
        pump(PumpPhase::Sending, PumpEvent::SessionWriteFailed(SessionError::Closed)).1,
        PumpAction::Stop(SessionError::Closed)
    ));
    assert_eq!(
        other(
            pump(
                PumpPhase::Listening,
                PumpEvent::SessionReadFailed(SessionError::Other(reason()))
            )
            .1
        ),
        "boom"
    );
}
