//! The life of a tunnel: waiting for traffic, connecting, pumping packets,
//! reconnecting.
//!
//! The supervisor decides; its caller acts. Each step takes what happened and
//! says what to do next.

use vstd::prelude::*;
use vstd::string::*;

use bytes::{Bytes, BytesMut};

use crate::buffer::{bytes_mut_as_slice, bytes_mut_view, bytes_view};
use crate::datagram::{
    after_hop, decrement_ttl, law_hop_keeps_the_rest, law_ipv4_hop_is_taken, law_ipv6_hop_is_taken,
    ttl_error_text,
};
use crate::hooks::{ascending, lookup, pair_texts, run_hook, HookEnv, HookRun};
use crate::ip::{format_socket_addr, socket_text, SocketAddr};
use crate::octets::{be_u16_at, be_u32_at, be_value, lemma_be_2, lemma_be_4};
use crate::phy::bit;
use crate::session::{SessionError, SessionFailure};
use crate::text::{
    decimal, decimal_text, hex_byte_text, join_text, push_hex_byte, str_eq, texts,
};

verus! {

/// Whether bytes can be an IP packet: long enough for the fixed header of the
/// version that they name.
pub open spec fn ip_packet_ok(p: Seq<u8>) -> bool {
    p.len() > 0 && ((p[0] / 16 == 4 && p.len() >= 20) || (p[0] / 16 == 6 && p.len() >= 40))
}

/// Tells whether bytes can be an IP packet.
pub fn is_valid_ip_packet(packet: &[u8]) -> (r: bool)
    ensures
        r == ip_packet_ok(packet@),
{
    if packet.len() == 0 {
        return false;
    }
    match packet[0] / 16 {
        4 => packet.len() >= 20,
        6 => packet.len() >= 40,
        _ => false,
    }
}

/// Four bytes in decimal with dots between them.
pub open spec fn dotted(p: Seq<u8>, at: int) -> Seq<char> {
    decimal_text(p[at] as nat) + "."@ + decimal_text(p[at + 1] as nat) + "."@ + decimal_text(
        p[at + 2] as nat,
    ) + "."@ + decimal_text(p[at + 3] as nat)
}

/// The log line on an IPv4 packet.
pub open spec fn ipv4_line(direction: Seq<char>, p: Seq<u8>) -> Seq<char> {
    "tunnel: "@ + direction + " ipv4 "@ + dotted(p, 12) + " -> "@ + dotted(p, 16) + " proto "@
        + decimal_text(p[9] as nat) + " len "@ + decimal_text(p.len())
}

/// The log line on the TCP segment at `at`.
pub open spec fn tcp_line(direction: Seq<char>, p: Seq<u8>, at: int) -> Seq<char> {
    "tunnel: "@ + direction + " tcp "@ + decimal_text(be_value(p.subrange(at, at + 2))) + "->"@
        + decimal_text(be_value(p.subrange(at + 2, at + 4))) + " seq="@ + decimal_text(
        be_value(p.subrange(at + 4, at + 8)),
    ) + " ack="@ + decimal_text(be_value(p.subrange(at + 8, at + 12))) + " flags=0x"@
        + hex_byte_text(p[at + 13])
}

/// Bytes in hexadecimal, with a comma and a blank between each two.
pub open spec fn hex_list(p: Seq<u8>) -> Seq<char> {
    join_text(Seq::new(p.len(), |i: int| hex_byte_text(p[i])), ", "@)
}

/// The log line with the first bytes of an outbound SYN.
pub open spec fn syn_line(p: Seq<u8>) -> Seq<char> {
    "tunnel: out syn hex ["@ + hex_list(
        p.take(if p.len() <= 52 {
            p.len() as int
        } else {
            52
        }),
    ) + "]"@
}

/// The log lines on a packet: one on its IPv4 header, one on its TCP header,
/// and one with its first bytes for an outbound SYN.
pub open spec fn packet_lines(direction: Seq<char>, p: Seq<u8>) -> Seq<Seq<char>> {
    if p.len() < 20 || p[0] / 16 != 4 {
        Seq::empty()
    } else {
        let at = (p[0] % 16) as int * 4;
        if p[9] != 6 || p.len() < 34 || p.len() < at + 14 {
            seq![ipv4_line(direction, p)]
        } else if direction != "out"@ || !bit(p[at + 13], 2) {
            seq![ipv4_line(direction, p), tcp_line(direction, p, at)]
        } else {
            seq![ipv4_line(direction, p), tcp_line(direction, p, at), syn_line(p)]
        }
    }
}

fn format_dotted(p: &[u8], at: usize) -> (out: String)
    requires
        at + 4 <= p@.len(),
    ensures
        out@ == dotted(p@, at as int),
{
    decimal(p[at] as u64).concat(".").concat(decimal(p[at + 1] as u64).as_str()).concat(
        ".",
    ).concat(decimal(p[at + 2] as u64).as_str()).concat(".").concat(
        decimal(p[at + 3] as u64).as_str(),
    )
}

fn format_hex_list(p: &[u8], n: usize) -> (out: String)
    requires
        n <= p@.len(),
    ensures
        out@ == hex_list(p@.take(n as int)),
{
    let mut out = String::new();
    let mut i: usize = 0;
    let ghost all = Seq::new(n as nat, |j: int| hex_byte_text(p@[j]));
    assert(all.take(0) =~= Seq::<Seq<char>>::empty());
    assert(out@ =~= Seq::<char>::empty());
    while i < n
        invariant
            i <= n <= p@.len(),
            all == Seq::new(n as nat, |j: int| hex_byte_text(p@[j])),
            out@ == join_text(all.take(i as int), ", "@),
        decreases n - i,
    {
        let ghost done = all.take(i + 1);
        assert(done.drop_last() =~= all.take(i as int));
        if i > 0 {
            out.append(", ");
        }
        push_hex_byte(&mut out, p[i]);
        i = i + 1;
        assert(done.last() == hex_byte_text(p@[i - 1]));
        assert(out@ =~= join_text(done, ", "@));
    }
    assert(all.take(n as int) =~= Seq::new(
        p@.take(n as int).len(),
        |j: int| hex_byte_text(p@.take(n as int)[j]),
    ));
    out
}

/// Writes the log lines on a packet.
pub fn log_ipv4_packet(direction: &str, packet: &[u8]) -> (out: Vec<String>)
    ensures
        texts(out@) == packet_lines(direction@, packet@),
{
    let mut out: Vec<String> = Vec::new();
    if packet.len() < 20 || packet[0] / 16 != 4 {
        assert(texts(out@) =~= packet_lines(direction@, packet@));
        return out;
    }
    let line = "tunnel: ".to_owned().concat(direction).concat(" ipv4 ").concat(
        format_dotted(packet, 12).as_str(),
    ).concat(" -> ").concat(format_dotted(packet, 16).as_str()).concat(" proto ").concat(
        decimal(packet[9] as u64).as_str(),
    ).concat(" len ").concat(decimal(packet.len() as u64).as_str());
    out.push(line);
    let at: usize = (packet[0] % 16) as usize * 4;
    if packet[9] != 6 || packet.len() < 34 || packet.len() < at + 14 {
        assert(texts(out@) =~= packet_lines(direction@, packet@));
        return out;
    }
    let flags: u8 = packet[at + 13];
    let mut tcp = "tunnel: ".to_owned().concat(direction).concat(" tcp ").concat(
        decimal(be_u16_at(packet, at) as u64).as_str(),
    ).concat("->").concat(decimal(be_u16_at(packet, at + 2) as u64).as_str()).concat(
        " seq=",
    ).concat(decimal(be_u32_at(packet, at + 4) as u64).as_str()).concat(" ack=").concat(
        decimal(be_u32_at(packet, at + 8) as u64).as_str(),
    ).concat(" flags=0x");
    push_hex_byte(&mut tcp, flags);
    out.push(tcp);
    if str_eq(direction, "out") && (flags / 2) % 2 == 1 {
        let n: usize = if packet.len() <= 52 {
            packet.len()
        } else {
            52
        };
        let line = "tunnel: out syn hex [".to_owned().concat(
            format_hex_list(packet, n).as_str(),
        ).concat("]");
        out.push(line);
    }
    assert(texts(out@) =~= packet_lines(direction@, packet@));
    out
}

/// What the supervisor is told to maintain.
pub struct MaintainTunnelConfig {
    /// Where the tunnel connects to.
    pub endpoint: SocketAddr,
    /// The size of the buffer for packets from the device.
    pub mtu: usize,
    /// The pause after a failure, in milliseconds.
    pub reconnect_delay: u64,
    /// Whether to connect without waiting for outbound traffic.
    pub always_reconnect: bool,
    /// The program to run when the tunnel is up; none if empty.
    pub on_connect: String,
    /// The program to run when the tunnel is down; none if empty.
    pub on_disconnect: String,
    /// The variables that both programs get.
    pub hook_env: HookEnv,
}

/// Where in its life a tunnel is.
#[derive(Clone, Copy, Debug, PartialEq, Eq, Structural)]
pub enum Phase {
    /// Nothing has been done yet.
    Idle,
    /// Waiting for outbound traffic.
    Waiting,
    /// Pausing after the device could not be read.
    WaitBackoff,
    /// Connecting to the endpoint.
    Connecting,
    /// Pausing before the next round.
    Backoff,
    /// Handing on the packet that woke the tunnel.
    Forwarding,
    /// Starting the program for a tunnel that is up.
    ConnectHook,
    /// Moving packets in both directions.
    Pumping,
    /// Starting the program for a tunnel that is down.
    DisconnectHook,
    /// Closing the session.
    Closing,
}

/// What happened.
pub enum TunnelEvent {
    /// The supervisor may begin.
    Started,
    /// The device had a packet, as it was read.
    DevicePacket(Bytes),
    /// The device could not be read.
    DeviceReadFailed,
    /// There is outbound activity that is no packet yet.
    Woken,
    /// The session is up.
    Connected,
    /// The session could not be set up.
    ConnectFailed,
    /// What was asked for is over, whatever came of it.
    Done,
}

/// What to do next.
pub enum TunnelAction {
    /// Read the device, or wait to be woken.
    WaitForActivity,
    /// Pause for the reconnect delay.
    Sleep,
    /// Connect to the endpoint.
    Connect,
    /// Write a packet to the session.
    Forward(Bytes),
    /// Start a program.
    Hook(HookRun),
    /// Move packets until the session or the device fails.
    Pump,
    /// Close the session.
    Close,
}

/// The supervisor's memory: the phase, and the packet to hand on.
pub struct TunnelState {
    pub phase: Phase,
    pub pending: Option<Seq<u8>>,
}

/// What of a configuration decides the course of a tunnel.
pub struct TunnelCourse {
    pub always_reconnect: bool,
    pub connect_hook: bool,
    pub disconnect_hook: bool,
}

/// An event, without the buffers that it comes in.
pub enum TunnelInput {
    Started,
    DevicePacket(Seq<u8>),
    DeviceReadFailed,
    Woken,
    Connected,
    ConnectFailed,
    Done,
}

/// An action, without the buffers that it comes in.
pub enum TunnelOutput {
    WaitForActivity,
    Sleep,
    Connect,
    Forward(Seq<u8>),
    Hook,
    Pump,
    Close,
}

/// Whether an event can come in a phase.
pub open spec fn fits(phase: Phase, input: TunnelInput) -> bool {
    match phase {
        Phase::Idle => input is Started,
        Phase::Waiting => input is DevicePacket || input is DeviceReadFailed || input is Woken,
        Phase::Connecting => input is Connected || input is ConnectFailed,
        _ => input is Done,
    }
}

/// The start of a round: connect at once, or forget what was pending and wait
/// for traffic.
pub open spec fn round_start(course: TunnelCourse, s: TunnelState) -> (TunnelState, TunnelOutput) {
    if course.always_reconnect {
        (TunnelState { phase: Phase::Connecting, ..s }, TunnelOutput::Connect)
    } else {
        (TunnelState { phase: Phase::Waiting, pending: None }, TunnelOutput::WaitForActivity)
    }
}

/// The session is up and nothing is left to hand on: the program for it is
/// started, if there is one, and then packets are moved.
pub open spec fn session_up(course: TunnelCourse, s: TunnelState) -> (TunnelState, TunnelOutput) {
    if course.connect_hook {
        (TunnelState { phase: Phase::ConnectHook, ..s }, TunnelOutput::Hook)
    } else {
        (TunnelState { phase: Phase::Pumping, ..s }, TunnelOutput::Pump)
    }
}

/// What a tunnel does next, by its phase and by what happened.
pub open spec fn tunnel_step(
    course: TunnelCourse,
    s: TunnelState,
    input: TunnelInput,
) -> (TunnelState, TunnelOutput) {
    match s.phase {
        Phase::Idle => round_start(course, s),
        Phase::Waiting => match input {
            TunnelInput::DevicePacket(p) => if ip_packet_ok(p) {
                (
                    TunnelState { phase: Phase::Connecting, pending: Some(p) },
                    TunnelOutput::Connect,
                )
            } else {
                (s, TunnelOutput::WaitForActivity)
            },
            TunnelInput::Woken => (
                TunnelState { phase: Phase::Connecting, ..s },
                TunnelOutput::Connect,
            ),
            _ => (TunnelState { phase: Phase::WaitBackoff, ..s }, TunnelOutput::Sleep),
        },
        Phase::WaitBackoff => (
            TunnelState { phase: Phase::Waiting, ..s },
            TunnelOutput::WaitForActivity,
        ),
        Phase::Connecting => match input {
            TunnelInput::Connected => match s.pending {
                Some(p) => (
                    TunnelState { phase: Phase::Forwarding, pending: None },
                    TunnelOutput::Forward(p),
                ),
                None => session_up(course, s),
            },
            _ => (TunnelState { phase: Phase::Backoff, ..s }, TunnelOutput::Sleep),
        },
        Phase::Backoff => round_start(course, s),
        Phase::Forwarding => session_up(course, s),
        Phase::ConnectHook => (TunnelState { phase: Phase::Pumping, ..s }, TunnelOutput::Pump),
        Phase::Pumping => if course.disconnect_hook {
            (TunnelState { phase: Phase::DisconnectHook, ..s }, TunnelOutput::Hook)
        } else {
            (TunnelState { phase: Phase::Closing, ..s }, TunnelOutput::Close)
        },
        Phase::DisconnectHook => (TunnelState { phase: Phase::Closing, ..s }, TunnelOutput::Close),
        Phase::Closing => (TunnelState { phase: Phase::Backoff, ..s }, TunnelOutput::Sleep),
    }
}

impl TunnelEvent {
    /// The event without its buffer.
    pub open spec fn input(&self) -> TunnelInput {
        match self {
            TunnelEvent::Started => TunnelInput::Started,
            TunnelEvent::DevicePacket(b) => TunnelInput::DevicePacket(bytes_view(*b)),
            TunnelEvent::DeviceReadFailed => TunnelInput::DeviceReadFailed,
            TunnelEvent::Woken => TunnelInput::Woken,
            TunnelEvent::Connected => TunnelInput::Connected,
            TunnelEvent::ConnectFailed => TunnelInput::ConnectFailed,
            TunnelEvent::Done => TunnelInput::Done,
        }
    }
}

impl TunnelAction {
    /// The action without its buffer.
    pub open spec fn output(&self) -> TunnelOutput {
        match self {
            TunnelAction::WaitForActivity => TunnelOutput::WaitForActivity,
            TunnelAction::Sleep => TunnelOutput::Sleep,
            TunnelAction::Connect => TunnelOutput::Connect,
            TunnelAction::Forward(b) => TunnelOutput::Forward(bytes_view(*b)),
            TunnelAction::Hook(_) => TunnelOutput::Hook,
            TunnelAction::Pump => TunnelOutput::Pump,
            TunnelAction::Close => TunnelOutput::Close,
        }
    }
}

impl MaintainTunnelConfig {
    /// What of the configuration decides the course of the tunnel.
    pub open spec fn course(&self) -> TunnelCourse {
        TunnelCourse {
            always_reconnect: self.always_reconnect,
            connect_hook: self.on_connect@.len() > 0,
            disconnect_hook: self.on_disconnect@.len() > 0,
        }
    }
}

/// Whether a hook is the one for an event on an endpoint: the program, the
/// prefix of its output, and its variables in order, which are the common ones
/// with the event and the endpoint set.
pub open spec fn hook_for(
    run: HookRun,
    path: Seq<char>,
    event: Seq<char>,
    endpoint: SocketAddr,
    common: Seq<(Seq<char>, Seq<char>)>,
) -> bool {
    &&& run.path@ == path
    &&& run.prefix@ == "hook["@ + event + "]"@
    &&& ascending(pair_texts(run.env@))
    &&& forall|name: Seq<char>| #[trigger]
        lookup(pair_texts(run.env@), name) == (if name == "USQUE_ENDPOINT"@ {
            Some(socket_text(endpoint))
        } else if name == "USQUE_EVENT"@ {
            Some(event)
        } else {
            lookup(common, name)
        })
}

/// Keeps a tunnel up.
pub struct TunnelSupervisor {
    config: MaintainTunnelConfig,
    phase: Phase,
    pending: Option<Bytes>,
}

impl TunnelSupervisor {
    /// A packet is pending only while the session that will take it is being
    /// set up.
    pub open spec fn wf(&self) -> bool {
        &&& self.config().hook_env.wf()
        &&& self.state().pending is Some ==> (self.state().phase == Phase::Connecting
            || self.state().phase == Phase::Backoff)
    }

    /// What the supervisor was told to maintain.
    pub closed spec fn config(&self) -> MaintainTunnelConfig {
        self.config
    }

    /// The phase and the pending packet.
    pub closed spec fn state(&self) -> TunnelState {
        TunnelState {
            phase: self.phase,
            pending: match self.pending {
                Some(b) => Some(bytes_view(b)),
                None => None,
            },
        }
    }

    pub fn new(config: MaintainTunnelConfig) -> (r: Self)
        requires
            config.hook_env.wf(),
        ensures
            r.wf(),
            r.config() == config,
            r.state() == (TunnelState { phase: Phase::Idle, pending: None }),
    {
        TunnelSupervisor { config, phase: Phase::Idle, pending: None }
    }

    /// Where in its life the tunnel is.
    pub fn phase(&self) -> (r: Phase)
        ensures
            r == self.state().phase,
    {
        self.phase
    }

    fn start_round(&mut self) -> (r: TunnelAction)
        ensures
            final(self).config() == old(self).config(),
            (final(self).state(), r.output()) == round_start(
                old(self).config().course(),
                old(self).state(),
            ),
    {
        if self.config.always_reconnect {
            self.phase = Phase::Connecting;
            TunnelAction::Connect
        } else {
            self.pending = None;
            self.phase = Phase::Waiting;
            TunnelAction::WaitForActivity
        }
    }

    fn start_session(&mut self) -> (r: TunnelAction)
        requires
            old(self).config().hook_env.wf(),
        ensures
            final(self).config() == old(self).config(),
            (final(self).state(), r.output()) == session_up(
                old(self).config().course(),
                old(self).state(),
            ),
            r matches TunnelAction::Hook(run) ==> hook_for(
                run,
                old(self).config().on_connect@,
                "connect"@,
                old(self).config().endpoint,
                old(self).config().hook_env.pairs(),
            ),
    {
        match make_hook(
            &self.config.on_connect,
            "connect",
            self.config.endpoint,
            &self.config.hook_env,
        ) {
            Some(run) => {
                self.phase = Phase::ConnectHook;
                TunnelAction::Hook(run)
            },
            None => {
                self.phase = Phase::Pumping;
                TunnelAction::Pump
            },
        }
    }

    /// Takes what happened and says what to do next.
    pub fn maintain(&mut self, event: TunnelEvent) -> (r: TunnelAction)
        requires
            old(self).wf(),
            fits(old(self).state().phase, event.input()),
        ensures
            final(self).wf(),
            final(self).config() == old(self).config(),
            (final(self).state(), r.output()) == tunnel_step(
                old(self).config().course(),
                old(self).state(),
                event.input(),
            ),
            r matches TunnelAction::Hook(run) ==> if final(self).state().phase
                == Phase::ConnectHook {
                hook_for(
                    run,
                    old(self).config().on_connect@,
                    "connect"@,
                    old(self).config().endpoint,
                    old(self).config().hook_env.pairs(),
                )
            } else {
                hook_for(
                    run,
                    old(self).config().on_disconnect@,
                    "disconnect"@,
                    old(self).config().endpoint,
                    old(self).config().hook_env.pairs(),
                )
            },
    {
        match self.phase {
            Phase::Idle => self.start_round(),
            Phase::Waiting => match event {
                TunnelEvent::DevicePacket(packet) => {
                    if is_valid_ip_packet(crate::buffer::bytes_as_slice(&packet)) {
                        self.pending = Some(packet);
                        self.phase = Phase::Connecting;
                        TunnelAction::Connect
                    } else {
                        TunnelAction::WaitForActivity
                    }
                },
                TunnelEvent::Woken => {
                    self.phase = Phase::Connecting;
                    TunnelAction::Connect
                },
                _ => {
                    self.phase = Phase::WaitBackoff;
                    TunnelAction::Sleep
                },
            },
            Phase::WaitBackoff => {
                self.phase = Phase::Waiting;
                TunnelAction::WaitForActivity
            },
            Phase::Connecting => match event {
                TunnelEvent::Connected => match self.pending.take() {
                    Some(packet) => {
                        self.phase = Phase::Forwarding;
                        TunnelAction::Forward(packet)
                    },
                    None => self.start_session(),
                },
                _ => {
                    self.phase = Phase::Backoff;
                    TunnelAction::Sleep
                },
            },
            Phase::Backoff => self.start_round(),
            Phase::Forwarding => self.start_session(),
            Phase::ConnectHook => {
                self.phase = Phase::Pumping;
                TunnelAction::Pump
            },
            Phase::Pumping => match make_hook(
                &self.config.on_disconnect,
                "disconnect",
                self.config.endpoint,
                &self.config.hook_env,
            ) {
                Some(run) => {
                    self.phase = Phase::DisconnectHook;
                    TunnelAction::Hook(run)
                },
                None => {
                    self.phase = Phase::Closing;
                    TunnelAction::Close
                },
            },
            Phase::DisconnectHook => {
                self.phase = Phase::Closing;
                TunnelAction::Close
            },
            Phase::Closing => {
                self.phase = Phase::Backoff;
                TunnelAction::Sleep
            },
        }
    }
}

/// Plans the hook for an event, if there is a program for it.
fn make_hook(path: &String, event: &str, endpoint: SocketAddr, common: &HookEnv) -> (r: Option<
    HookRun,
>)
    requires
        common.wf(),
    ensures
        r is Some <==> path@.len() > 0,
        r matches Some(run) ==> hook_for(run, path@, event@, endpoint, common.pairs()),
{
    let env = common.copy().with("USQUE_EVENT", event).with(
        "USQUE_ENDPOINT",
        format_socket_addr(endpoint).as_str(),
    );
    proof {
        reveal_strlit("USQUE_EVENT");
        reveal_strlit("USQUE_ENDPOINT");
        assert("USQUE_EVENT"@[7] != "USQUE_ENDPOINT"@[7]);
        assert(lookup(env.pairs(), "USQUE_EVENT"@) == Some(event@));
    }
    run_hook(path.as_str(), env)
}

/// What the packet pump is doing.
#[derive(Clone, Copy, Debug, PartialEq, Eq, Structural)]
pub enum PumpPhase {
    /// Reading from the device and from the session.
    Listening,
    /// Writing a packet of the device to the session.
    Sending,
    /// Writing the session's reply to such a packet to the device.
    Replying,
    /// Writing a packet of the session to the device.
    Delivering,
}

/// What happened to the packet pump.
pub enum PumpEvent {
    /// The device was read: these are the bytes.
    DeviceRead(BytesMut),
    /// The device could not be read.
    DeviceReadFailed(String),
    /// The session was read: a packet, or nothing.
    SessionRead(Option<Bytes>),
    /// The session could not be read.
    SessionReadFailed(SessionError),
    /// The session took a packet, and may have replied with one.
    SessionWrote(Option<Bytes>),
    /// The session did not take a packet.
    SessionWriteFailed(SessionError),
    /// The device took a packet.
    DeviceWrote,
    /// The device did not take a packet.
    DeviceWriteFailed(String),
}

/// What the packet pump does next.
pub enum PumpAction {
    /// Read from whichever of the device and the session has something.
    Listen,
    /// Write a packet to the session.
    SendToSession(Bytes),
    /// Write a packet to the device.
    WriteToDevice(Bytes),
    /// Stop: the session is over.
    Stop(SessionError),
}

/// An event of the pump, without the buffers that it comes in.
pub enum PumpInput {
    DeviceRead(Seq<u8>),
    DeviceReadFailed(Seq<char>),
    SessionRead(Option<Seq<u8>>),
    SessionReadFailed(SessionFailure),
    SessionWrote(Option<Seq<u8>>),
    SessionWriteFailed(SessionFailure),
    DeviceWrote,
    DeviceWriteFailed(Seq<char>),
}

/// An action of the pump, without the buffers that it comes in.
pub enum PumpOutput {
    Listen,
    SendToSession(Seq<u8>),
    WriteToDevice(Seq<u8>),
    Stop(SessionFailure),
}

/// The bytes of an optional buffer.
pub open spec fn opt_bytes(b: Option<Bytes>) -> Option<Seq<u8>> {
    match b {
        Some(b) => Some(bytes_view(b)),
        None => None,
    }
}

impl PumpEvent {
    /// The event without its buffers.
    pub open spec fn input(&self) -> PumpInput {
        match self {
            PumpEvent::DeviceRead(b) => PumpInput::DeviceRead(bytes_mut_view(*b)),
            PumpEvent::DeviceReadFailed(reason) => PumpInput::DeviceReadFailed(reason@),
            PumpEvent::SessionRead(b) => PumpInput::SessionRead(opt_bytes(*b)),
            PumpEvent::SessionReadFailed(err) => PumpInput::SessionReadFailed(err.failure()),
            PumpEvent::SessionWrote(b) => PumpInput::SessionWrote(opt_bytes(*b)),
            PumpEvent::SessionWriteFailed(err) => PumpInput::SessionWriteFailed(err.failure()),
            PumpEvent::DeviceWrote => PumpInput::DeviceWrote,
            PumpEvent::DeviceWriteFailed(reason) => PumpInput::DeviceWriteFailed(reason@),
        }
    }
}

impl PumpAction {
    /// The action without its buffers.
    pub open spec fn output(&self) -> PumpOutput {
        match self {
            PumpAction::Listen => PumpOutput::Listen,
            PumpAction::SendToSession(b) => PumpOutput::SendToSession(bytes_view(*b)),
            PumpAction::WriteToDevice(b) => PumpOutput::WriteToDevice(bytes_view(*b)),
            PumpAction::Stop(err) => PumpOutput::Stop(err.failure()),
        }
    }
}

/// Whether an event can come in a phase of the pump.
pub open spec fn pump_fits(phase: PumpPhase, input: PumpInput) -> bool {
    match phase {
        PumpPhase::Listening => input is DeviceRead || input is DeviceReadFailed
            || input is SessionRead || input is SessionReadFailed,
        PumpPhase::Sending => input is SessionWrote || input is SessionWriteFailed,
        PumpPhase::Replying => input is DeviceWrote || input is DeviceWriteFailed,
        PumpPhase::Delivering => input is DeviceWrote || input is DeviceWriteFailed,
    }
}

/// What becomes of the bytes that the device gave: a packet that may take
/// another hop, with that hop taken; or nothing.
pub open spec fn outbound_packet(p: Seq<u8>) -> Option<Seq<u8>> {
    if ip_packet_ok(p) && ttl_error_text(p) is None {
        Some(after_hop(p))
    } else {
        None
    }
}

/// What the pump does next, by its phase and by what happened.
pub open spec fn pump_step(phase: PumpPhase, input: PumpInput) -> (PumpPhase, PumpOutput) {
    match input {
        PumpInput::DeviceRead(p) => match outbound_packet(p) {
            Some(q) => (PumpPhase::Sending, PumpOutput::SendToSession(q)),
            None => (PumpPhase::Listening, PumpOutput::Listen),
        },
        PumpInput::DeviceReadFailed(reason) => (
            phase,
            PumpOutput::Stop(SessionFailure::Other("failed to read from device: "@ + reason)),
        ),
        PumpInput::SessionRead(Some(p)) => (PumpPhase::Delivering, PumpOutput::WriteToDevice(p)),
        PumpInput::SessionRead(None) => (PumpPhase::Listening, PumpOutput::Listen),
        PumpInput::SessionReadFailed(err) => (phase, PumpOutput::Stop(err)),
        PumpInput::SessionWrote(Some(p)) => (PumpPhase::Replying, PumpOutput::WriteToDevice(p)),
        PumpInput::SessionWrote(None) => (PumpPhase::Listening, PumpOutput::Listen),
        PumpInput::SessionWriteFailed(err) => (phase, PumpOutput::Stop(err)),
        PumpInput::DeviceWrote => (PumpPhase::Listening, PumpOutput::Listen),
        PumpInput::DeviceWriteFailed(reason) => (
            phase,
            PumpOutput::Stop(
                SessionFailure::Other(
                    if phase == PumpPhase::Replying {
                        "failed to write ICMP to device: "@ + reason
                    } else {
                        "failed to write to device: "@ + reason
                    },
                ),
            ),
        ),
    }
}

/// Makes an outbound packet of the bytes that the device gave.
pub fn prepare_outbound(read: BytesMut) -> (r: Option<Bytes>)
    ensures
        r is Some <==> outbound_packet(bytes_mut_view(read)) is Some,
        r matches Some(b) ==> outbound_packet(bytes_mut_view(read)) == Some(bytes_view(b)),
{
    let mut read = read;
    let packet = bytes_mut_as_slice(&mut read);
    if !is_valid_ip_packet(packet) {
        return None;
    }
    match decrement_ttl(packet) {
        Ok(()) => Some(read.freeze()),
        Err(_) => None,
    }
}

impl TunnelSupervisor {
    /// Takes what happened to the packet pump and says what it does next.
    pub fn run_pumps(phase: PumpPhase, event: PumpEvent) -> (r: (PumpPhase, PumpAction))
        requires
            pump_fits(phase, event.input()),
        ensures
            (r.0, r.1.output()) == pump_step(phase, event.input()),
    {
        match event {
            PumpEvent::DeviceRead(read) => match prepare_outbound(read) {
                Some(packet) => (PumpPhase::Sending, PumpAction::SendToSession(packet)),
                None => (PumpPhase::Listening, PumpAction::Listen),
            },
            PumpEvent::DeviceReadFailed(reason) => (
                phase,
                PumpAction::Stop(
                    SessionError::Other(
                        "failed to read from device: ".to_owned().concat(reason.as_str()),
                    ),
                ),
            ),
            PumpEvent::SessionRead(read) => match read {
                Some(packet) => (PumpPhase::Delivering, PumpAction::WriteToDevice(packet)),
                None => (PumpPhase::Listening, PumpAction::Listen),
            },
            PumpEvent::SessionReadFailed(err) => (phase, PumpAction::Stop(err)),
            PumpEvent::SessionWrote(reply) => match reply {
                Some(packet) => (PumpPhase::Replying, PumpAction::WriteToDevice(packet)),
                None => (PumpPhase::Listening, PumpAction::Listen),
            },
            PumpEvent::SessionWriteFailed(err) => (phase, PumpAction::Stop(err)),
            PumpEvent::DeviceWrote => (PumpPhase::Listening, PumpAction::Listen),
            PumpEvent::DeviceWriteFailed(reason) => {
                let what = if phase == PumpPhase::Replying {
                    "failed to write ICMP to device: "
                } else {
                    "failed to write to device: "
                };
                (
                    phase,
                    PumpAction::Stop(SessionError::Other(what.to_owned().concat(reason.as_str()))),
                )
            },
        }
    }
}

/// A tunnel that is told to reconnect always never waits for traffic.
pub proof fn law_always_reconnect_never_waits(course: TunnelCourse, s: TunnelState, input: TunnelInput)
    requires
        course.always_reconnect,
        s.phase != Phase::Waiting,
        s.phase != Phase::WaitBackoff,
        fits(s.phase, input),
    ensures
        tunnel_step(course, s, input).1 != TunnelOutput::WaitForActivity,
        tunnel_step(course, s, input).0.phase != Phase::Waiting,
        tunnel_step(course, s, input).0.phase != Phase::WaitBackoff,
{
}

/// The packet that wakes a tunnel is the first that goes over the new
/// session.
pub proof fn law_waking_packet_is_forwarded(course: TunnelCourse, s: TunnelState, packet: Seq<u8>)
    requires
        s.phase == Phase::Waiting,
        ip_packet_ok(packet),
    ensures
        ({
            let (s1, out1) = tunnel_step(course, s, TunnelInput::DevicePacket(packet));
            let (s2, out2) = tunnel_step(course, s1, TunnelInput::Connected);
            &&& out1 == TunnelOutput::Connect
            &&& out2 == TunnelOutput::Forward(packet)
            &&& s2.pending is None
        }),
{
}

/// A tunnel that waits for traffic drops what woke it when connecting fails:
/// after the pause it waits again, with nothing pending.
pub proof fn law_failed_connect_forgets(course: TunnelCourse, s: TunnelState)
    requires
        s.phase == Phase::Connecting,
        !course.always_reconnect,
    ensures
        ({
            let (s1, out1) = tunnel_step(course, s, TunnelInput::ConnectFailed);
            let (s2, out2) = tunnel_step(course, s1, TunnelInput::Done);
            &&& out1 == TunnelOutput::Sleep
            &&& out2 == TunnelOutput::WaitForActivity
            &&& s2 == (TunnelState { phase: Phase::Waiting, pending: None })
        }),
{
}

/// A session that ends is closed, after its hook if there is one, and then
/// there is a pause before the next round.
pub proof fn law_session_is_closed(course: TunnelCourse, s: TunnelState)
    requires
        s.phase == Phase::Pumping,
    ensures
        ({
            let (s1, out1) = tunnel_step(course, s, TunnelInput::Done);
            let (s2, out2) = tunnel_step(course, s1, TunnelInput::Done);
            let (s3, out3) = tunnel_step(course, s2, TunnelInput::Done);
            if course.disconnect_hook {
                out1 == TunnelOutput::Hook && out2 == TunnelOutput::Close && out3
                    == TunnelOutput::Sleep && s3.phase == Phase::Backoff
            } else {
                out1 == TunnelOutput::Close && out2 == TunnelOutput::Sleep && s2.phase
                    == Phase::Backoff
            }
        }),
{
}

/// Every packet that the pump sends out is one that the device gave, of a
/// length that fits its version, after one hop.
pub proof fn law_pump_sends_only_valid_packets(phase: PumpPhase, input: PumpInput)
    requires
        pump_fits(phase, input),
    ensures
        pump_step(phase, input).1 matches PumpOutput::SendToSession(q) ==> exists|p: Seq<u8>|
            input == PumpInput::DeviceRead(p) && ip_packet_ok(p) && ttl_error_text(p) is None && q
                == #[trigger] after_hop(p),
{
    if let PumpInput::DeviceRead(p) = input {
        if outbound_packet(p) is Some {
            assert(after_hop(p) == after_hop(p));
        }
    }
}

/// Bytes can be a packet exactly where the first is 0x40 to 0x4f and there are
/// twenty, or where the first is 0x60 to 0x6f and there are forty.
pub proof fn law_packets_by_their_bytes(p: Seq<u8>)
    ensures
        ip_packet_ok(p) <==> (p.len() >= 20 && 0x40 <= p[0] <= 0x4f) || (p.len() >= 40 && 0x60
            <= p[0] <= 0x6f),
{
}

/// Each round begins with connecting where that is always wanted, and with
/// waiting else. What is pending survives a failure only in the first case.
pub proof fn law_rounds_begin(course: TunnelCourse, s: TunnelState, input: TunnelInput)
    requires
        s.phase == Phase::Idle || s.phase == Phase::Backoff,
        fits(s.phase, input),
    ensures
        ({
            let (t, out) = tunnel_step(course, s, input);
            if course.always_reconnect {
                out == TunnelOutput::Connect && t.phase == Phase::Connecting && t.pending
                    == s.pending
            } else {
                out == TunnelOutput::WaitForActivity && t.phase == Phase::Waiting
                    && t.pending is None
            }
        }),
{
}

/// While a tunnel waits, a packet or a wake-up makes it connect. Bytes that can
/// be no packet leave it waiting, and so does a device that cannot be read,
/// after a pause.
pub proof fn law_waiting_ends_with_traffic(course: TunnelCourse, s: TunnelState, p: Seq<u8>)
    requires
        s.phase == Phase::Waiting,
    ensures
        ({
            let (t, out) = tunnel_step(course, s, TunnelInput::DevicePacket(p));
            if (p.len() >= 20 && 0x40 <= p[0] <= 0x4f) || (p.len() >= 40 && 0x60 <= p[0] <= 0x6f) {
                out == TunnelOutput::Connect && t.phase == Phase::Connecting && t.pending
                    == Some(p)
            } else {
                out == TunnelOutput::WaitForActivity && t == s
            }
        }),
        ({
            let (t, out) = tunnel_step(course, s, TunnelInput::Woken);
            out == TunnelOutput::Connect && t.phase == Phase::Connecting && t.pending == s.pending
        }),
        ({
            let (t, out) = tunnel_step(course, s, TunnelInput::DeviceReadFailed);
            let (u, again) = tunnel_step(course, t, TunnelInput::Done);
            &&& out == TunnelOutput::Sleep
            &&& fits(t.phase, TunnelInput::Done)
            &&& again == TunnelOutput::WaitForActivity
            &&& u == s
        }),
{
}

/// A session that is up hands on what is pending, runs the program for it
/// where there is one, and then moves packets, in this order.
pub proof fn law_session_comes_up(course: TunnelCourse, s: TunnelState)
    requires
        s.phase == Phase::Connecting,
    ensures
        ({
            let (s1, out1) = tunnel_step(course, s, TunnelInput::Connected);
            let (s2, out2) = tunnel_step(course, s1, TunnelInput::Done);
            let (s3, out3) = tunnel_step(course, s2, TunnelInput::Done);
            let first = match s.pending {
                Some(p) => seq![TunnelOutput::Forward(p)],
                None => Seq::empty(),
            };
            let second = if course.connect_hook {
                seq![TunnelOutput::Hook]
            } else {
                Seq::empty()
            };
            let outputs = first + second + seq![TunnelOutput::Pump];
            &&& seq![out1, out2, out3].take(outputs.len() as int) == outputs
            &&& seq![s1, s2, s3][outputs.len() - 1] == (TunnelState {
                phase: Phase::Pumping,
                pending: None,
            })
            &&& out1 is Hook ==> s1.phase == Phase::ConnectHook
            &&& out2 is Hook && outputs.len() == 3 ==> s2.phase == Phase::ConnectHook
        }),
{
    let (s1, out1) = tunnel_step(course, s, TunnelInput::Connected);
    let (s2, out2) = tunnel_step(course, s1, TunnelInput::Done);
    let (s3, out3) = tunnel_step(course, s2, TunnelInput::Done);
    let first = match s.pending {
        Some(p) => seq![TunnelOutput::Forward(p)],
        None => Seq::empty(),
    };
    let second = if course.connect_hook {
        seq![TunnelOutput::Hook]
    } else {
        Seq::empty()
    };
    let outputs = first + second + seq![TunnelOutput::Pump];
    assert(seq![out1, out2, out3].take(outputs.len() as int) =~= outputs);
}

/// A session that could not be set up is tried again after a pause: at once
/// where reconnecting is always wanted.
pub proof fn law_failed_connect_is_repeated(course: TunnelCourse, s: TunnelState)
    requires
        s.phase == Phase::Connecting,
        course.always_reconnect,
    ensures
        ({
            let (s1, out1) = tunnel_step(course, s, TunnelInput::ConnectFailed);
            let (s2, out2) = tunnel_step(course, s1, TunnelInput::Done);
            &&& out1 == TunnelOutput::Sleep
            &&& out2 == TunnelOutput::Connect
            &&& s2 == s
        }),
{
}

/// A program is run for a tunnel exactly where its path is not empty.
pub proof fn law_programs_are_run_where_named(config: MaintainTunnelConfig)
    ensures
        config.course().connect_hook <==> config.on_connect@ != Seq::<char>::empty(),
        config.course().disconnect_hook <==> config.on_disconnect@ != Seq::<char>::empty(),
        config.course().always_reconnect == config.always_reconnect,
{
    assert(config.on_connect@.len() == 0 ==> config.on_connect@ =~= Seq::<char>::empty());
    assert(config.on_disconnect@.len() == 0 ==> config.on_disconnect@ =~= Seq::<char>::empty());
}

/// The program for an event gets the event, the endpoint and the variables of
/// the command, and its output is marked with the event.
pub proof fn law_program_gets_its_variables(
    run: HookRun,
    path: Seq<char>,
    event: Seq<char>,
    endpoint: SocketAddr,
    common: Seq<(Seq<char>, Seq<char>)>,
    name: Seq<char>,
)
    requires
        hook_for(run, path, event, endpoint, common),
        name != "USQUE_EVENT"@,
        name != "USQUE_ENDPOINT"@,
    ensures
        run.path@ == path,
        run.prefix@ == "hook["@ + event + "]"@,
        lookup(pair_texts(run.env@), "USQUE_EVENT"@) == Some(event),
        lookup(pair_texts(run.env@), "USQUE_ENDPOINT"@) == Some(socket_text(endpoint)),
        lookup(pair_texts(run.env@), name) == lookup(common, name),
{
    reveal_strlit("USQUE_EVENT");
    reveal_strlit("USQUE_ENDPOINT");
    assert("USQUE_EVENT"@[7] != "USQUE_ENDPOINT"@[7]);
}

/// The pump sends every complete packet of the device on into the tunnel that
/// has two hops or more left, with one hop less.
pub proof fn law_pump_sends_device_packets(phase: PumpPhase, p: Seq<u8>)
    requires
        (p.len() >= 40 && p[0] / 16 == 6 && p[7] >= 2) || (p.len() >= 20 && p[0] / 16 == 4 && p[0]
            % 16 >= 5 && p[0] % 16 * 4 <= p[2] * 256 + p[3] <= p.len() && p[8] >= 2 && p[9] != 51),
    ensures
        ({
            let (t, out) = pump_step(phase, PumpInput::DeviceRead(p));
            &&& t == PumpPhase::Sending
            &&& out matches PumpOutput::SendToSession(q) && {
                &&& q.len() == p.len()
                &&& p[0] / 16 == 6 ==> q == p.update(7, (p[7] - 1) as u8)
                &&& p[0] / 16 == 4 ==> q[8] == p[8] - 1 && forall|i: int|
                    0 <= i < p.len() && i != 6 && i != 8 && i != 10 && i != 11 ==> #[trigger] q[i]
                        == p[i]
            }
        }),
{
    if p[0] / 16 == 4 {
        law_ipv4_hop_is_taken(p);
        assert forall|i: int|
            0 <= i < p.len() && i != 6 && i != 8 && i != 10 && i
                != 11 implies #[trigger] after_hop(p)[i] == p[i] by {
            law_hop_keeps_the_rest(p, i);
        }
        law_hop_keeps_the_rest(p, 8);
    } else {
        law_ipv6_hop_is_taken(p);
    }
}

/// The pump drops what can be no packet and what has no hop left, and goes on.
pub proof fn law_pump_drops_the_rest(phase: PumpPhase, p: Seq<u8>)
    requires
        p.len() < 20 || (p[0] / 16 != 4 && p[0] / 16 != 6) || (p[0] / 16 == 6 && (p.len() < 40
            || p[7] <= 1)) || (p[0] / 16 == 4 && p[8] <= 1),
    ensures
        pump_step(phase, PumpInput::DeviceRead(p)) == (PumpPhase::Listening, PumpOutput::Listen),
{
}

/// A packet of the session, or its reply to one of the device's, is written to
/// the device as it is; afterwards the pump listens again.
pub proof fn law_pump_delivers_session_packets(phase: PumpPhase, p: Seq<u8>)
    ensures
        pump_step(phase, PumpInput::SessionRead(Some(p))).1 == PumpOutput::WriteToDevice(p),
        pump_step(phase, PumpInput::SessionWrote(Some(p))).1 == PumpOutput::WriteToDevice(p),
        pump_fits(
            pump_step(phase, PumpInput::SessionRead(Some(p))).0,
            PumpInput::DeviceWrote,
        ),
        pump_fits(
            pump_step(phase, PumpInput::SessionWrote(Some(p))).0,
            PumpInput::DeviceWrote,
        ),
        pump_step(phase, PumpInput::SessionRead(None)) == (
            PumpPhase::Listening,
            PumpOutput::Listen,
        ),
        pump_step(phase, PumpInput::SessionWrote(None)) == (
            PumpPhase::Listening,
            PumpOutput::Listen,
        ),
        pump_step(phase, PumpInput::DeviceWrote) == (PumpPhase::Listening, PumpOutput::Listen),
{
}

/// The pump stops on every failure, and only then. An error of the session is
/// handed on as it is; one of the device is told with what was being done.
pub proof fn law_pump_stops_on_failures(
    phase: PumpPhase,
    input: PumpInput,
    p: Seq<u8>,
    err: SessionFailure,
    reason: Seq<char>,
)
    ensures
        pump_step(phase, input).1 is Stop <==> input is DeviceReadFailed
            || input is SessionReadFailed || input is SessionWriteFailed
            || input is DeviceWriteFailed,
        pump_step(phase, PumpInput::SessionReadFailed(err)).1 == PumpOutput::Stop(err),
        pump_step(phase, PumpInput::SessionWriteFailed(err)).1 == PumpOutput::Stop(err),
        pump_step(phase, PumpInput::DeviceReadFailed(reason)).1 == PumpOutput::Stop(
            SessionFailure::Other("failed to read from device: "@ + reason),
        ),
        ({
            let delivering = pump_step(phase, PumpInput::SessionRead(Some(p))).0;
            pump_step(delivering, PumpInput::DeviceWriteFailed(reason)).1 == PumpOutput::Stop(
                SessionFailure::Other("failed to write to device: "@ + reason),
            )
        }),
        ({
            let replying = pump_step(phase, PumpInput::SessionWrote(Some(p))).0;
            pump_step(replying, PumpInput::DeviceWriteFailed(reason)).1 == PumpOutput::Stop(
                SessionFailure::Other("failed to write ICMP to device: "@ + reason),
            )
        }),
{
}

/// The log tells of every IPv4 packet with a line of its own, of one with a
/// TCP segment with another, and of an outbound SYN with a third.
pub proof fn law_log_lines_by_bytes(direction: Seq<char>, p: Seq<u8>)
    ensures
        packet_lines(direction, p).len() == (if p.len() < 20 || p[0] / 16 != 4 {
            0nat
        } else if p[9] != 6 || p.len() < 34 || p.len() < p[0] % 16 * 4 + 14 {
            1
        } else if direction == "out"@ && p[p[0] % 16 * 4 + 13] / 2 % 2 == 1 {
            3
        } else {
            2
        }),
        p.len() >= 20 && p[0] / 16 == 4 ==> packet_lines(direction, p)[0] == "tunnel: "@ + direction
            + " ipv4 "@ + (decimal_text(p[12] as nat) + "."@ + decimal_text(p[13] as nat) + "."@
            + decimal_text(p[14] as nat) + "."@ + decimal_text(p[15] as nat)) + " -> "@ + (
        decimal_text(p[16] as nat) + "."@ + decimal_text(p[17] as nat) + "."@ + decimal_text(
            p[18] as nat,
        ) + "."@ + decimal_text(p[19] as nat)) + " proto "@ + decimal_text(p[9] as nat) + " len "@
            + decimal_text(p.len()),
        packet_lines(direction, p).len() >= 2 ==> packet_lines(direction, p)[1] == ({
            let at = p[0] % 16 * 4;
            "tunnel: "@ + direction + " tcp "@ + decimal_text(
                (p[at as int] * 256 + p[at + 1]) as nat,
            ) + "->"@ + decimal_text((p[at + 2] * 256 + p[at + 3]) as nat) + " seq="@
                + decimal_text(
                (p[at + 4] * 0x100_0000 + p[at + 5] * 0x1_0000 + p[at + 6] * 0x100 + p[at
                    + 7]) as nat,
            ) + " ack="@ + decimal_text(
                (p[at + 8] * 0x100_0000 + p[at + 9] * 0x1_0000 + p[at + 10] * 0x100 + p[at
                    + 11]) as nat,
            ) + " flags=0x"@ + hex_byte_text(p[at + 13])
        }),
{
    if packet_lines(direction, p).len() >= 2 {
        let at = (p[0] % 16) as int * 4;
        lemma_be_2(p.subrange(at, at + 2));
        lemma_be_2(p.subrange(at + 2, at + 4));
        lemma_be_4(p.subrange(at + 4, at + 8));
        lemma_be_4(p.subrange(at + 8, at + 12));
    }
}

/// Every event that can happen in a phase is one that the supervisor takes.
pub proof fn law_supervisor_takes_its_events(phase: Phase, p: Seq<u8>)
    ensures
        fits(Phase::Idle, TunnelInput::Started),
        fits(Phase::Waiting, TunnelInput::DevicePacket(p)),
        fits(Phase::Waiting, TunnelInput::DeviceReadFailed),
        fits(Phase::Waiting, TunnelInput::Woken),
        fits(Phase::Connecting, TunnelInput::Connected),
        fits(Phase::Connecting, TunnelInput::ConnectFailed),
        phase != Phase::Idle && phase != Phase::Waiting && phase != Phase::Connecting ==> fits(
            phase,
            TunnelInput::Done,
        ),
{
}

/// Every event that can happen in a phase of the pump is one that it takes.
pub proof fn law_pump_takes_its_events(
    p: Option<Seq<u8>>,
    bytes: Seq<u8>,
    reason: Seq<char>,
    err: SessionFailure,
)
    ensures
        pump_fits(PumpPhase::Listening, PumpInput::DeviceRead(bytes)),
        pump_fits(PumpPhase::Listening, PumpInput::DeviceReadFailed(reason)),
        pump_fits(PumpPhase::Listening, PumpInput::SessionRead(p)),
        pump_fits(PumpPhase::Listening, PumpInput::SessionReadFailed(err)),
        pump_fits(PumpPhase::Sending, PumpInput::SessionWrote(p)),
        pump_fits(PumpPhase::Sending, PumpInput::SessionWriteFailed(err)),
        pump_fits(PumpPhase::Replying, PumpInput::DeviceWrote),
        pump_fits(PumpPhase::Replying, PumpInput::DeviceWriteFailed(reason)),
        pump_fits(PumpPhase::Delivering, PumpInput::DeviceWrote),
        pump_fits(PumpPhase::Delivering, PumpInput::DeviceWriteFailed(reason)),
{
}

/// The bytes of an outbound SYN are logged in hexadecimal, the first 52 at
/// most, with a comma and a blank between each two.
pub proof fn law_syn_is_logged_in_full(p: Seq<u8>)
    requires
        packet_lines("out"@, p).len() == 3,
    ensures
        packet_lines("out"@, p)[2] == "tunnel: out syn hex ["@ + join_text(
            Seq::new(
                if p.len() <= 52 {
                    p.len()
                } else {
                    52
                },
                |i: int| hex_byte_text(p[i]),
            ),
            ", "@,
        ) + "]"@,
{
    let n = if p.len() <= 52 {
        p.len() as int
    } else {
        52
    };
    let t = p.take(n);
    assert(Seq::new(t.len(), |i: int| hex_byte_text(t[i])) =~= Seq::new(
        n as nat,
        |i: int| hex_byte_text(p[i]),
    ));
}

/// The supervisor is told what happened and says what it does: nothing is lost
/// or turned into something else with the buffers.
pub proof fn law_tunnel_events_and_actions(packet: Bytes, run: HookRun)
    ensures
        TunnelEvent::Started.input() == TunnelInput::Started,
        TunnelEvent::DevicePacket(packet).input() == TunnelInput::DevicePacket(bytes_view(packet)),
        TunnelEvent::DeviceReadFailed.input() == TunnelInput::DeviceReadFailed,
        TunnelEvent::Woken.input() == TunnelInput::Woken,
        TunnelEvent::Connected.input() == TunnelInput::Connected,
        TunnelEvent::ConnectFailed.input() == TunnelInput::ConnectFailed,
        TunnelEvent::Done.input() == TunnelInput::Done,
        TunnelAction::WaitForActivity.output() == TunnelOutput::WaitForActivity,
        TunnelAction::Sleep.output() == TunnelOutput::Sleep,
        TunnelAction::Connect.output() == TunnelOutput::Connect,
        TunnelAction::Forward(packet).output() == TunnelOutput::Forward(bytes_view(packet)),
        TunnelAction::Hook(run).output() == TunnelOutput::Hook,
        TunnelAction::Pump.output() == TunnelOutput::Pump,
        TunnelAction::Close.output() == TunnelOutput::Close,
{
}

/// The pump is told what happened and says what it does: nothing is lost or
/// turned into something else with the buffers.
pub proof fn law_pump_events_and_actions(
    read: BytesMut,
    packet: Bytes,
    reason: String,
    err: SessionError,
)
    ensures
        PumpEvent::DeviceRead(read).input() == PumpInput::DeviceRead(bytes_mut_view(read)),
        PumpEvent::DeviceReadFailed(reason).input() == PumpInput::DeviceReadFailed(reason@),
        PumpEvent::SessionRead(Some(packet)).input() == PumpInput::SessionRead(
            Some(bytes_view(packet)),
        ),
        PumpEvent::SessionRead(None).input() == PumpInput::SessionRead(None),
        PumpEvent::SessionReadFailed(err).input() == PumpInput::SessionReadFailed(err.failure()),
        PumpEvent::SessionWrote(Some(packet)).input() == PumpInput::SessionWrote(
            Some(bytes_view(packet)),
        ),
        PumpEvent::SessionWrote(None).input() == PumpInput::SessionWrote(None),
        PumpEvent::SessionWriteFailed(err).input() == PumpInput::SessionWriteFailed(err.failure()),
        PumpEvent::DeviceWrote.input() == PumpInput::DeviceWrote,
        PumpEvent::DeviceWriteFailed(reason).input() == PumpInput::DeviceWriteFailed(reason@),
        PumpAction::Listen.output() == PumpOutput::Listen,
        PumpAction::SendToSession(packet).output() == PumpOutput::SendToSession(bytes_view(packet)),
        PumpAction::WriteToDevice(packet).output() == PumpOutput::WriteToDevice(bytes_view(packet)),
        PumpAction::Stop(err).output() == PumpOutput::Stop(err.failure()),
        SessionError::Closed.failure() == SessionFailure::Closed,
        SessionError::Other(reason).failure() == SessionFailure::Other(reason@),
{
}

} // verus!
