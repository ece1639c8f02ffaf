//! The userspace TCP/IP stack: how its interface is set up, and what its
//! sockets report to their users.

use vstd::prelude::*;
use vstd::string::*;

use crate::ip::IpAddr;

verus! {

/// The first port of the range that local ports are taken from.
pub const FIRST_LOCAL_PORT: u16 = 49152;

/// `rand::random` for a 16-bit number, which is chance. There is none on a
/// system that has no randomness to give.
#[verifier::external_body]
fn random_u16() -> u16 {
    rand::random::<u16>()
}

/// The dynamic port for a number.
pub open spec fn dynamic_port(number: u16) -> int {
    49152 + number % 16384
}

/// The local port for a random number: one of the dynamic ports.
pub fn local_port(random: u16) -> (port: u16)
    ensures
        port == dynamic_port(random),
        49152 <= port <= 65535,
{
    FIRST_LOCAL_PORT + random % 16384
}

/// A random local port, one of the dynamic ports.
pub fn random_local_port() -> (port: u16)
    ensures
        port >= 49152,
{
    local_port(random_u16())
}

/// How the interface of the stack is set up: its addresses with the length of
/// their prefixes, and for which families there is a default route.
pub struct InterfacePlan {
    pub addresses: Vec<(IpAddr, u8)>,
    pub route_v4: bool,
    pub route_v6: bool,
}

/// The addresses of an interface with the lengths of their prefixes.
pub open spec fn host_addresses(v4: Option<IpAddr>, v6: Option<IpAddr>) -> Seq<(IpAddr, u8)> {
    (match v4 {
        Some(ip) => seq![(ip, 32u8)],
        None => Seq::empty(),
    }) + (match v6 {
        Some(ip) => seq![(ip, 128u8)],
        None => Seq::empty(),
    })
}

/// Plans the interface of the stack: each address alone in its network, and a
/// default route for its family. (A prefix of 128 bits is one of IPv6.)
pub fn interface_plan(local_v4: Option<IpAddr>, local_v6: Option<IpAddr>) -> (r: InterfacePlan)
    requires
        local_v6 matches Some(ip) ==> ip is V6,
    ensures
        r.addresses@ == host_addresses(local_v4, local_v6),
        r.route_v4 == local_v4 is Some,
        r.route_v6 == local_v6 is Some,
{
    let mut addresses: Vec<(IpAddr, u8)> = Vec::new();
    if let Some(ip) = local_v4 {
        addresses.push((ip, 32));
    }
    if let Some(ip) = local_v6 {
        addresses.push((ip, 128));
    }
    assert(addresses@ =~= host_addresses(local_v4, local_v6));
    InterfacePlan { addresses, route_v4: local_v4.is_some(), route_v6: local_v6.is_some() }
}

/// The state of a TCP connection.
#[derive(Clone, Copy, Debug, PartialEq, Eq, Structural)]
pub enum TcpState {
    Closed,
    Listen,
    SynSent,
    SynReceived,
    Established,
    FinWait1,
    FinWait2,
    CloseWait,
    Closing,
    LastAck,
    TimeWait,
}

/// Why an operation on a socket failed.
#[derive(Clone, Copy, Debug, PartialEq, Eq, Structural)]
pub enum SocketError {
    /// There is no connection.
    NotConnected,
    /// A connection cannot be opened to this address.
    TcpConnectFailed,
    /// The other side refused.
    TcpClosed,
    /// The other side did not answer in time.
    TcpTimedOut,
    /// The local port is taken.
    UdpBindFailed,
    /// Nothing can be sent to this address.
    UdpSendFailed,
    /// There was no room for the datagram in time.
    UdpSendTimedOut,
    /// The datagram is longer than the buffer.
    UdpTruncated,
    /// No datagram came in time.
    UdpRecvTimedOut,
}

impl SocketError {
    /// What the error says.
    pub open spec fn text(&self) -> Seq<char> {
        match self {
            SocketError::NotConnected => "not connected"@,
            SocketError::TcpConnectFailed => "tcp connect failed"@,
            SocketError::TcpClosed => "tcp connection closed"@,
            SocketError::TcpTimedOut => "tcp connect timed out"@,
            SocketError::UdpBindFailed => "udp bind failed"@,
            SocketError::UdpSendFailed => "udp send failed"@,
            SocketError::UdpSendTimedOut => "udp send timed out"@,
            SocketError::UdpTruncated => "udp truncated"@,
            SocketError::UdpRecvTimedOut => "udp recv timed out"@,
        }
    }

    /// Writes the error as a message.
    pub fn message(&self) -> (out: &'static str)
        ensures
            out@ == self.text(),
    {
        match self {
            SocketError::NotConnected => "not connected",
            SocketError::TcpConnectFailed => "tcp connect failed",
            SocketError::TcpClosed => "tcp connection closed",
            SocketError::TcpTimedOut => "tcp connect timed out",
            SocketError::UdpBindFailed => "udp bind failed",
            SocketError::UdpSendFailed => "udp send failed",
            SocketError::UdpSendTimedOut => "udp send timed out",
            SocketError::UdpTruncated => "udp truncated",
            SocketError::UdpRecvTimedOut => "udp recv timed out",
        }
    }
}

/// How long a connection may take to open, in milliseconds.
pub const DIAL_TIMEOUT_MS: u64 = 60000;

/// How long a datagram may take to be sent or received, in milliseconds.
pub const UDP_TIMEOUT_MS: u64 = 5000;

/// How long to wait for the stack before looking again, in milliseconds.
pub const RETRY_MS: u64 = 50;

/// What to do about an operation that may have to wait.
#[derive(Clone, Copy, Debug, PartialEq, Eq, Structural)]
pub enum WaitStep {
    /// It is done.
    Ready,
    /// It failed.
    Fail(SocketError),
    /// Look again later.
    Wait,
}

/// What becomes of a connection that is being opened.
pub open spec fn dial_step(state: TcpState, late: bool) -> WaitStep {
    match state {
        TcpState::Established => WaitStep::Ready,
        TcpState::Closed => WaitStep::Fail(SocketError::TcpClosed),
        TcpState::TimeWait => WaitStep::Fail(SocketError::TcpClosed),
        _ => if late {
            WaitStep::Fail(SocketError::TcpTimedOut)
        } else {
            WaitStep::Wait
        },
    }
}

/// Judges a connection that is being opened, by its state and by whether its
/// time is up.
pub fn dial_tcp(state: TcpState, late: bool) -> (r: WaitStep)
    ensures
        r == dial_step(state, late),
{
    match state {
        TcpState::Established => WaitStep::Ready,
        TcpState::Closed => WaitStep::Fail(SocketError::TcpClosed),
        TcpState::TimeWait => WaitStep::Fail(SocketError::TcpClosed),
        _ => if late {
            WaitStep::Fail(SocketError::TcpTimedOut)
        } else {
            WaitStep::Wait
        },
    }
}

/// What the stack says of reading from a connection.
#[derive(Clone, Copy, Debug, PartialEq, Eq, Structural)]
pub enum RecvOutcome {
    /// So many bytes were read.
    Read(usize),
    /// The connection is in no state to be read.
    InvalidState,
    /// The other side has sent all it had.
    Finished,
}

/// What a reader is told.
#[derive(Clone, Copy, Debug, PartialEq, Eq, Structural)]
pub enum ReadOutcome {
    /// So many bytes; none means the end.
    Bytes(usize),
    /// There is no connection.
    Failed(SocketError),
    /// Nothing yet.
    Pending,
}

/// What a reader is told.
pub open spec fn reader_told(outcome: RecvOutcome, state: TcpState) -> ReadOutcome {
    match outcome {
        RecvOutcome::Read(n) => if n > 0 || state == TcpState::Closed || state
            == TcpState::TimeWait {
            ReadOutcome::Bytes(n)
        } else {
            ReadOutcome::Pending
        },
        RecvOutcome::InvalidState => ReadOutcome::Failed(SocketError::NotConnected),
        RecvOutcome::Finished => ReadOutcome::Bytes(0),
    }
}

/// Decides what a reader is told, by what the stack says and by the state of
/// the connection.
pub fn poll_read(outcome: RecvOutcome, state: TcpState) -> (r: ReadOutcome)
    ensures
        r == reader_told(outcome, state),
{
    match outcome {
        RecvOutcome::Read(n) => if n > 0 || state == TcpState::Closed || state
            == TcpState::TimeWait {
            ReadOutcome::Bytes(n)
        } else {
            ReadOutcome::Pending
        },
        RecvOutcome::InvalidState => ReadOutcome::Failed(SocketError::NotConnected),
        RecvOutcome::Finished => ReadOutcome::Bytes(0),
    }
}

/// What a writer is told.
pub open spec fn writer_told(accepted: Option<usize>) -> ReadOutcome {
    match accepted {
        Some(n) => if n > 0 {
            ReadOutcome::Bytes(n)
        } else {
            ReadOutcome::Pending
        },
        None => ReadOutcome::Failed(SocketError::NotConnected),
    }
}

/// Decides what a writer is told: `accepted` bytes were taken, or the
/// connection is in no state to be written.
pub fn poll_write(accepted: Option<usize>) -> (r: ReadOutcome)
    ensures
        r == writer_told(accepted),
{
    match accepted {
        Some(n) => if n > 0 {
            ReadOutcome::Bytes(n)
        } else {
            ReadOutcome::Pending
        },
        None => ReadOutcome::Failed(SocketError::NotConnected),
    }
}

/// What the stack says of sending a datagram.
#[derive(Clone, Copy, Debug, PartialEq, Eq, Structural)]
pub enum UdpSendOutcome {
    Sent,
    BufferFull,
    Unaddressable,
}

/// What becomes of a datagram that is being sent.
pub open spec fn send_step(outcome: UdpSendOutcome, late: bool) -> WaitStep {
    match outcome {
        UdpSendOutcome::Sent => WaitStep::Ready,
        UdpSendOutcome::Unaddressable => WaitStep::Fail(SocketError::UdpSendFailed),
        UdpSendOutcome::BufferFull => if late {
            WaitStep::Fail(SocketError::UdpSendTimedOut)
        } else {
            WaitStep::Wait
        },
    }
}

/// Judges a datagram that is being sent.
pub fn send_to(outcome: UdpSendOutcome, late: bool) -> (r: WaitStep)
    ensures
        r == send_step(outcome, late),
{
    match outcome {
        UdpSendOutcome::Sent => WaitStep::Ready,
        UdpSendOutcome::Unaddressable => WaitStep::Fail(SocketError::UdpSendFailed),
        UdpSendOutcome::BufferFull => if late {
            WaitStep::Fail(SocketError::UdpSendTimedOut)
        } else {
            WaitStep::Wait
        },
    }
}

/// What the stack says of receiving a datagram.
#[derive(Clone, Copy, Debug, PartialEq, Eq, Structural)]
pub enum UdpRecvOutcome {
    Received,
    Exhausted,
    Truncated,
}

/// What becomes of a datagram that is being received.
pub open spec fn recv_step(outcome: UdpRecvOutcome, late: bool) -> WaitStep {
    match outcome {
        UdpRecvOutcome::Received => WaitStep::Ready,
        UdpRecvOutcome::Truncated => WaitStep::Fail(SocketError::UdpTruncated),
        UdpRecvOutcome::Exhausted => if late {
            WaitStep::Fail(SocketError::UdpRecvTimedOut)
        } else {
            WaitStep::Wait
        },
    }
}

/// Judges a datagram that is being received.
pub fn recv_from(outcome: UdpRecvOutcome, late: bool) -> (r: WaitStep)
    ensures
        r == recv_step(outcome, late),
{
    match outcome {
        UdpRecvOutcome::Received => WaitStep::Ready,
        UdpRecvOutcome::Truncated => WaitStep::Fail(SocketError::UdpTruncated),
        UdpRecvOutcome::Exhausted => if late {
            WaitStep::Fail(SocketError::UdpRecvTimedOut)
        } else {
            WaitStep::Wait
        },
    }
}

/// The part of a packet that fits in a buffer with room for `room` bytes.
pub fn fitting<'a>(packet: &'a [u8], room: usize) -> (r: &'a [u8])
    ensures
        r@ == packet@.take(if packet@.len() <= room {
            packet@.len() as int
        } else {
            room as int
        }),
{
    let n: usize = if packet.len() <= room {
        packet.len()
    } else {
        room
    };
    let r = vstd::slice::slice_subrange(packet, 0, n);
    assert(r@ =~= packet@.take(n as int));
    r
}

/// A local port is one of the dynamic ports (49152 to 65535), every one of them
/// comes of some number, and numbers that are 16384 apart give the same one.
pub proof fn law_local_ports_are_dynamic(number: u16, port: u16)
    ensures
        49152 <= dynamic_port(number) <= 65535,
        port >= 49152 ==> dynamic_port(port) == port && dynamic_port((port - 49152) as u16) == port,
        number < 49152 ==> dynamic_port((number + 16384) as u16) == dynamic_port(number),
        number < 16383 ==> dynamic_port((number + 1) as u16) == dynamic_port(number) + 1,
{
}

/// Every address given is on the interface, as the only one of its network,
/// and none else is.
pub proof fn law_interface_has_its_addresses(v4: Option<IpAddr>, v6: Option<IpAddr>, a: (IpAddr, u8))
    ensures
        host_addresses(v4, v6).contains(a) <==> (v4 == Some(a.0) && a.1 == 32) || (v6 == Some(a.0)
            && a.1 == 128),
{
    let all = host_addresses(v4, v6);
    if v4 == Some(a.0) && a.1 == 32 {
        assert(all[0] == a);
    }
    if v6 == Some(a.0) && a.1 == 128 {
        assert(all[all.len() - 1] == a);
    }
}

/// A connection that stands is ready however late it is, and one that was
/// closed has failed. Any other is waited for until its time is up.
pub proof fn law_dialing_ends(state: TcpState, late: bool)
    ensures
        dial_step(state, late) == WaitStep::Ready <==> state == TcpState::Established,
        dial_step(state, late) == WaitStep::Fail(SocketError::TcpClosed) <==> state
            == TcpState::Closed || state == TcpState::TimeWait,
        dial_step(state, true) != WaitStep::Wait,
        state != TcpState::Established && state != TcpState::Closed && state != TcpState::TimeWait
            ==> dial_step(state, false) == WaitStep::Wait && dial_step(state, true)
            == WaitStep::Fail(SocketError::TcpTimedOut),
{
}

/// A reader gets what was read as soon as there is anything; the end of the
/// stream where the other side has finished or the connection is gone; and
/// waits else. It is never told the end of a connection that stands.
pub proof fn law_reading_gives_what_came(n: usize, state: TcpState)
    ensures
        n > 0 ==> reader_told(RecvOutcome::Read(n), state) == ReadOutcome::Bytes(n),
        reader_told(RecvOutcome::Read(0), state) == ReadOutcome::Bytes(0) <==> state
            == TcpState::Closed || state == TcpState::TimeWait,
        state != TcpState::Closed && state != TcpState::TimeWait ==> reader_told(
            RecvOutcome::Read(0),
            state,
        ) == ReadOutcome::Pending,
        reader_told(RecvOutcome::Finished, state) == ReadOutcome::Bytes(0),
        reader_told(RecvOutcome::InvalidState, state) == ReadOutcome::Failed(
            SocketError::NotConnected,
        ),
{
}

/// A writer is told how much was taken, waits where nothing was, and fails
/// where there is no connection.
pub proof fn law_writing_tells_what_was_taken(n: usize)
    ensures
        n > 0 ==> writer_told(Some(n)) == ReadOutcome::Bytes(n),
        writer_told(Some(0)) == ReadOutcome::Pending,
        writer_told(None) == ReadOutcome::Failed(SocketError::NotConnected),
{
}

/// A datagram that was sent or received is done however late it is; one that
/// cannot be is refused at once; and nothing is waited for when time is up.
pub proof fn law_datagrams_do_not_wait_forever(late: bool)
    ensures
        send_step(UdpSendOutcome::Sent, late) == WaitStep::Ready,
        send_step(UdpSendOutcome::Unaddressable, late) == WaitStep::Fail(
            SocketError::UdpSendFailed,
        ),
        send_step(UdpSendOutcome::BufferFull, false) == WaitStep::Wait,
        send_step(UdpSendOutcome::BufferFull, true) == WaitStep::Fail(SocketError::UdpSendTimedOut),
        recv_step(UdpRecvOutcome::Received, late) == WaitStep::Ready,
        recv_step(UdpRecvOutcome::Truncated, late) == WaitStep::Fail(SocketError::UdpTruncated),
        recv_step(UdpRecvOutcome::Exhausted, false) == WaitStep::Wait,
        recv_step(UdpRecvOutcome::Exhausted, true) == WaitStep::Fail(SocketError::UdpRecvTimedOut),
{
}

/// What each failure of a socket is reported as.
pub proof fn law_socket_errors_are_reported()
    ensures
        SocketError::NotConnected.text() == "not connected"@,
        SocketError::TcpConnectFailed.text() == "tcp connect failed"@,
        SocketError::TcpClosed.text() == "tcp connection closed"@,
        SocketError::TcpTimedOut.text() == "tcp connect timed out"@,
        SocketError::UdpBindFailed.text() == "udp bind failed"@,
        SocketError::UdpSendFailed.text() == "udp send failed"@,
        SocketError::UdpSendTimedOut.text() == "udp send timed out"@,
        SocketError::UdpTruncated.text() == "udp truncated"@,
        SocketError::UdpRecvTimedOut.text() == "udp recv timed out"@,
{
}

/// A connection has a minute to open, a datagram five seconds, and both are
/// looked at twenty times in a second.
pub proof fn law_times_of_the_stack()
    ensures
        DIAL_TIMEOUT_MS == 60 * 1000,
        UDP_TIMEOUT_MS == 5 * 1000,
        RETRY_MS * 20 == 1000,
{
}

} // verus!
