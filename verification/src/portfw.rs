//! Port forwarding through the tunnel.

use vstd::prelude::*;
use vstd::string::*;

use crate::ip::{host_port_addr, socket_value, SocketAddr};
use crate::text::{
    decimal_text, decimal_value, free_of, law_decimal_reads_back, lemma_split_last,
    lemma_split_single, parse_u16, split_on, split_text,
};

verus! {

/// A forwarded port: where to listen, and where to connect to.
#[derive(Debug, Clone)]
pub struct PortMapping {
    pub bind_address: String,
    pub local_port: u16,
    pub remote_ip: String,
    pub remote_port: u16,
}

/// Why a text is no port mapping.
#[derive(Clone, Copy, Debug, PartialEq, Eq, Structural)]
pub enum MappingError {
    /// It does not have three or four parts.
    Format,
    /// The local port is none.
    LocalPort,
    /// The remote port is none.
    RemotePort,
}

impl MappingError {
    /// What the error says.
    pub open spec fn text(&self) -> Seq<char> {
        match self {
            MappingError::Format => "invalid port mapping format"@,
            MappingError::LocalPort => "invalid local port"@,
            MappingError::RemotePort => "invalid remote port"@,
        }
    }

    /// Writes the error as a message.
    pub fn message(&self) -> (out: &'static str)
        ensures
            out@ == self.text(),
    {
        match self {
            MappingError::Format => "invalid port mapping format",
            MappingError::LocalPort => "invalid local port",
            MappingError::RemotePort => "invalid remote port",
        }
    }
}

/// The parts of a mapping.
pub struct MappingTexts {
    pub bind_address: Seq<char>,
    pub local_port: nat,
    pub remote_ip: Seq<char>,
    pub remote_port: nat,
}

impl PortMapping {
    /// The parts of the mapping.
    pub open spec fn texts(&self) -> MappingTexts {
        MappingTexts {
            bind_address: self.bind_address@,
            local_port: self.local_port as nat,
            remote_ip: self.remote_ip@,
            remote_port: self.remote_port as nat,
        }
    }
}

/// The mapping that four parts make.
pub open spec fn mapping_of(
    bind: Seq<char>,
    local: Seq<char>,
    remote_ip: Seq<char>,
    remote: Seq<char>,
) -> Result<MappingTexts, MappingError> {
    match decimal_value(local, 65535) {
        None => Err(MappingError::LocalPort),
        Some(local_port) => match decimal_value(remote, 65535) {
            None => Err(MappingError::RemotePort),
            Some(remote_port) => Ok(
                MappingTexts { bind_address: bind, local_port, remote_ip, remote_port },
            ),
        },
    }
}

/// The mapping in a text: an address to listen on (by default the local
/// host), a port there, and the address and port to connect to, with colons
/// between them.
pub open spec fn mapping_value(input: Seq<char>) -> Result<MappingTexts, MappingError> {
    let p = split_on(input, ':');
    if p.len() == 3 {
        mapping_of("localhost"@, p[0], p[1], p[2])
    } else if p.len() == 4 {
        mapping_of(p[0], p[1], p[2], p[3])
    } else {
        Err(MappingError::Format)
    }
}

fn make_mapping(bind: &str, local: &str, remote_ip: &str, remote: &str) -> (r: Result<
    PortMapping,
    MappingError,
>)
    ensures
        match r {
            Ok(m) => mapping_of(bind@, local@, remote_ip@, remote@) == Ok::<
                MappingTexts,
                MappingError,
            >(m.texts()),
            Err(err) => mapping_of(bind@, local@, remote_ip@, remote@) == Err::<
                MappingTexts,
                MappingError,
            >(err),
        },
{
    match parse_u16(local) {
        None => Err(MappingError::LocalPort),
        Some(local_port) => match parse_u16(remote) {
            None => Err(MappingError::RemotePort),
            Some(remote_port) => Ok(
                PortMapping {
                    bind_address: bind.to_owned(),
                    local_port,
                    remote_ip: remote_ip.to_owned(),
                    remote_port,
                },
            ),
        },
    }
}

/// Reads a port mapping: `[bind:]port:remote:port`.
pub fn parse_port_mapping(input: &str) -> (r: Result<PortMapping, MappingError>)
    ensures
        match r {
            Ok(m) => mapping_value(input@) == Ok::<MappingTexts, MappingError>(m.texts()),
            Err(err) => mapping_value(input@) == Err::<MappingTexts, MappingError>(err),
        },
{
    let parts = split_text(input, ':');
    if parts.len() == 3 {
        make_mapping("localhost", parts[0].as_str(), parts[1].as_str(), parts[2].as_str())
    } else if parts.len() == 4 {
        make_mapping(parts[0].as_str(), parts[1].as_str(), parts[2].as_str(), parts[3].as_str())
    } else {
        Err(MappingError::Format)
    }
}

/// Reads several port mappings; the first that is none decides.
pub fn parse_port_mappings(inputs: &Vec<String>) -> (r: Result<Vec<PortMapping>, MappingError>)
    ensures
        match r {
            Ok(out) => out@.len() == inputs@.len() && forall|i: int|
                0 <= i < out@.len() ==> mapping_value((#[trigger] inputs@[i])@) == Ok::<
                    MappingTexts,
                    MappingError,
                >(out@[i].texts()),
            Err(err) => exists|k: int|
                0 <= k < inputs@.len() && mapping_value((#[trigger] inputs@[k])@) == Err::<
                    MappingTexts,
                    MappingError,
                >(err) && forall|i: int|
                    0 <= i < k ==> mapping_value((#[trigger] inputs@[i])@) is Ok,
        },
{
    let mut out: Vec<PortMapping> = Vec::new();
    let mut i: usize = 0;
    while i < inputs.len()
        invariant
            i <= inputs@.len(),
            out@.len() == i,
            forall|j: int|
                0 <= j < i ==> mapping_value((#[trigger] inputs@[j])@) == Ok::<
                    MappingTexts,
                    MappingError,
                >(out@[j].texts()),
        decreases inputs@.len() - i,
    {
        match parse_port_mapping(inputs[i].as_str()) {
            Ok(m) => {
                out.push(m);
            },
            Err(err) => {
                assert(mapping_value(inputs@[i as int]@) == Err::<MappingTexts, MappingError>(err));
                return Err(err);
            },
        }
        i = i + 1;
    }
    Ok(out)
}

/// Which end of a forward has no address.
#[derive(Clone, Copy, Debug, PartialEq, Eq, Structural)]
pub enum ForwardError {
    /// The address to listen on is none.
    Bind,
    /// The address to connect to is none.
    Remote,
}

/// The addresses of a forward: where to listen, and where to connect to. Both
/// have to be IP addresses.
pub fn forward_addrs(mapping: &PortMapping) -> (r: Result<(SocketAddr, SocketAddr), ForwardError>)
    ensures
        ({
            let bind = socket_value(
                mapping.bind_address@ + ":"@ + decimal_text(mapping.local_port as nat),
            );
            let remote = socket_value(
                mapping.remote_ip@ + ":"@ + decimal_text(mapping.remote_port as nat),
            );
            match r {
                Ok((b, a)) => bind == Some(b) && remote == Some(a),
                Err(ForwardError::Bind) => bind is None,
                Err(ForwardError::Remote) => bind is Some && remote is None,
            }
        }),
{
    let bind = match host_port_addr(mapping.bind_address.as_str(), mapping.local_port) {
        Some(bind) => bind,
        None => {
            return Err(ForwardError::Bind);
        },
    };
    match host_port_addr(mapping.remote_ip.as_str(), mapping.remote_port) {
        Some(remote) => Ok((bind, remote)),
        None => Err(ForwardError::Remote),
    }
}

/// A mapping that is written with colons between its parts is read as those
/// parts, each in its place: the address to listen on and the port there, then
/// the address and port to connect to. Without the first part it listens on
/// `localhost`.
pub proof fn law_mapping_reads_back(
    bind: Seq<char>,
    local_port: u16,
    remote_ip: Seq<char>,
    remote_port: u16,
)
    requires
        free_of(bind, ':'),
        free_of(remote_ip, ':'),
    ensures
        ({
            let short = decimal_text(local_port as nat) + seq![':'] + remote_ip + seq![':']
                + decimal_text(remote_port as nat);
            let full = bind + seq![':'] + decimal_text(local_port as nat) + seq![':'] + remote_ip
                + seq![':'] + decimal_text(remote_port as nat);
            &&& mapping_value(full) == Ok::<MappingTexts, MappingError>(
                MappingTexts {
                    bind_address: bind,
                    local_port: local_port as nat,
                    remote_ip,
                    remote_port: remote_port as nat,
                },
            )
            &&& mapping_value(short) == Ok::<MappingTexts, MappingError>(
                MappingTexts {
                    bind_address: "localhost"@,
                    local_port: local_port as nat,
                    remote_ip,
                    remote_port: remote_port as nat,
                },
            )
        }),
{
    let l = decimal_text(local_port as nat);
    let r = decimal_text(remote_port as nat);
    lemma_number_is_a_part(local_port as nat);
    lemma_number_is_a_part(remote_port as nat);
    lemma_three_parts(l, remote_ip, r);
    lemma_four_parts(bind, l, remote_ip, r);
}

proof fn lemma_number_is_a_part(n: nat)
    ensures
        free_of(decimal_text(n), ':'),
        n <= 65535 ==> decimal_value(decimal_text(n), 65535) == Some(n),
{
    law_decimal_reads_back(n);
    let s = decimal_text(n);
    assert forall|i: int| 0 <= i < s.len() implies #[trigger] s[i] != ':' by {
        assert('0' <= s[i] <= '9');
    }
}

proof fn lemma_three_parts(a: Seq<char>, b: Seq<char>, c: Seq<char>)
    requires
        free_of(a, ':'),
        free_of(b, ':'),
        free_of(c, ':'),
    ensures
        split_on(a + seq![':'] + b + seq![':'] + c, ':') == seq![a, b, c],
{
    lemma_split_single(a, ':');
    lemma_split_last(a, ':', b);
    lemma_split_last(a + seq![':'] + b, ':', c);
    assert(seq![a].push(b).push(c) =~= seq![a, b, c]);
}

proof fn lemma_four_parts(a: Seq<char>, b: Seq<char>, c: Seq<char>, d: Seq<char>)
    requires
        free_of(a, ':'),
        free_of(b, ':'),
        free_of(c, ':'),
        free_of(d, ':'),
    ensures
        split_on(a + seq![':'] + b + seq![':'] + c + seq![':'] + d, ':') == seq![a, b, c, d],
{
    lemma_three_parts(a, b, c);
    lemma_split_last(a + seq![':'] + b + seq![':'] + c, ':', d);
    assert(seq![a, b, c].push(d) =~= seq![a, b, c, d]);
}

/// A text whose parts are not three or four is no mapping, and one with a
/// number too large for a port, or with no number in its place, is none
/// either: the local port is looked at first.
pub proof fn law_other_texts_are_no_mapping(
    bind: Seq<char>,
    local: Seq<char>,
    remote_ip: Seq<char>,
    remote: Seq<char>,
    input: Seq<char>,
)
    requires
        free_of(bind, ':'),
        free_of(local, ':'),
        free_of(remote_ip, ':'),
        free_of(remote, ':'),
    ensures
        ({
            let full = bind + seq![':'] + local + seq![':'] + remote_ip + seq![':'] + remote;
            &&& decimal_value(local, 65535) is None ==> mapping_value(full) == Err::<
                MappingTexts,
                MappingError,
            >(MappingError::LocalPort)
            &&& decimal_value(local, 65535) is Some && decimal_value(remote, 65535) is None
                ==> mapping_value(full) == Err::<MappingTexts, MappingError>(
                MappingError::RemotePort,
            )
        }),
        split_on(input, ':').len() != 3 && split_on(input, ':').len() != 4 ==> mapping_value(input)
            == Err::<MappingTexts, MappingError>(MappingError::Format),
{
    lemma_four_parts(bind, local, remote_ip, remote);
}

/// What is wrong with a mapping is reported by the part that is wrong.
pub proof fn law_mapping_errors_are_reported()
    ensures
        MappingError::Format.text() == "invalid port mapping format"@,
        MappingError::LocalPort.text() == "invalid local port"@,
        MappingError::RemotePort.text() == "invalid remote port"@,
{
}

/// The parts of a mapping are told as they are, each in its place.
pub proof fn law_parts_of_a_mapping(mapping: PortMapping)
    ensures
        mapping.texts().bind_address == mapping.bind_address@,
        mapping.texts().local_port == mapping.local_port,
        mapping.texts().remote_ip == mapping.remote_ip@,
        mapping.texts().remote_port == mapping.remote_port,
{
}

} // verus!
