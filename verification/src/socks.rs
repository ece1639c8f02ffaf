//! The SOCKS5 proxy: who may use it and where its connections go.

use vstd::prelude::*;
use vstd::string::*;

use crate::dns::{no_address_text, DnsResolver};
use crate::ip::{IpAddr, SocketAddr, LOCALHOST_V4};
use crate::text::{opt_text, str_eq};

verus! {

/// How the proxy is set up.
pub struct SocksProxyConfig {
    /// Where to listen.
    pub bind: SocketAddr,
    pub username: Option<String>,
    pub password: Option<String>,
    pub resolver: DnsResolver,
    /// How long a UDP association may be idle, in milliseconds.
    pub udp_timeout: u64,
}

/// Whether a name and a password are those that are expected.
pub open spec fn login_is_right(
    username: Option<Seq<char>>,
    password: Option<Seq<char>>,
    user: Seq<char>,
    pass: Seq<char>,
) -> bool {
    username == Some(user) && password == Some(pass)
}

impl SocksProxyConfig {
    /// Whether clients have to log in: where there is a name and a password.
    pub fn needs_login(&self) -> (r: bool)
        ensures
            r == (self.username is Some && self.password is Some),
    {
        self.username.is_some() && self.password.is_some()
    }

    /// Whether a client's name and password are the right ones.
    pub fn accepts(&self, user: &str, pass: &str) -> (r: bool)
        ensures
            r == login_is_right(opt_text(self.username), opt_text(self.password), user@, pass@),
    {
        match (&self.username, &self.password) {
            (Some(username), Some(password)) => str_eq(user, username.as_str()) && str_eq(
                pass,
                password.as_str(),
            ),
            _ => false,
        }
    }
}

/// What a client asks for.
#[derive(Clone, Copy, Debug, PartialEq, Eq, Structural)]
pub enum SocksCommand {
    TcpConnect,
    TcpBind,
    UdpAssociate,
}

/// What the proxy does for a client.
#[derive(Clone, Copy, Debug, PartialEq, Eq, Structural)]
pub enum SocksService {
    /// Connect to the target and relay.
    Relay,
    /// Open a UDP socket and keep it while the client stays.
    Associate,
    /// Nothing: the connection is dropped.
    Drop,
}

/// What the proxy does for a command.
pub open spec fn service_of(command: SocksCommand) -> SocksService {
    match command {
        SocksCommand::TcpConnect => SocksService::Relay,
        SocksCommand::UdpAssociate => SocksService::Associate,
        SocksCommand::TcpBind => SocksService::Drop,
    }
}

/// Decides what the proxy does for a client.
pub fn service_for(command: SocksCommand) -> (r: SocksService)
    ensures
        r == service_of(command),
{
    match command {
        SocksCommand::TcpConnect => SocksService::Relay,
        SocksCommand::UdpAssociate => SocksService::Associate,
        SocksCommand::TcpBind => SocksService::Drop,
    }
}

/// The address that a client is told its connection is bound to.
pub fn success_bind_addr() -> (r: SocketAddr)
    ensures
        r == (SocketAddr { ip: IpAddr::V4(LOCALHOST_V4), port: 0, scope: 0 }),
{
    SocketAddr::new(IpAddr::V4(LOCALHOST_V4), 0)
}

/// Where a client wants to go.
pub enum Target {
    /// To an address.
    Ip(SocketAddr),
    /// To a port of a host.
    Domain(String, u16),
}

/// The first place, from `from` on, that holds an IPv6 address.
pub open spec fn first_ipv6(ips: Seq<IpAddr>, from: int) -> Option<int>
    decreases ips.len() - from,
{
    if from >= ips.len() {
        None
    } else if ips[from] is V6 {
        Some(from)
    } else {
        first_ipv6(ips, from + 1)
    }
}

/// The address to use of those that a host has: the first IPv6 address, or
/// the first of all where there is none.
pub open spec fn preferred_ip(ips: Seq<IpAddr>) -> Option<IpAddr> {
    match first_ipv6(ips, 0) {
        Some(i) => Some(ips[i]),
        None => if ips.len() > 0 {
            Some(ips[0])
        } else {
            None
        },
    }
}

/// Chooses the address to use of those that a host has.
pub fn choose_ip(ips: &Vec<IpAddr>) -> (r: Option<IpAddr>)
    ensures
        r == preferred_ip(ips@),
{
    let mut i: usize = 0;
    while i < ips.len()
        invariant
            i <= ips@.len(),
            first_ipv6(ips@, i as int) == first_ipv6(ips@, 0),
        decreases ips@.len() - i,
    {
        if ips[i].is_ipv6() {
            return Some(ips[i]);
        }
        i = i + 1;
    }
    if ips.len() > 0 {
        Some(ips[0])
    } else {
        None
    }
}

/// The address that a target stands for. Of a host, the addresses that it was
/// found to have are given.
pub fn resolve_target(target: &Target, ips: &Vec<IpAddr>) -> (r: Result<SocketAddr, String>)
    ensures
        match *target {
            Target::Ip(addr) => r == Ok::<SocketAddr, String>(addr),
            Target::Domain(domain, port) => match preferred_ip(ips@) {
                Some(ip) => r == Ok::<SocketAddr, String>(SocketAddr { ip, port, scope: 0 }),
                None => r matches Err(text) && text@ == no_address_text(domain@),
            },
        },
{
    match target {
        Target::Ip(addr) => Ok(*addr),
        Target::Domain(domain, port) => match choose_ip(ips) {
            Some(ip) => Ok(SocketAddr::new(ip, *port)),
            None => Err("no IP address for ".to_owned().concat(domain.as_str())),
        },
    }
}

/// What happened to a UDP association.
pub enum UdpEvent {
    /// The control connection was read; nothing means that it ended.
    ControlRead(Option<usize>),
    /// A datagram came in.
    Datagram(usize),
    /// The UDP socket failed.
    UdpFailed,
}

/// Whether a UDP association goes on after an event.
pub open spec fn association_goes_on(event: UdpEvent) -> bool {
    match event {
        UdpEvent::ControlRead(Some(n)) => n > 0,
        UdpEvent::ControlRead(None) => false,
        UdpEvent::Datagram(_) => true,
        UdpEvent::UdpFailed => false,
    }
}

/// Whether a UDP association goes on: until the control connection ends or
/// the UDP socket fails.
pub fn relay_udp(event: UdpEvent) -> (go_on: bool)
    ensures
        go_on == association_goes_on(event),
{
    match event {
        UdpEvent::ControlRead(Some(n)) => n > 0,
        UdpEvent::ControlRead(None) => false,
        UdpEvent::Datagram(_) => true,
        UdpEvent::UdpFailed => false,
    }
}

/// An IPv6 address of a host is preferred whenever there is one, and a host
/// with any address at all can be reached.
pub proof fn law_ipv6_is_preferred(ips: Seq<IpAddr>)
    ensures
        (exists|i: int| 0 <= i < ips.len() && (#[trigger] ips[i]) is V6) ==> (preferred_ip(
            ips,
        ) matches Some(ip) && ip is V6 && ips.contains(ip)),
        ips.len() > 0 ==> (preferred_ip(ips) matches Some(ip) && ips.contains(ip)),
        ips.len() == 0 ==> preferred_ip(ips) is None,
{
    lemma_first_ipv6(ips, 0);
    if let Some(i) = first_ipv6(ips, 0) {
        assert(ips.contains(ips[i]));
    }
    if ips.len() > 0 {
        assert(ips.contains(ips[0]));
    }
}

proof fn lemma_first_ipv6(ips: Seq<IpAddr>, from: int)
    requires
        0 <= from,
    ensures
        match first_ipv6(ips, from) {
            Some(i) => from <= i < ips.len() && ips[i] is V6,
            None => forall|i: int| from <= i < ips.len() ==> !((#[trigger] ips[i]) is V6),
        },
    decreases ips.len() - from,
{
    if from < ips.len() {
        lemma_first_ipv6(ips, from + 1);
    }
}

/// The address chosen of a host is the first IPv6 address, with none in front
/// of it; and the first of all where no address is one of IPv6.
pub proof fn law_first_ipv6_is_chosen(ips: Seq<IpAddr>, i: int)
    requires
        0 <= i < ips.len(),
    ensures
        ips[i] is V6 && (forall|j: int| 0 <= j < i ==> !((#[trigger] ips[j]) is V6))
            ==> preferred_ip(ips) == Some(ips[i]),
        (forall|j: int| 0 <= j < ips.len() ==> !((#[trigger] ips[j]) is V6)) ==> preferred_ip(ips)
            == Some(ips[0]),
{
    lemma_first_ipv6(ips, 0);
    if ips[i] is V6 && (forall|j: int| 0 <= j < i ==> !((#[trigger] ips[j]) is V6)) {
        lemma_first_ipv6_at(ips, 0, i);
    }
}

proof fn lemma_first_ipv6_at(ips: Seq<IpAddr>, from: int, i: int)
    requires
        0 <= from <= i < ips.len(),
        ips[i] is V6,
        forall|j: int| 0 <= j < i ==> !((#[trigger] ips[j]) is V6),
    ensures
        first_ipv6(ips, from) == Some(i),
    decreases i - from,
{
    if from < i {
        lemma_first_ipv6_at(ips, from + 1, i);
    }
}

/// A proxy with a name and a password accepts that login and no other; one
/// that lacks either accepts none.
pub proof fn law_one_login_is_right(
    name: Seq<char>,
    word: Seq<char>,
    user: Seq<char>,
    pass: Seq<char>,
)
    ensures
        login_is_right(Some(name), Some(word), name, word),
        user != name ==> !login_is_right(Some(name), Some(word), user, pass),
        pass != word ==> !login_is_right(Some(name), Some(word), user, pass),
        !login_is_right(None, Some(word), user, pass),
        !login_is_right(Some(name), None, user, pass),
        !login_is_right(None, None, user, pass),
{
}

/// Connections are relayed, associations are kept, and nothing else is served.
pub proof fn law_commands_are_served(command: SocksCommand)
    ensures
        service_of(command) == SocksService::Relay <==> command == SocksCommand::TcpConnect,
        service_of(command) == SocksService::Associate <==> command == SocksCommand::UdpAssociate,
        service_of(command) == SocksService::Drop <==> command == SocksCommand::TcpBind,
{
}

/// An association outlives every datagram and all that the client says on its
/// control connection; it ends with that connection or with its socket.
pub proof fn law_association_ends_with_its_client(n: usize)
    ensures
        association_goes_on(UdpEvent::Datagram(n)),
        n > 0 ==> association_goes_on(UdpEvent::ControlRead(Some(n))),
        !association_goes_on(UdpEvent::ControlRead(Some(0))),
        !association_goes_on(UdpEvent::ControlRead(None)),
        !association_goes_on(UdpEvent::UdpFailed),
{
}

} // verus!
