//! The HTTP proxy: who may use it, where its connections go, and how requests
//! are passed on.

use vstd::prelude::*;
use vstd::string::*;
use vstd::utf8::encode_utf8;

use crate::codec::{base64_encode, base64_text, law_base64_is_unambiguous};
use crate::dns::DnsResolver;
use crate::handshake::{parse_uri, uri_texts, UriParts, UriTexts};
use crate::ip::{
    ipv4_value, law_socket_address_reads_back, parse_socket_addr, socket_text, socket_v4_value,
    socket_v6_value, socket_value, IpAddr, SocketAddr, LOCALHOST_V4,
};
use crate::text::{
    chars_of, decimal, decimal_text, decimal_value, free_of, law_decimal_reads_back,
    lemma_split_first, lemma_split_last, lemma_split_nonempty, lemma_split_single, opt_text,
    parse_u16, split_on, str_eq, string_range,
};

verus! {

/// How the proxy is set up.
pub struct HttpProxyConfig {
    /// Where to listen.
    pub bind: SocketAddr,
    pub username: Option<String>,
    pub password: Option<String>,
    pub resolver: DnsResolver,
}

/// What a client sends as its name and password.
pub open spec fn login_bytes(username: Seq<char>, password: Seq<char>) -> Seq<u8> {
    encode_utf8(username + ":"@ + password)
}

/// The token that clients have to show, where there is a name and a password.
pub open spec fn proxy_token(config: HttpProxyConfig) -> Option<Seq<char>> {
    match (config.username, config.password) {
        (Some(u), Some(p)) => Some(base64_text(login_bytes(u@, p@))),
        _ => None,
    }
}

impl HttpProxyConfig {
    /// The token that clients have to show.
    pub fn token(&self) -> (r: Option<String>)
        requires
            (self.username matches Some(u) && self.password matches Some(p)) ==> login_bytes(
                self.username.unwrap()@,
                self.password.unwrap()@,
            ).len() <= isize::MAX / 2,
        ensures
            opt_text(r) == proxy_token(*self),
    {
        match (&self.username, &self.password) {
            (Some(u), Some(p)) => {
                let login = u.clone().concat(":").concat(p.as_str());
                Some(base64_encode(login.as_str().as_bytes()))
            },
            _ => None,
        }
    }
}

/// Whether a client that shows `provided` may use a proxy with a token.
pub open spec fn may_use(token: Option<Seq<char>>, provided: Option<Seq<char>>) -> bool {
    match token {
        Some(expected) => match provided {
            Some(shown) => shown == "Basic "@ + expected,
            None => false,
        },
        None => true,
    }
}

/// What the proxy does with a request.
#[derive(Clone, Copy, Debug, PartialEq, Eq, Structural)]
pub enum ProxyStep {
    /// Ask for a login: `CHALLENGE_STATUS`, with the header of `CHALLENGE`.
    Challenge,
    /// Open a tunnel to the authority of the request.
    Connect,
    /// Pass the request on.
    Forward,
}

/// The status of a challenge.
pub const CHALLENGE_STATUS: u16 = 407;

/// The name of the header of a challenge.
pub const CHALLENGE_HEADER: &'static str = "Proxy-Authenticate";

/// The value of the header of a challenge.
pub const CHALLENGE: &'static str = "Basic realm=\"Proxy\"";

/// What the proxy does with a request.
pub open spec fn proxy_step(
    token: Option<Seq<char>>,
    shown: Option<Seq<char>>,
    is_connect: bool,
) -> ProxyStep {
    if !may_use(token, shown) {
        ProxyStep::Challenge
    } else if is_connect {
        ProxyStep::Connect
    } else {
        ProxyStep::Forward
    }
}

/// Decides what the proxy does with a request, by its token, by what the
/// client shows (in a header that is text), and by the method.
pub fn handle(token: &Option<String>, provided: Option<&str>, is_connect: bool) -> (r: ProxyStep)
    ensures
        r == proxy_step(
            opt_text(*token),
            match provided {
                Some(p) => Some(p@),
                None => None,
            },
            is_connect,
        ),
{
    if let Some(expected) = token {
        let wanted = "Basic ".to_owned().concat(expected.as_str());
        let ok = match provided {
            Some(shown) => str_eq(shown, wanted.as_str()),
            None => false,
        };
        if !ok {
            return ProxyStep::Challenge;
        }
    }
    if is_connect {
        ProxyStep::Connect
    } else {
        ProxyStep::Forward
    }
}

/// Where a CONNECT request goes.
pub enum ConnectTarget {
    /// To an address.
    Addr(SocketAddr),
    /// To a port of a host, once its address is known.
    Host(String, u16),
    /// To the local host, for want of anything better.
    Fallback,
}

/// Where a CONNECT request goes, without the buffer that the host comes in.
pub enum TargetTexts {
    Addr(SocketAddr),
    Host(Seq<char>, nat),
    Fallback,
}

impl ConnectTarget {
    /// The target without its buffer.
    pub open spec fn texts(&self) -> TargetTexts {
        match self {
            ConnectTarget::Addr(addr) => TargetTexts::Addr(*addr),
            ConnectTarget::Host(host, port) => TargetTexts::Host(host@, *port as nat),
            ConnectTarget::Fallback => TargetTexts::Fallback,
        }
    }
}

/// The last place before `end` that holds a colon.
pub open spec fn last_colon(s: Seq<char>, end: int) -> Option<int>
    decreases end,
{
    if end <= 0 {
        None
    } else if s[end - 1] == ':' {
        Some(end - 1)
    } else {
        last_colon(s, end - 1)
    }
}

/// Where a CONNECT request for an authority goes: to the address that it is;
/// or to the port behind its last colon of the host in front.
pub open spec fn connect_target_texts(authority: Seq<char>) -> TargetTexts {
    match socket_value(authority) {
        Some(addr) => TargetTexts::Addr(addr),
        None => match last_colon(authority, authority.len() as int) {
            Some(k) => match decimal_value(authority.skip(k + 1), 65535) {
                Some(port) => TargetTexts::Host(authority.take(k), port),
                None => TargetTexts::Fallback,
            },
            None => TargetTexts::Fallback,
        },
    }
}

/// Decides where a CONNECT request goes.
pub fn connect_target(authority: &str) -> (r: ConnectTarget)
    ensures
        r.texts() == connect_target_texts(authority@),
{
    if let Some(addr) = parse_socket_addr(authority) {
        return ConnectTarget::Addr(addr);
    }
    let chars = chars_of(authority);
    let mut end: usize = chars.len();
    while end > 0
        invariant
            end <= chars@.len(),
            chars@ == authority@,
            socket_value(authority@) is None,
            last_colon(authority@, end as int) == last_colon(authority@, authority@.len() as int),
        decreases end,
    {
        if chars[end - 1] == ':' {
            let host = string_range(chars.as_slice(), 0, end - 1);
            let port = string_range(chars.as_slice(), end, chars.len());
            assert(authority@.subrange(0, end - 1) =~= authority@.take(end - 1));
            assert(authority@.subrange(end as int, authority@.len() as int) =~= authority@.skip(
                end as int,
            ));
            return match parse_u16(port.as_str()) {
                Some(port) => ConnectTarget::Host(host, port),
                None => ConnectTarget::Fallback,
            };
        }
        end = end - 1;
    }
    ConnectTarget::Fallback
}

/// The address that a CONNECT request goes to.
pub open spec fn connect_addr(target: TargetTexts, found: Option<IpAddr>) -> SocketAddr {
    match (target, found) {
        (TargetTexts::Addr(addr), _) => addr,
        (TargetTexts::Host(_, port), Some(ip)) => SocketAddr { ip, port: port as u16, scope: 0 },
        _ => SocketAddr { ip: IpAddr::V4(LOCALHOST_V4), port: 443, scope: 0 },
    }
}

/// The address that a CONNECT request goes to, once the address of its host
/// is known, if it has one.
pub fn resolve_connect_addr(target: &ConnectTarget, found: Option<IpAddr>) -> (r: SocketAddr)
    ensures
        r == connect_addr(target.texts(), found),
{
    match target {
        ConnectTarget::Addr(addr) => *addr,
        ConnectTarget::Host(_, port) => match found {
            Some(ip) => SocketAddr::new(ip, *port),
            None => SocketAddr::new(IpAddr::V4(LOCALHOST_V4), 443),
        },
        ConnectTarget::Fallback => SocketAddr::new(IpAddr::V4(LOCALHOST_V4), 443),
    }
}

/// The host to look up for a request that is passed on.
pub open spec fn http_host(uri: UriTexts) -> Seq<char> {
    match uri.host {
        Some(host) => host,
        None => "localhost"@,
    }
}

/// The port that a request is passed on to.
pub open spec fn http_port(uri: UriTexts) -> u16 {
    match uri.port {
        Some(port) => port,
        None => 80,
    }
}

/// Reads the host to look up for a request that is passed on.
pub fn upstream_host(uri: &UriParts) -> (out: String)
    ensures
        out@ == http_host(uri.texts()),
{
    match &uri.host {
        Some(host) => host.clone(),
        None => "localhost".to_owned(),
    }
}

/// The address that a request is passed on to, once the address of its host
/// is known: the local host where it has none.
pub fn upstream_addr(uri: &UriParts, found: Option<IpAddr>) -> (r: SocketAddr)
    ensures
        r.port == http_port(uri.texts()),
        uri.port is None ==> r.port == 80,
        uri.port matches Some(port) ==> r.port == port,
        r.scope == 0,
        r.ip == (match found {
            Some(ip) => ip,
            None => IpAddr::V4(LOCALHOST_V4),
        }),
{
    let ip = match found {
        Some(ip) => ip,
        None => IpAddr::V4(LOCALHOST_V4),
    };
    let port: u16 = match uri.port {
        Some(port) => port,
        None => 80,
    };
    SocketAddr::new(ip, port)
}

/// The target of a request that is passed on.
pub open spec fn origin_text(path_and_query: Option<Seq<char>>, is_uri: bool) -> Seq<char> {
    match path_and_query {
        Some(pq) => if is_uri {
            pq
        } else {
            "/"@
        },
        None => "/"@,
    }
}

/// The target of a request that is passed on: the path and the query, where
/// they make a URI, or the root.
pub fn origin_form(path_and_query: &Option<String>, is_uri: bool) -> (out: String)
    ensures
        out@ == origin_text(opt_text(*path_and_query), is_uri),
{
    match path_and_query {
        Some(pq) => if is_uri {
            pq.clone()
        } else {
            "/".to_owned()
        },
        None => "/".to_owned(),
    }
}

/// Makes the target of a request that is passed on.
pub fn origin_form_uri(uri: &UriParts) -> (out: String)
    ensures
        out@ == (match uri.texts().path_and_query {
            Some(pq) => if uri_texts(pq) is Some {
                pq
            } else {
                "/"@
            },
            None => "/"@,
        }),
{
    let is_uri = match &uri.path_and_query {
        Some(pq) => parse_uri(pq.as_str()).is_some(),
        None => false,
    };
    origin_form(&uri.path_and_query, is_uri)
}

/// The host header of a request that came without one.
pub open spec fn authority_text(uri: UriTexts) -> Seq<char> {
    match (uri.host, uri.port) {
        (Some(host), Some(port)) => host + ":"@ + decimal_text(port as nat),
        (Some(host), None) => host,
        (None, _) => "localhost"@,
    }
}

/// Makes the host header of a request that came without one.
pub fn authority_header_value(uri: &UriParts) -> (out: String)
    ensures
        out@ == authority_text(uri.texts()),
{
    match (&uri.host, uri.port) {
        (Some(host), Some(port)) => host.clone().concat(":").concat(
            decimal(port as u64).as_str(),
        ),
        (Some(host), None) => host.clone(),
        (None, _) => "localhost".to_owned(),
    }
}

/// Whether a list of header names (in lower case) has one for the host.
pub open spec fn has_host(names: Seq<String>) -> bool {
    exists|i: int| 0 <= i < names.len() && (#[trigger] names[i])@ == "host"@
}

/// The host header to add to a request that is passed on, if it came without.
pub fn added_host(names: &Vec<String>, uri: &UriParts) -> (r: Option<String>)
    ensures
        match r {
            Some(value) => !has_host(names@) && value@ == authority_text(uri.texts()),
            None => has_host(names@),
        },
{
    let mut i: usize = 0;
    while i < names.len()
        invariant
            i <= names@.len(),
            forall|j: int| 0 <= j < i ==> (#[trigger] names@[j])@ != "host"@,
        decreases names@.len() - i,
    {
        if str_eq(names[i].as_str(), "host") {
            return None;
        }
        i = i + 1;
    }
    Some(authority_header_value(uri))
}

/// How a request is passed on: the host to look up, the target, and the host
/// header to add, if any.
pub struct HttpPlan {
    pub host: String,
    pub target: String,
    pub added_host: Option<String>,
}

/// Plans how a request is passed on, by its URI and the names of its headers.
pub fn handle_http(uri: &UriParts, names: &Vec<String>) -> (r: HttpPlan)
    ensures
        r.host@ == http_host(uri.texts()),
        r.target@ == (match uri.texts().path_and_query {
            Some(pq) => if uri_texts(pq) is Some {
                pq
            } else {
                "/"@
            },
            None => "/"@,
        }),
        opt_text(r.added_host) == (if has_host(names@) {
            None
        } else {
            Some(authority_text(uri.texts()))
        }),
{
    HttpPlan {
        host: upstream_host(uri),
        target: origin_form_uri(uri),
        added_host: added_host(names, uri),
    }
}

/// What went wrong while a request was served.
#[derive(Clone, Copy, Debug, PartialEq, Eq, Structural)]
pub enum ProxyFailure {
    /// The target could not be reached.
    Dial,
    /// The target does not speak HTTP.
    Handshake,
    /// The request could not be put together.
    Build,
    /// The target did not answer.
    Upstream,
}

/// The status of a failure.
pub open spec fn status_of_failure(failure: ProxyFailure) -> u16 {
    if failure == ProxyFailure::Build {
        400
    } else {
        502
    }
}

/// The status that a client is told of a failure.
pub fn failure_status(failure: ProxyFailure) -> (status: u16)
    ensures
        status == status_of_failure(failure),
{
    match failure {
        ProxyFailure::Build => 400,
        _ => 502,
    }
}

/// A proxy with a name and a password serves no client that shows another
/// login, and one without serves everybody.
pub proof fn law_only_the_login_is_served(token: Option<Seq<char>>, provided: Option<Seq<char>>)
    ensures
        token is None ==> may_use(token, provided),
        token matches Some(expected) ==> (may_use(token, provided) <==> provided == Some(
            "Basic "@ + expected,
        )),
{
}

/// A request is passed on to the port of its URI, and to port 80 where the URI
/// has none, whatever else the URI says.
pub proof fn law_plain_http_goes_to_its_port(uri: UriTexts, port: u16)
    ensures
        http_port(UriTexts { port: None, ..uri }) == 80,
        http_port(UriTexts { port: Some(port), ..uri }) == port,
{
}

/// A client is challenged exactly where there is a login and it shows another
/// or none. Whoever may use the proxy is served: CONNECT requests with a
/// tunnel, all others by passing them on.
pub proof fn law_requests_are_served(token: Seq<char>, shown: Option<Seq<char>>, is_connect: bool)
    ensures
        proxy_step(None, shown, true) == ProxyStep::Connect,
        proxy_step(None, shown, false) == ProxyStep::Forward,
        proxy_step(Some(token), Some("Basic "@ + token), true) == ProxyStep::Connect,
        proxy_step(Some(token), Some("Basic "@ + token), false) == ProxyStep::Forward,
        shown != Some("Basic "@ + token) ==> proxy_step(Some(token), shown, is_connect)
            == ProxyStep::Challenge,
{
}

/// The token of a login is the base64 of its name, a colon and its password,
/// and of nothing else. There is none without both.
pub proof fn law_token_is_the_login(config: HttpProxyConfig, other: Seq<u8>)
    ensures
        proxy_token(config) is Some <==> config.username is Some && config.password is Some,
        proxy_token(config) matches Some(token) ==> {
            let login = encode_utf8(config.username.unwrap()@ + ":"@ + config.password.unwrap()@);
            &&& token == base64_text(login)
            &&& base64_text(other) == token ==> other == login
        },
{
    if let Some(token) = proxy_token(config) {
        let login = encode_utf8(config.username.unwrap()@ + ":"@ + config.password.unwrap()@);
        if base64_text(other) == token {
            law_base64_is_unambiguous(other, login);
        }
    }
}

/// A CONNECT request for an address goes there, whatever is found.
pub proof fn law_connect_reaches_addresses(addr: SocketAddr, found: Option<IpAddr>)
    requires
        addr.ip is V4 ==> addr.scope == 0,
    ensures
        connect_addr(connect_target_texts(socket_text(addr)), found) == addr,
{
    law_socket_address_reads_back(addr);
}

/// A CONNECT request for a port of a host goes to that port of the address
/// that the host was found to have. Where it was not found, it goes to port 443
/// of the local host.
pub proof fn law_connect_reaches_hosts(host: Seq<char>, port: u16, ip: IpAddr)
    requires
        host.len() > 0,
        host[0] != '[',
        host[0] != ']',
        ipv4_value(host) is None,
    ensures
        ({
            let target = connect_target_texts(host + seq![':'] + decimal_text(port as nat));
            &&& target == TargetTexts::Host(host, port as nat)
            &&& connect_addr(target, Some(ip)) == (SocketAddr { ip, port, scope: 0 })
            &&& connect_addr(target, None) == (SocketAddr {
                ip: IpAddr::V4(0x7f00_0001),
                port: 443,
                scope: 0,
            })
        }),
{
    let text = decimal_text(port as nat);
    let s = host + seq![':'] + text;
    law_decimal_reads_back(port as nat);
    assert forall|i: int| 0 <= i < text.len() implies #[trigger] text[i] != ':' by {
        assert('0' <= text[i] <= '9');
    }
    lemma_split_last(host, ':', text);
    lemma_split_nonempty(host, ':');
    assert(socket_v4_value(s) is None) by {
        let p = split_on(s, ':');
        if p.len() == 2 {
            assert(split_on(host, ':').len() == 1);
            lemma_single_piece(host, ':');
        }
    }
    assert(socket_v6_value(s) is None) by {
        assert(s[0] == host[0]);
        lemma_split_first(s, ']');
    }
    lemma_last_colon(s, host.len() as int, s.len() as int);
    assert(s.take(host.len() as int) =~= host);
    assert(s.skip(host.len() as int + 1) =~= text);
}

/// A text that is cut into one piece is that piece.
proof fn lemma_single_piece(s: Seq<char>, sep: char)
    requires
        split_on(s, sep).len() == 1,
    ensures
        split_on(s, sep)[0] == s,
    decreases s.len(),
{
    if s.len() > 0 {
        lemma_split_nonempty(s.drop_last(), sep);
        if s.last() != sep {
            lemma_single_piece(s.drop_last(), sep);
            assert(s.drop_last().push(s.last()) =~= s);
        }
    } else {
        assert(s =~= Seq::<char>::empty());
    }
}

proof fn lemma_last_colon(s: Seq<char>, k: int, end: int)
    requires
        0 <= k < end <= s.len(),
        s[k] == ':',
        forall|i: int| k < i < s.len() ==> #[trigger] s[i] != ':',
    ensures
        last_colon(s, end) == Some(k),
    decreases end,
{
    if end - 1 > k {
        lemma_last_colon(s, k, end - 1);
    }
}

/// A request for an authority that names no port goes to port 443 of the local
/// host.
pub proof fn law_connect_needs_a_port(authority: Seq<char>, found: Option<IpAddr>)
    requires
        free_of(authority, ':'),
    ensures
        connect_addr(connect_target_texts(authority), found) == (SocketAddr {
            ip: IpAddr::V4(0x7f00_0001),
            port: 443,
            scope: 0,
        }),
{
    lemma_split_single(authority, ':');
    lemma_no_colon(authority, authority.len() as int);
    assert(socket_v6_value(authority) is None) by {
        let p = split_on(authority, ']');
        if p.len() == 2 && p[1].len() > 0 && p[1][0] == ':' {
            lemma_pieces_hold_no_other(authority, ']', ':');
            assert(free_of(p[1], ':'));
        }
    }
}

proof fn lemma_no_colon(s: Seq<char>, end: int)
    requires
        end <= s.len(),
        free_of(s, ':'),
    ensures
        last_colon(s, end) is None,
    decreases end,
{
    if end > 0 {
        lemma_no_colon(s, end - 1);
    }
}

/// The pieces of a text hold no character that the text does not.
proof fn lemma_pieces_hold_no_other(s: Seq<char>, sep: char, c: char)
    requires
        free_of(s, c),
    ensures
        forall|k: int|
            0 <= k < split_on(s, sep).len() ==> free_of(#[trigger] split_on(s, sep)[k], c),
    decreases s.len(),
{
    if s.len() > 0 {
        let before = split_on(s.drop_last(), sep);
        lemma_pieces_hold_no_other(s.drop_last(), sep, c);
        lemma_split_nonempty(s.drop_last(), sep);
        assert(s.last() == s[s.len() - 1]);
        let pieces = split_on(s, sep);
        assert forall|k: int| 0 <= k < pieces.len() implies free_of(#[trigger] pieces[k], c) by {
            if s.last() != sep && k == pieces.len() - 1 {
                let piece = before[k];
                assert(free_of(piece, c));
                assert forall|i: int| 0 <= i < pieces[k].len() implies #[trigger] pieces[k][i]
                    != c by {
                    if i < piece.len() {
                        assert(pieces[k][i] == piece[i]);
                    }
                }
            } else if k < before.len() {
                assert(pieces[k] == before[k]);
            }
        }
    }
}

/// The host of a URI is looked up, and `localhost` where it has none. A request
/// that came without a host header gets one with the host of the URI and, where
/// the URI names one, the port.
pub proof fn law_host_of_a_request(uri: UriTexts, host: Seq<char>, port: u16)
    ensures
        http_host(UriTexts { host: Some(host), ..uri }) == host,
        http_host(UriTexts { host: None, ..uri }) == "localhost"@,
        authority_text(UriTexts { host: Some(host), port: None, ..uri }) == host,
        authority_text(UriTexts { host: Some(host), port: Some(port), ..uri }) == host + ":"@
            + decimal_text(port as nat),
        authority_text(UriTexts { host: None, ..uri }) == "localhost"@,
{
}

/// A request keeps its path and query, and asks for the root where it has none
/// that can be asked for.
pub proof fn law_path_is_kept(pq: Seq<char>, is_uri: bool)
    ensures
        origin_text(Some(pq), true) == pq,
        origin_text(Some(pq), false) == "/"@,
        origin_text(None, is_uri) == "/"@,
{
}

/// Adding the header of a host, and only that, makes a list have one.
pub proof fn law_host_header_is_found(names: Seq<String>, name: String)
    ensures
        has_host(names.push(name)) <==> has_host(names) || name@ == "host"@,
        !has_host(Seq::empty()),
{
    let more = names.push(name);
    if has_host(names) {
        let i = choose|i: int| 0 <= i < names.len() && (#[trigger] names[i])@ == "host"@;
        assert(more[i]@ == "host"@);
    }
    if name@ == "host"@ {
        assert(more[names.len() as int]@ == "host"@);
    }
    if has_host(more) {
        let i = choose|i: int| 0 <= i < more.len() && (#[trigger] more[i])@ == "host"@;
        if i < names.len() {
            assert(names[i]@ == "host"@);
        }
    }
}

/// A client is told of a request that cannot be put together as its own fault,
/// and of every other failure as one of the target.
pub proof fn law_failures_are_told_apart(failure: ProxyFailure)
    ensures
        status_of_failure(ProxyFailure::Build) == 400,
        status_of_failure(ProxyFailure::Dial) == 502,
        status_of_failure(ProxyFailure::Handshake) == 502,
        status_of_failure(ProxyFailure::Upstream) == 502,
        status_of_failure(failure) == 400 <==> failure == ProxyFailure::Build,
{
}

/// A CONNECT request whose last colon is followed by no port goes to port 443
/// of the local host, whatever is found.
pub proof fn law_connect_needs_a_number(host: Seq<char>, port: Seq<char>, found: Option<IpAddr>)
    requires
        socket_value(host + seq![':'] + port) is None,
        free_of(port, ':'),
        decimal_value(port, 65535) is None,
    ensures
        connect_addr(connect_target_texts(host + seq![':'] + port), found) == (SocketAddr {
            ip: IpAddr::V4(0x7f00_0001),
            port: 443,
            scope: 0,
        }),
{
    let s = host + seq![':'] + port;
    assert forall|i: int| host.len() < i < s.len() implies #[trigger] s[i] != ':' by {
        assert(s[i] == port[i - host.len() - 1]);
    }
    lemma_last_colon(s, host.len() as int, s.len() as int);
    assert(s.skip(host.len() as int + 1) =~= port);
}

/// A client that may not use the proxy is asked to log in with a name and a
/// password.
pub proof fn law_clients_are_asked_to_log_in()
    ensures
        CHALLENGE_STATUS == 407,
        CHALLENGE_HEADER@ == "Proxy-Authenticate"@,
        CHALLENGE@ == "Basic realm=\"Proxy\""@,
{
}

/// A target is told as it is.
pub proof fn law_targets_are_told(addr: SocketAddr, host: String, port: u16)
    ensures
        ConnectTarget::Addr(addr).texts() == TargetTexts::Addr(addr),
        ConnectTarget::Host(host, port).texts() == TargetTexts::Host(host@, port as nat),
        ConnectTarget::Fallback.texts() == TargetTexts::Fallback,
{
}

} // verus!
