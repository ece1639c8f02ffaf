//! Setting up a CONNECT-IP session: the request, its answer, and the events
//! on the way to an established HTTP/3 tunnel.

use vstd::prelude::*;
use vstd::string::*;

use crate::ip::{IpAddr, SocketAddr};
use crate::session::Transport;
use crate::text::{
    decimal, decimal_text, decimal_value, law_decimal_reads_back, opt_text, parse_decimal,
};

verus! {

/// Where and how to connect.
pub struct ConnectOptions {
    /// The server.
    pub endpoint: SocketAddr,
    /// The host name to present in the TLS handshake.
    pub sni: String,
    /// Whether to use HTTP/2 in place of HTTP/3.
    pub use_http2: bool,
    /// Whether to accept any server certificate.
    pub insecure: bool,
    /// The time between keep-alives, in milliseconds.
    pub keepalive_period: u64,
    /// The size of QUIC packets; zero to find it out.
    pub initial_packet_size: u16,
    /// The URI of the CONNECT request.
    pub connect_uri: String,
}

/// Why no session was set up.
pub enum ConnectError {
    /// The URI of the request is malformed.
    InvalidUri,
    /// The server does not know the client's key.
    LoginFailed,
    /// The server refused, with a status.
    Refused(String),
    /// The HTTP/3 connection ended first.
    ControllerClosed,
    /// The HTTP/3 connection failed, with a reason.
    ConnectionFailed(String),
    /// The HTTP/3 connection was shut down, with a reason.
    ConnectionShutdown(String),
    /// The server accepted, but no datagram flow was opened.
    NoFlow,
}

impl ConnectError {
    /// What the error says.
    pub open spec fn text(&self) -> Seq<char> {
        match self {
            ConnectError::InvalidUri => "invalid connect URI"@,
            ConnectError::LoginFailed =>
                "login failed! Please double-check if your tls key and cert is enrolled in the Cloudflare Access service"@,
            ConnectError::Refused(status) => "tunnel connection failed: "@ + status@,
            ConnectError::ControllerClosed =>
                "HTTP/3 controller closed before CONNECT established"@,
            ConnectError::ConnectionFailed(reason) => "HTTP/3 connection error: "@ + reason@,
            ConnectError::ConnectionShutdown(reason) => "HTTP/3 connection shutdown: "@ + reason@,
            ConnectError::NoFlow => "CONNECT-IP datagram flow was not created"@,
        }
    }

    /// Writes the error as a message.
    pub fn message(&self) -> (out: String)
        ensures
            out@ == self.text(),
    {
        match self {
            ConnectError::InvalidUri => "invalid connect URI".to_owned(),
            ConnectError::LoginFailed =>
                "login failed! Please double-check if your tls key and cert is enrolled in the Cloudflare Access service".to_owned(),
            ConnectError::Refused(status) => "tunnel connection failed: ".to_owned().concat(
                status.as_str(),
            ),
            ConnectError::ControllerClosed =>
                "HTTP/3 controller closed before CONNECT established".to_owned(),
            ConnectError::ConnectionFailed(reason) => "HTTP/3 connection error: ".to_owned().concat(
                reason.as_str(),
            ),
            ConnectError::ConnectionShutdown(reason) =>
                "HTTP/3 connection shutdown: ".to_owned().concat(reason.as_str()),
            ConnectError::NoFlow => "CONNECT-IP datagram flow was not created".to_owned(),
        }
    }
}

/// The phrase that goes with a status code.
pub uninterp spec fn status_reason(code: u16) -> Seq<char>;

/// A status code as text: the number and the phrase that goes with it.
pub open spec fn status_text(code: u16) -> Seq<char> {
    decimal_text(code as nat) + " "@ + status_reason(code)
}

/// `http::StatusCode::from_u16` and the `Display` of the code: the number, a
/// blank, and a phrase that depends on the number alone. Codes have three
/// digits.
#[verifier::external_body]
pub(crate) fn format_status(code: u16) -> (out: String)
    requires
        100 <= code <= 999,
    ensures
        out@ == decimal_text(code as nat) + " "@ + status_reason(code),
{
    match http::StatusCode::from_u16(code) {
        Ok(status) => status.to_string(),
        Err(err) => err.to_string(),
    }
}

/// The transport that options ask for.
pub fn transport_for(options: &ConnectOptions) -> (r: Transport)
    ensures
        r == (if options.use_http2 {
            Transport::H2
        } else {
            Transport::H3Quiche
        }),
{
    if options.use_http2 {
        Transport::H2
    } else {
        Transport::H3Quiche
    }
}

/// Judges the status of an HTTP/2 answer to a CONNECT request.
pub fn check_h2_status(status: u16) -> (r: Result<(), ConnectError>)
    requires
        100 <= status <= 999,
    ensures
        match r {
            Ok(()) => status == 200,
            Err(ConnectError::LoginFailed) => status == 403,
            Err(ConnectError::Refused(text)) => status != 200 && status != 403 && text@
                == status_text(status),
            Err(_) => false,
        },
{
    if status == 200 {
        Ok(())
    } else if status == 403 {
        Err(ConnectError::LoginFailed)
    } else {
        Err(ConnectError::Refused(format_status(status)))
    }
}

/// Judges the status of an HTTP/3 answer to a CONNECT request.
pub fn check_h3_status(status: u16) -> (r: Result<(), ConnectError>)
    ensures
        match r {
            Ok(()) => status == 200,
            Err(ConnectError::LoginFailed) => status == 403,
            Err(ConnectError::Refused(text)) => status != 200 && status != 403 && text@
                == decimal_text(status as nat),
            Err(_) => false,
        },
{
    if status == 200 {
        Ok(())
    } else if status == 403 {
        Err(ConnectError::LoginFailed)
    } else {
        Err(ConnectError::Refused(decimal(status as u64)))
    }
}

/// The parts of a URI that the library reads.
pub struct UriParts {
    pub authority: Option<String>,
    pub host: Option<String>,
    pub port: Option<u16>,
    pub path: String,
    pub path_and_query: Option<String>,
}

/// The parts of a URI, without the buffers that they come in.
pub struct UriTexts {
    pub authority: Option<Seq<char>>,
    pub host: Option<Seq<char>>,
    pub port: Option<u16>,
    pub path: Seq<char>,
    pub path_and_query: Option<Seq<char>>,
}

impl UriParts {
    /// The texts of the parts.
    pub open spec fn texts(&self) -> UriTexts {
        UriTexts {
            authority: opt_text(self.authority),
            host: opt_text(self.host),
            port: self.port,
            path: self.path@,
            path_and_query: opt_text(self.path_and_query),
        }
    }
}

/// The parts of the URI in a text, if it is one.
pub uninterp spec fn uri_texts(text: Seq<char>) -> Option<UriTexts>;

/// `http::Uri::from_str` and the accessors of the URI. How a URI is taken
/// apart is left to the name `uri_texts`.
#[verifier::external_body]
pub(crate) fn parse_uri(text: &str) -> (r: Option<UriParts>)
    ensures
        match r {
            Some(parts) => uri_texts(text@) == Some(parts.texts()),
            None => uri_texts(text@) is None,
        },
{
    let uri: http::Uri = text.parse().ok()?;
    Some(
        UriParts {
            authority: uri.authority().map(|a| a.as_str().to_owned()),
            host: uri.host().map(|h| h.to_owned()),
            port: uri.port_u16(),
            path: uri.path().to_owned(),
            path_and_query: uri.path_and_query().map(|p| p.as_str().to_owned()),
        },
    )
}

/// The names and values of a list of headers.
pub open spec fn header_texts(headers: Seq<(String, String)>) -> Seq<(Seq<char>, Seq<char>)> {
    headers.map_values(|h: (String, String)| (h.0@, h.1@))
}

/// The headers of an HTTP/2 CONNECT request.
pub open spec fn h2_header_texts() -> Seq<(Seq<char>, Seq<char>)> {
    seq![
        ("cf-connect-proto"@, "cf-connect-ip"@),
        ("capsule-protocol"@, "?1"@),
        ("pq-enabled"@, "false"@),
        ("user-agent"@, ""@),
    ]
}

/// The headers of an HTTP/3 CONNECT request for a URI.
pub open spec fn h3_header_texts(uri: UriTexts) -> Seq<(Seq<char>, Seq<char>)> {
    seq![
        (":method"@, "CONNECT"@),
        (":scheme"@, "https"@),
        (
            ":authority"@,
            match uri.authority {
                Some(authority) => authority,
                None => ""@,
            },
        ),
        (":path"@, uri.path),
        (":protocol"@, "cf-connect-ip"@),
        ("capsule-protocol"@, "?1"@),
        ("user-agent"@, ""@),
    ]
}

fn header(name: &str, value: &str) -> (h: (String, String))
    ensures
        h.0@ == name@,
        h.1@ == value@,
{
    (name.to_owned(), value.to_owned())
}

/// Makes the headers of an HTTP/2 CONNECT request.
pub fn h2_connect_headers() -> (out: Vec<(String, String)>)
    ensures
        header_texts(out@) == h2_header_texts(),
{
    let mut out: Vec<(String, String)> = Vec::new();
    out.push(header("cf-connect-proto", "cf-connect-ip"));
    out.push(header("capsule-protocol", "?1"));
    out.push(header("pq-enabled", "false"));
    out.push(header("user-agent", ""));
    assert(header_texts(out@) =~= h2_header_texts());
    out
}

/// An HTTP/2 request without a body.
pub struct H2Request {
    pub method: &'static str,
    pub uri: String,
    pub headers: Vec<(String, String)>,
}

/// Makes the HTTP/2 CONNECT request that options ask for, where the URI is
/// one.
pub fn h2_connect_request(options: &ConnectOptions) -> (r: Result<H2Request, ConnectError>)
    ensures
        match r {
            Ok(request) => {
                &&& uri_texts(options.connect_uri@) is Some
                &&& request.method@ == "CONNECT"@
                &&& request.uri@ == options.connect_uri@
                &&& header_texts(request.headers@) == h2_header_texts()
            },
            Err(err) => err is InvalidUri && uri_texts(options.connect_uri@) is None,
        },
{
    match parse_uri(options.connect_uri.as_str()) {
        Some(_) => Ok(
            H2Request {
                method: "CONNECT",
                uri: options.connect_uri.clone(),
                headers: h2_connect_headers(),
            },
        ),
        None => Err(ConnectError::InvalidUri),
    }
}

/// Makes the headers of an HTTP/3 CONNECT request for a URI that has been
/// taken apart.
pub fn h3_connect_headers(uri: &UriParts) -> (out: Vec<(String, String)>)
    ensures
        header_texts(out@) == h3_header_texts(uri.texts()),
{
    let authority = match &uri.authority {
        Some(authority) => authority.as_str(),
        None => "",
    };
    let mut out: Vec<(String, String)> = Vec::new();
    out.push(header(":method", "CONNECT"));
    out.push(header(":scheme", "https"));
    out.push(header(":authority", authority));
    out.push(header(":path", uri.path.as_str()));
    out.push(header(":protocol", "cf-connect-ip"));
    out.push(header("capsule-protocol", "?1"));
    out.push(header("user-agent", ""));
    assert(header_texts(out@) =~= h3_header_texts(uri.texts()));
    out
}

/// Makes the HTTP/3 CONNECT request that options ask for.
pub fn send_connect_request(options: &ConnectOptions) -> (r: Result<
    Vec<(String, String)>,
    ConnectError,
>)
    ensures
        match r {
            Ok(headers) => uri_texts(options.connect_uri@) matches Some(uri) && header_texts(
                headers@,
            ) == h3_header_texts(uri),
            Err(err) => err is InvalidUri && uri_texts(options.connect_uri@) is None,
        },
{
    match parse_uri(options.connect_uri.as_str()) {
        Some(uri) => Ok(h3_connect_headers(&uri)),
        None => Err(ConnectError::InvalidUri),
    }
}

/// The characters that bytes of ASCII stand for. Other bytes become
/// characters that are not ASCII.
pub open spec fn latin_text(bytes: Seq<u8>) -> Seq<char> {
    Seq::new(bytes.len(), |i: int| bytes[i] as char)
}

/// The value of the first header with a name.
pub open spec fn first_value(headers: Seq<(Vec<u8>, Vec<u8>)>, name: Seq<u8>) -> Option<Seq<u8>>
    decreases headers.len(),
{
    if headers.len() == 0 {
        None
    } else if headers[0].0@ == name {
        Some(headers[0].1@)
    } else {
        first_value(headers.drop_first(), name)
    }
}

/// The name of the header that carries the status, in bytes.
pub open spec fn status_name() -> Seq<u8> {
    seq![58u8, 115u8, 116u8, 97u8, 116u8, 117u8, 115u8]
}

/// The status of an HTTP/3 answer: the number in its `:status` header, or
/// zero where there is none.
pub open spec fn h3_status(headers: Seq<(Vec<u8>, Vec<u8>)>) -> nat {
    match first_value(headers, status_name()) {
        Some(value) => match decimal_value(latin_text(value), 65535) {
            Some(status) => status,
            None => 0,
        },
        None => 0,
    }
}

fn is_status_name(name: &Vec<u8>) -> (r: bool)
    ensures
        r == (name@ == status_name()),
{
    let r = name.len() == 7 && name[0] == 58 && name[1] == 115 && name[2] == 116 && name[3] == 97
        && name[4] == 116 && name[5] == 117 && name[6] == 115;
    assert(r ==> name@ =~= status_name());
    r
}

fn latin_chars(bytes: &Vec<u8>) -> (out: Vec<char>)
    ensures
        out@ == latin_text(bytes@),
{
    let mut out: Vec<char> = Vec::new();
    let mut i: usize = 0;
    while i < bytes.len()
        invariant
            i <= bytes@.len(),
            out@ =~= latin_text(bytes@).take(i as int),
        decreases bytes@.len() - i,
    {
        out.push(bytes[i] as char);
        i = i + 1;
    }
    out
}

/// Reads the status of an HTTP/3 answer.
pub fn response_status(headers: &Vec<(Vec<u8>, Vec<u8>)>) -> (status: u16)
    ensures
        status == h3_status(headers@),
{
    let mut i: usize = 0;
    assert(headers@.skip(0) =~= headers@);
    while i < headers.len()
        invariant
            i <= headers@.len(),
            first_value(headers@.skip(i as int), status_name()) == first_value(
                headers@,
                status_name(),
            ),
        decreases headers@.len() - i,
    {
        assert(headers@.skip(i as int).drop_first() =~= headers@.skip(i + 1));
        if is_status_name(&headers[i].0) {
            let chars = latin_chars(&headers[i].1);
            return match parse_decimal(chars.as_slice(), 65535) {
                Some(status) => status as u16,
                None => 0,
            };
        }
        i = i + 1;
    }
    0
}

/// The address to bind a socket to that talks to an endpoint: the unspecified
/// one of the same family.
pub fn bind_address(endpoint: SocketAddr) -> (r: SocketAddr)
    ensures
        r.port == 0,
        r.scope == 0,
        endpoint.ip is V4 ==> r.ip == IpAddr::V4(0),
        endpoint.ip is V6 ==> r.ip == IpAddr::V6(0),
{
    match endpoint.ip {
        IpAddr::V4(_) => SocketAddr::new(IpAddr::V4(0), 0),
        IpAddr::V6(_) => SocketAddr::new(IpAddr::V6(0), 0),
    }
}

/// The QUIC settings of a tunnel.
#[derive(Clone, Copy, Debug, PartialEq, Eq, Structural)]
pub struct QuicChoices {
    /// Whether datagrams are on.
    pub enable_dgram: bool,
    /// Whether the server certificate is checked, against the pinned key.
    pub verify_peer: bool,
    /// The size of UDP payloads in both directions, where it is given. It is
    /// not found out then.
    pub udp_payload_size: Option<usize>,
}

/// Chooses the QUIC settings that options ask for.
pub fn quic_choices(options: &ConnectOptions) -> (r: QuicChoices)
    ensures
        r.enable_dgram,
        r.verify_peer == !options.insecure,
        r.udp_payload_size == (if options.initial_packet_size > 0 {
            Some(options.initial_packet_size as usize)
        } else {
            None
        }),
{
    QuicChoices {
        enable_dgram: true,
        verify_peer: !options.insecure,
        udp_payload_size: if options.initial_packet_size > 0 {
            Some(options.initial_packet_size as usize)
        } else {
            None
        },
    }
}

/// What an HTTP/3 connection reports while a tunnel is being set up.
pub enum H3Event {
    /// The request was sent.
    RequestSent,
    /// The server sent its settings.
    Settings,
    /// A datagram flow was opened.
    NewFlow(u64),
    /// The answer came, with these headers.
    Headers(Vec<(Vec<u8>, Vec<u8>)>),
    /// The connection failed.
    ConnectionError(String),
    /// The connection was shut down.
    ConnectionShutdown(String),
    /// Something else.
    Other,
    /// There will be no more events.
    Ended,
}

/// What to do about an event.
pub enum H3Step {
    /// Nothing.
    Continue,
    /// Use the flow that was opened.
    AdoptFlow(u64),
    /// The tunnel is up, on this flow.
    Established(u64),
    /// Give up.
    Fail(ConnectError),
}

/// The way to an established HTTP/3 tunnel: the datagram flow in use, if one
/// was opened.
#[derive(Clone, Copy, Debug, PartialEq, Eq, Structural)]
pub struct H3Setup {
    pub flow_id: Option<u64>,
}

impl H3Setup {
    pub fn new() -> (r: Self)
        ensures
            r.flow_id is None,
    {
        H3Setup { flow_id: None }
    }

    /// Takes an event. The first flow that is opened is the tunnel's; the
    /// answer decides, and needs a flow.
    pub fn on_event(&mut self, event: H3Event) -> (r: H3Step)
        ensures
            !(event is NewFlow && old(self).flow_id is None) ==> *final(self) == *old(self),
            match event {
                H3Event::RequestSent => r is Continue,
                H3Event::Settings => r is Continue,
                H3Event::Other => r is Continue,
                H3Event::NewFlow(id) => if old(self).flow_id is None {
                    final(self).flow_id == Some(id) && r == H3Step::AdoptFlow(id)
                } else {
                    r is Continue
                },
                H3Event::ConnectionError(reason) => r == H3Step::Fail(
                    ConnectError::ConnectionFailed(reason),
                ),
                H3Event::ConnectionShutdown(reason) => r == H3Step::Fail(
                    ConnectError::ConnectionShutdown(reason),
                ),
                H3Event::Ended => r == H3Step::Fail(ConnectError::ControllerClosed),
                H3Event::Headers(headers) => if h3_status(headers@) == 200 {
                    match old(self).flow_id {
                        Some(id) => r == H3Step::Established(id),
                        None => r == H3Step::Fail(ConnectError::NoFlow),
                    }
                } else if h3_status(headers@) == 403 {
                    r == H3Step::Fail(ConnectError::LoginFailed)
                } else {
                    r matches H3Step::Fail(ConnectError::Refused(text)) && text@ == decimal_text(
                        h3_status(headers@),
                    )
                },
            },
    {
        match event {
            H3Event::RequestSent => H3Step::Continue,
            H3Event::Settings => H3Step::Continue,
            H3Event::NewFlow(id) => match self.flow_id {
                None => {
                    self.flow_id = Some(id);
                    H3Step::AdoptFlow(id)
                },
                Some(_) => H3Step::Continue,
            },
            H3Event::Headers(headers) => match check_h3_status(response_status(&headers)) {
                Ok(()) => match self.flow_id {
                    Some(id) => H3Step::Established(id),
                    None => H3Step::Fail(ConnectError::NoFlow),
                },
                Err(err) => H3Step::Fail(err),
            },
            H3Event::ConnectionError(reason) => H3Step::Fail(
                ConnectError::ConnectionFailed(reason),
            ),
            H3Event::ConnectionShutdown(reason) => H3Step::Fail(
                ConnectError::ConnectionShutdown(reason),
            ),
            H3Event::Other => H3Step::Continue,
            H3Event::Ended => H3Step::Fail(ConnectError::ControllerClosed),
        }
    }
}

/// The request over HTTP/2 asks for IP over capsules, without post-quantum
/// keys and without telling who asks. It has no other header.
pub proof fn law_h2_request_asks_for_ip(name: Seq<char>, value: Seq<char>)
    ensures
        h2_header_texts().contains((name, value)) <==> {
            ||| (name == "cf-connect-proto"@ && value == "cf-connect-ip"@)
            ||| (name == "capsule-protocol"@ && value == "?1"@)
            ||| (name == "pq-enabled"@ && value == "false"@)
            ||| (name == "user-agent"@ && value == ""@)
        },
        h2_header_texts().len() == 4,
{
    let h = h2_header_texts();
    if name == "cf-connect-proto"@ && value == "cf-connect-ip"@ {
        assert(h[0] == (name, value));
    }
    if name == "capsule-protocol"@ && value == "?1"@ {
        assert(h[1] == (name, value));
    }
    if name == "pq-enabled"@ && value == "false"@ {
        assert(h[2] == (name, value));
    }
    if name == "user-agent"@ && value == ""@ {
        assert(h[3] == (name, value));
    }
}

/// The request over HTTP/3 is an extended CONNECT for IP to the authority and
/// path of the URI. Its pseudo headers come first, and it has no other header.
pub proof fn law_h3_request_asks_for_ip(uri: UriTexts, authority: Seq<char>, k: int)
    requires
        uri.authority == Some(authority),
    ensures
        ({
            let h = h3_header_texts(uri);
            &&& h.len() == 7
            &&& h.contains((":method"@, "CONNECT"@))
            &&& h.contains((":scheme"@, "https"@))
            &&& h.contains((":authority"@, authority))
            &&& h.contains((":path"@, uri.path))
            &&& h.contains((":protocol"@, "cf-connect-ip"@))
            &&& h.contains(("capsule-protocol"@, "?1"@))
            &&& h.contains(("user-agent"@, ""@))
            &&& 0 <= k < 7 ==> ((h[k].0.len() > 0 && h[k].0[0] == ':') <==> k < 5)
        }),
{
    let h = h3_header_texts(uri);
    reveal_strlit(":method");
    reveal_strlit(":scheme");
    reveal_strlit(":authority");
    reveal_strlit(":path");
    reveal_strlit(":protocol");
    reveal_strlit("capsule-protocol");
    reveal_strlit("user-agent");
    assert(h[0] == (":method"@, "CONNECT"@));
    assert(h[1] == (":scheme"@, "https"@));
    assert(h[2] == (":authority"@, authority));
    assert(h[3] == (":path"@, uri.path));
    assert(h[4] == (":protocol"@, "cf-connect-ip"@));
    assert(h[5] == ("capsule-protocol"@, "?1"@));
    assert(h[6] == ("user-agent"@, ""@));
}

/// The status of an answer is the number in its first `:status` header,
/// whatever headers come before and after. Without one, or where it is no
/// number, the status is zero.
pub proof fn law_status_is_read(
    before: Seq<(Vec<u8>, Vec<u8>)>,
    status: (Vec<u8>, Vec<u8>),
    after: Seq<(Vec<u8>, Vec<u8>)>,
    code: nat,
)
    requires
        status.0@ == ":status"@.map_values(|c: char| c as u8),
        forall|i: int|
            0 <= i < before.len() ==> (#[trigger] before[i]).0@ != ":status"@.map_values(
                |c: char| c as u8,
            ),
    ensures
        h3_status(before) == 0,
        code <= 65535 && latin_text(status.1@) == decimal_text(code) ==> h3_status(
            before + seq![status] + after,
        ) == code,
        decimal_value(latin_text(status.1@), 65535) is None ==> h3_status(
            before + seq![status] + after,
        ) == 0,
{
    reveal_strlit(":status");
    assert(status_name() =~= ":status"@.map_values(|c: char| c as u8));
    lemma_first_value(before, status, after);
    crate::text::law_decimal_reads_back(code);
}

proof fn lemma_first_value(
    before: Seq<(Vec<u8>, Vec<u8>)>,
    found: (Vec<u8>, Vec<u8>),
    after: Seq<(Vec<u8>, Vec<u8>)>,
)
    requires
        forall|i: int| 0 <= i < before.len() ==> (#[trigger] before[i]).0@ != found.0@,
    ensures
        first_value(before, found.0@) is None,
        first_value(before + seq![found] + after, found.0@) == Some(found.1@),
    decreases before.len(),
{
    let all = before + seq![found] + after;
    if before.len() > 0 {
        let rest = before.drop_first();
        assert forall|i: int| 0 <= i < rest.len() implies (#[trigger] rest[i]).0@ != found.0@ by {
            assert(rest[i] == before[i + 1]);
        }
        lemma_first_value(rest, found, after);
        assert(all.drop_first() =~= rest + seq![found] + after);
        assert(all[0] == before[0]);
    } else {
        assert(all[0] == found);
    }
}

/// A status is read from the ASCII digits that it is written with.
pub proof fn law_status_is_read_from_ascii(
    before: Seq<(Vec<u8>, Vec<u8>)>,
    status: (Vec<u8>, Vec<u8>),
    after: Seq<(Vec<u8>, Vec<u8>)>,
    code: u16,
)
    requires
        status.0@ == ":status"@.map_values(|c: char| c as u8),
        forall|i: int|
            0 <= i < before.len() ==> (#[trigger] before[i]).0@ != ":status"@.map_values(
                |c: char| c as u8,
            ),
        status.1@ == decimal_text(code as nat).map_values(|c: char| c as u8),
    ensures
        h3_status(before + seq![status] + after) == code,
{
    let digits = decimal_text(code as nat);
    law_decimal_reads_back(code as nat);
    assert forall|i: int| 0 <= i < digits.len() implies #[trigger] latin_text(status.1@)[i]
        == digits[i] by {
        assert('0' <= digits[i] <= '9');
    }
    assert(latin_text(status.1@) =~= digits);
    law_status_is_read(before, status, after, code as nat);
}

/// A URI without an authority is asked for with an empty one.
pub proof fn law_missing_authority_is_empty(uri: UriTexts)
    requires
        uri.authority is None,
    ensures
        h3_header_texts(uri)[2].0 == ":authority"@,
        h3_header_texts(uri)[2].1.len() == 0,
{
    reveal_strlit("");
}

/// What each failure to connect is reported as: with the reason, where there
/// is one.
pub proof fn law_connect_failures_are_reported(text: String)
    ensures
        ConnectError::InvalidUri.text() == "invalid connect URI"@,
        ConnectError::LoginFailed.text()
            == "login failed! Please double-check if your tls key and cert is enrolled in the Cloudflare Access service"@,
        ConnectError::Refused(text).text() == "tunnel connection failed: "@ + text@,
        ConnectError::ControllerClosed.text()
            == "HTTP/3 controller closed before CONNECT established"@,
        ConnectError::ConnectionFailed(text).text() == "HTTP/3 connection error: "@ + text@,
        ConnectError::ConnectionShutdown(text).text() == "HTTP/3 connection shutdown: "@ + text@,
        ConnectError::NoFlow.text() == "CONNECT-IP datagram flow was not created"@,
{
}

/// The parts of a URI and of a list of headers are told as they are, each in
/// its place.
pub proof fn law_parts_keep_their_places(
    uri: UriParts,
    headers: Seq<(String, String)>,
    i: int,
)
    ensures
        uri.texts().path == uri.path@,
        uri.texts().port == uri.port,
        uri.authority matches Some(text) ==> uri.texts().authority == Some(text@),
        uri.authority is None ==> uri.texts().authority is None,
        uri.host matches Some(text) ==> uri.texts().host == Some(text@),
        uri.host is None ==> uri.texts().host is None,
        uri.path_and_query matches Some(text) ==> uri.texts().path_and_query == Some(text@),
        uri.path_and_query is None ==> uri.texts().path_and_query is None,
        header_texts(headers).len() == headers.len(),
        0 <= i < headers.len() ==> header_texts(headers)[i].0 == headers[i].0@ && header_texts(
            headers,
        )[i].1 == headers[i].1@,
{
}

} // verus!
