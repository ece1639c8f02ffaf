//! The configuration of a client, and the endpoint that it connects to.

use vstd::prelude::*;
use vstd::string::*;

use crate::ip::{ip_value, parse_ip, SocketAddr};
use crate::text::{chars_of, string_range};

verus! {

/// Where HTTP/2 mode is described.
pub const HTTP2_WIKI_URL: &'static str = "https://github.com/Diniboy1123/usque/wiki/HTTP-2-support";

/// The endpoint of HTTP/2 tunnels where the configuration names none.
pub const DEFAULT_ENDPOINT_H2_V4: &'static str = "162.159.198.2";

/// The configuration of a client, as it is kept in a file.
#[derive(Debug, Clone, PartialEq, Eq)]
pub struct Config {
    pub private_key: String,
    pub endpoint_v4: String,
    pub endpoint_v6: String,
    pub endpoint_h2_v4: String,
    pub endpoint_h2_v6: String,
    pub endpoint_pub_key: String,
    pub license: String,
    pub id: String,
    pub access_token: String,
    pub ipv4: String,
    pub ipv6: String,
}

impl Default for Config {
    fn default() -> (r: Self)
        ensures
            r.private_key@ == Seq::<char>::empty(),
            r.endpoint_v4@ == Seq::<char>::empty(),
            r.endpoint_v6@ == Seq::<char>::empty(),
            r.endpoint_h2_v4@ == Seq::<char>::empty(),
            r.endpoint_h2_v6@ == Seq::<char>::empty(),
            r.endpoint_pub_key@ == Seq::<char>::empty(),
            r.license@ == Seq::<char>::empty(),
            r.id@ == Seq::<char>::empty(),
            r.access_token@ == Seq::<char>::empty(),
            r.ipv4@ == Seq::<char>::empty(),
            r.ipv6@ == Seq::<char>::empty(),
    {
        proof {
            reveal_strlit("");
        }
        Config {
            private_key: String::new(),
            endpoint_v4: String::new(),
            endpoint_v6: String::new(),
            endpoint_h2_v4: String::new(),
            endpoint_h2_v6: String::new(),
            endpoint_pub_key: String::new(),
            license: String::new(),
            id: String::new(),
            access_token: String::new(),
            ipv4: String::new(),
            ipv6: String::new(),
        }
    }
}

/// The kinds of endpoint that a configuration holds.
#[derive(Debug, Clone, Copy, PartialEq, Eq, Structural)]
pub enum EndpointSelection {
    Http3V4,
    Http3V6,
    Http2V4,
    Http2V6,
}

/// Why a configuration has no endpoint of the kind asked for.
pub enum EndpointError {
    /// There is no IPv6 endpoint for HTTP/2.
    MissingH2V6,
    /// The field is no IP address; its value comes in quotes.
    Invalid(EndpointSelection, String),
    /// The field is an IPv6 address where IPv4 is asked for.
    NotIpv4(EndpointSelection),
}

/// The name of the field that holds a kind of endpoint.
pub open spec fn field_name(kind: EndpointSelection) -> Seq<char> {
    match kind {
        EndpointSelection::Http3V4 => "endpoint_v4"@,
        EndpointSelection::Http3V6 => "endpoint_v6"@,
        EndpointSelection::Http2V4 => "endpoint_h2_v4"@,
        EndpointSelection::Http2V6 => "endpoint_h2_v6"@,
    }
}

/// Writes the name of the field that holds a kind of endpoint.
fn format_field(kind: EndpointSelection) -> (r: &'static str)
    ensures
        r@ == field_name(kind),
{
    match kind {
        EndpointSelection::Http3V4 => "endpoint_v4",
        EndpointSelection::Http3V6 => "endpoint_v6",
        EndpointSelection::Http2V4 => "endpoint_h2_v4",
        EndpointSelection::Http2V6 => "endpoint_h2_v6",
    }
}

impl EndpointError {
    /// What the error says.
    pub open spec fn text(&self) -> Seq<char> {
        match self {
            EndpointError::MissingH2V6 =>
                "--http2 with --ipv6 requires config endpoint_h2_v6 to be set; see "@
                + HTTP2_WIKI_URL@,
            EndpointError::Invalid(kind, quoted) => "invalid "@ + field_name(*kind) + " value "@
                + quoted@,
            EndpointError::NotIpv4(kind) => field_name(*kind) + " must be IPv4"@,
        }
    }

    /// Writes the error as a message.
    pub fn message(&self) -> (out: String)
        ensures
            out@ == self.text(),
    {
        match self {
            EndpointError::MissingH2V6 =>
                "--http2 with --ipv6 requires config endpoint_h2_v6 to be set; see ".to_owned().concat(
            HTTP2_WIKI_URL),
            EndpointError::Invalid(kind, quoted) => "invalid ".to_owned().concat(
                format_field(*kind),
            ).concat(" value ").concat(quoted.as_str()),
            EndpointError::NotIpv4(kind) => format_field(*kind).to_owned().concat(" must be IPv4"),
        }
    }
}

/// A text in double quotes, with escapes where it needs them.
pub uninterp spec fn quoted_text(text: Seq<char>) -> Seq<char>;

/// `str`'s `Debug` format: the text in double quotes, with escapes. Which
/// characters are escaped, and how, is left to the name `quoted_text`.
#[verifier::external_body]
fn quote(text: &str) -> (out: String)
    ensures
        out@ == quoted_text(text@),
{
    format!("{text:?}")
}

/// The kind of endpoint for a transport and an address family.
pub open spec fn kind_for(use_http2: bool, use_ipv6: bool) -> EndpointSelection {
    if use_http2 {
        if use_ipv6 {
            EndpointSelection::Http2V6
        } else {
            EndpointSelection::Http2V4
        }
    } else {
        if use_ipv6 {
            EndpointSelection::Http3V6
        } else {
            EndpointSelection::Http3V4
        }
    }
}

/// The text of the endpoint of a kind. For HTTP/2 over IPv4 there is a
/// default.
pub open spec fn endpoint_text(config: Config, kind: EndpointSelection) -> Seq<char> {
    match kind {
        EndpointSelection::Http3V4 => config.endpoint_v4@,
        EndpointSelection::Http3V6 => config.endpoint_v6@,
        EndpointSelection::Http2V4 => if config.endpoint_h2_v4@.len() == 0 {
            DEFAULT_ENDPOINT_H2_V4@
        } else {
            config.endpoint_h2_v4@
        },
        EndpointSelection::Http2V6 => config.endpoint_h2_v6@,
    }
}

/// Whether an endpoint of a kind has to be an IPv4 address.
pub open spec fn ipv4_only(kind: EndpointSelection) -> bool {
    kind == EndpointSelection::Http3V4 || kind == EndpointSelection::Http2V4
}

/// Selects the endpoint to connect to.
pub fn select_endpoint(config: &Config, use_http2: bool, use_ipv6: bool, port: u16) -> (r: Result<
    SocketAddr,
    EndpointError,
>)
    ensures
        ({
            let kind = kind_for(use_http2, use_ipv6);
            let text = endpoint_text(*config, kind);
            match r {
                Ok(addr) => ip_value(text) matches Some(ip) && (ipv4_only(kind) ==> ip is V4)
                    && addr == (SocketAddr { ip, port, scope: 0 }) && text.len() > 0,
                Err(EndpointError::MissingH2V6) => kind == EndpointSelection::Http2V6 && text.len()
                    == 0,
                Err(EndpointError::Invalid(k, quoted)) => k == kind && ip_value(text) is None
                    && quoted@ == quoted_text(text) && !(kind == EndpointSelection::Http2V6
                    && text.len() == 0),
                Err(EndpointError::NotIpv4(k)) => k == kind && ipv4_only(kind) && (ip_value(
                    text,
                ) matches Some(ip) && ip is V6),
            }
        }),
{
    proof {
        lemma_empty_is_no_ip();
    }
    if use_http2 {
        if use_ipv6 {
            if config.endpoint_h2_v6.as_str().is_empty() {
                return Err(EndpointError::MissingH2V6);
            }
            return parse_endpoint(
                EndpointSelection::Http2V6,
                config.endpoint_h2_v6.as_str(),
                port,
            );
        }
        let v4 = if config.endpoint_h2_v4.as_str().is_empty() {
            DEFAULT_ENDPOINT_H2_V4
        } else {
            config.endpoint_h2_v4.as_str()
        };
        return parse_endpoint(EndpointSelection::Http2V4, v4, port);
    }
    if use_ipv6 {
        return parse_endpoint(EndpointSelection::Http3V6, config.endpoint_v6.as_str(), port);
    }
    parse_endpoint(EndpointSelection::Http3V4, config.endpoint_v4.as_str(), port)
}

/// An empty text is no address.
proof fn lemma_empty_is_no_ip()
    ensures
        ip_value(Seq::<char>::empty()) is None,
        forall|s: Seq<char>| s.len() == 0 ==> ip_value(s) is None,
{
    let e = Seq::<char>::empty();
    assert(crate::text::split_on(e, '.') == seq![e]);
    assert(crate::text::split_on(e, ':') == seq![e]);
    assert(crate::ip::ipv4_value(e) is None);
    assert(crate::ip::double_colon(e, 0) is None);
    let pieces = seq![e];
    assert(pieces.last() == e);
    assert(crate::ip::group_of(e) is None);
    assert(crate::ip::groups_of(pieces) is None);
    assert forall|s: Seq<char>| s.len() == 0 implies ip_value(s) is None by {
        assert(s =~= e);
    }
}

/// Reads an endpoint of a kind.
fn parse_endpoint(kind: EndpointSelection, text: &str, port: u16) -> (r: Result<
    SocketAddr,
    EndpointError,
>)
    ensures
        match r {
            Ok(addr) => ip_value(text@) matches Some(ip) && (ipv4_only(kind) ==> ip is V4) && addr
                == (SocketAddr { ip, port, scope: 0 }),
            Err(EndpointError::MissingH2V6) => false,
            Err(EndpointError::Invalid(k, quoted)) => k == kind && ip_value(text@) is None
                && quoted@ == quoted_text(text@),
            Err(EndpointError::NotIpv4(k)) => k == kind && ipv4_only(kind) && (ip_value(
                text@,
            ) matches Some(ip) && ip is V6),
        },
{
    let ip = match parse_ip(text) {
        Some(ip) => ip,
        None => {
            return Err(EndpointError::Invalid(kind, quote(text)));
        },
    };
    if (kind == EndpointSelection::Http3V4 || kind == EndpointSelection::Http2V4) && ip.is_ipv6() {
        return Err(EndpointError::NotIpv4(kind));
    }
    Ok(SocketAddr::new(ip, port))
}

/// A text without a port of zero at its end.
pub open spec fn without_zero_port(s: Seq<char>) -> Seq<char> {
    let n = s.len() - 2;
    if n >= 0 && s.skip(n) == ":0"@ {
        s.take(n)
    } else {
        s
    }
}

/// A text without the square brackets that it starts with.
pub open spec fn without_brackets(s: Seq<char>) -> Seq<char>
    decreases s.len(),
{
    if s.len() > 0 && s[0] == '[' {
        without_brackets(s.drop_first())
    } else {
        s
    }
}

/// A text without the closing brackets with a port of zero that it ends with.
pub open spec fn without_closed_zero_ports(s: Seq<char>) -> Seq<char>
    decreases s.len(),
{
    let n = s.len() - 3;
    if n >= 0 && s.skip(n) == "]:0"@ {
        without_closed_zero_ports(s.take(n))
    } else {
        s
    }
}

/// Strips the port of zero from an IPv4 endpoint as the API gives it.
pub fn parse_endpoint_v4(raw: &str) -> (out: String)
    ensures
        out@ == without_zero_port(raw@),
{
    let chars = chars_of(raw);
    let n: usize = chars.len();
    proof {
        reveal_strlit(":0");
    }
    if n >= 2 && chars[n - 2] == ':' && chars[n - 1] == '0' {
        assert(raw@.skip(n - 2) =~= ":0"@);
        assert(raw@.subrange(0, n - 2) =~= raw@.take(n - 2));
        string_range(chars.as_slice(), 0, n - 2)
    } else {
        proof {
            if n >= 2 {
                assert(raw@.skip(n - 2)[0] == raw@[n - 2]);
                assert(raw@.skip(n - 2)[1] == raw@[n - 1]);
            }
        }
        raw.to_owned()
    }
}

/// Strips the brackets and the port of zero from an IPv6 endpoint as the API
/// gives it.
pub fn parse_endpoint_v6(raw: &str) -> (out: String)
    ensures
        out@ == without_closed_zero_ports(without_brackets(raw@)),
{
    let chars = chars_of(raw);
    let mut start: usize = 0;
    let mut end: usize = chars.len();
    proof {
        reveal_strlit("]:0");
    }
    assert(raw@.skip(0) =~= raw@);
    while start < end && chars[start] == '['
        invariant
            chars@ == raw@,
            start <= end == raw@.len(),
            without_brackets(raw@.skip(start as int)) == without_brackets(raw@),
        decreases end - start,
    {
        assert(raw@.skip(start as int).drop_first() =~= raw@.skip(start + 1));
        start = start + 1;
    }
    assert(raw@.subrange(start as int, end as int) =~= raw@.skip(start as int));
    while end - start >= 3 && chars[end - 3] == ']' && chars[end - 2] == ':' && chars[end - 1]
        == '0'
        invariant
            chars@ == raw@,
            "]:0"@ == seq![']', ':', '0'],
            start <= end <= raw@.len(),
            without_closed_zero_ports(raw@.subrange(start as int, end as int))
                == without_closed_zero_ports(without_brackets(raw@)),
        decreases end,
    {
        let ghost s = raw@.subrange(start as int, end as int);
        assert(s.skip(s.len() - 3) =~= "]:0"@);
        assert(s.take(s.len() - 3) =~= raw@.subrange(start as int, end - 3));
        end = end - 3;
    }
    proof {
        let s = raw@.subrange(start as int, end as int);
        if s.len() >= 3 {
            let t = s.skip(s.len() - 3);
            assert(t[0] == raw@[end - 3] && t[1] == raw@[end - 2] && t[2] == raw@[end - 1]);
        }
    }
    string_range(chars.as_slice(), start, end)
}

/// The layout of a configuration file: one member to a line, indented by two
/// blanks. Objects and arrays inside stay on one line.
pub struct PrettyFormatter {
    current_indent: usize,
}

impl PrettyFormatter {
    /// How deep the place that is being written is nested.
    pub closed spec fn depth(&self) -> nat {
        self.current_indent as nat
    }

    pub fn new() -> (r: Self)
        ensures
            r.depth() == 0,
    {
        PrettyFormatter { current_indent: 0 }
    }

    /// How deep the place that is being written is nested.
    pub fn nesting(&self) -> (n: usize)
        ensures
            n == self.depth(),
    {
        self.current_indent
    }

    /// What an array begins with.
    pub fn begin_array(&mut self) -> (out: &'static str)
        requires
            old(self).depth() < usize::MAX,
        ensures
            final(self).depth() == old(self).depth() + 1,
            out@ == "["@,
    {
        self.current_indent = self.current_indent + 1;
        "["
    }

    /// What an array ends with.
    pub fn end_array(&mut self) -> (out: &'static str)
        requires
            old(self).depth() > 0,
        ensures
            final(self).depth() == old(self).depth() - 1,
            out@ == "]"@,
    {
        self.current_indent = self.current_indent - 1;
        "]"
    }

    /// What an object begins with.
    pub fn begin_object(&mut self) -> (out: &'static str)
        requires
            old(self).depth() < usize::MAX,
        ensures
            final(self).depth() == old(self).depth() + 1,
            out@ == (if old(self).depth() == 0 {
                "{\n"@
            } else {
                "{"@
            }),
    {
        self.current_indent = self.current_indent + 1;
        if self.current_indent == 1 {
            "{\n"
        } else {
            "{"
        }
    }

    /// What an object ends with.
    pub fn end_object(&mut self) -> (out: &'static str)
        requires
            old(self).depth() > 0,
        ensures
            final(self).depth() == old(self).depth() - 1,
            out@ == (if old(self).depth() == 1 {
                "\n}\n"@
            } else {
                "}"@
            }),
    {
        self.current_indent = self.current_indent - 1;
        if self.current_indent == 0 {
            "\n}\n"
        } else {
            "}"
        }
    }

    /// What comes in front of the key of a member.
    pub fn begin_object_key(&self, first: bool) -> (out: &'static str)
        ensures
            out@ == (if self.depth() == 1 {
                if first {
                    "  "@
                } else {
                    ",\n  "@
                }
            } else if first {
                ""@
            } else {
                ","@
            }),
    {
        if self.current_indent == 1 {
            if first {
                "  "
            } else {
                ",\n  "
            }
        } else if first {
            ""
        } else {
            ","
        }
    }

    /// What comes between the key of a member and its value.
    pub fn begin_object_value(&self) -> (out: &'static str)
        ensures
            out@ == ": "@,
    {
        ": "
    }

    /// What a string begins with.
    pub fn begin_string(&self) -> (out: &'static str)
        ensures
            out@ == "\""@,
    {
        "\""
    }

    /// What a string ends with.
    pub fn end_string(&self) -> (out: &'static str)
        ensures
            out@ == "\""@,
    {
        "\""
    }
}

/// An IPv4 endpoint with the port zero is the address in front, and one with
/// another ending is left as it is.
pub proof fn law_v4_endpoint_is_bare(host: Seq<char>)
    ensures
        without_zero_port(host + ":0"@) == host,
        host.len() < 2 || host[host.len() - 1] != '0' || host[host.len() - 2] != ':'
            ==> without_zero_port(host) == host,
{
    reveal_strlit(":0");
    let s = host + ":0"@;
    assert(s.skip(s.len() - 2) =~= ":0"@);
    assert(s.take(s.len() - 2) =~= host);
    if host.len() >= 2 {
        assert(host.skip(host.len() - 2)[0] == host[host.len() - 2]);
        assert(host.skip(host.len() - 2)[1] == host[host.len() - 1]);
    }
}

/// Whether a text holds no square bracket.
pub open spec fn free_of_brackets(s: Seq<char>) -> bool {
    forall|i: int| 0 <= i < s.len() ==> #[trigger] s[i] != '[' && s[i] != ']'
}

/// An IPv6 endpoint in brackets with the port zero is the address inside, and
/// one without brackets is left as it is.
pub proof fn law_v6_endpoint_is_bare(host: Seq<char>)
    requires
        free_of_brackets(host),
    ensures
        without_closed_zero_ports(without_brackets("["@ + host + "]:0"@)) == host,
        without_closed_zero_ports(without_brackets(host)) == host,
{
    reveal_strlit("[");
    reveal_strlit("]:0");
    let s = "["@ + host + "]:0"@;
    let t = host + "]:0"@;
    assert(s.drop_first() =~= t);
    assert(t[0] == (if host.len() > 0 {
        host[0]
    } else {
        ']'
    }));
    assert(without_brackets(t) == t);
    assert(without_brackets(s) == t);
    assert(t.skip(t.len() - 3) =~= "]:0"@);
    assert(t.take(t.len() - 3) =~= host);
    if host.len() >= 3 {
        assert(host.skip(host.len() - 3)[0] == host[host.len() - 3]);
        assert("]:0"@[0] == ']');
    }
    assert(without_closed_zero_ports(host) == host);
    assert(without_brackets(host) == host);
}

/// The endpoint is taken from the field for the transport and the family that
/// are asked for, and from no other. Only HTTP/2 over IPv4 has a default.
pub proof fn law_endpoint_comes_from_its_field(config: Config)
    ensures
        endpoint_text(config, kind_for(false, false)) == config.endpoint_v4@,
        endpoint_text(config, kind_for(false, true)) == config.endpoint_v6@,
        endpoint_text(config, kind_for(true, true)) == config.endpoint_h2_v6@,
        config.endpoint_h2_v4@.len() > 0 ==> endpoint_text(config, kind_for(true, false))
            == config.endpoint_h2_v4@,
        config.endpoint_h2_v4@.len() == 0 ==> endpoint_text(config, kind_for(true, false))
            == "162.159.198.2"@,
{
}

/// IPv4 is demanded exactly where IPv6 is not asked for; and the name of the
/// field that is told in an error is that of the field that was read.
pub proof fn law_families_are_demanded(http2: bool, ipv6: bool)
    ensures
        ipv4_only(kind_for(http2, ipv6)) <==> !ipv6,
        field_name(kind_for(false, false)) == "endpoint_v4"@,
        field_name(kind_for(false, true)) == "endpoint_v6"@,
        field_name(kind_for(true, false)) == "endpoint_h2_v4"@,
        field_name(kind_for(true, true)) == "endpoint_h2_v6"@,
{
}

/// What is wrong with an endpoint is reported with the field that it stands in
/// and, where it does not parse, with its value.
pub proof fn law_endpoint_errors_name_the_field(http2: bool, ipv6: bool, quoted: String)
    ensures
        ({
            let name = if http2 && ipv6 {
                "endpoint_h2_v6"@
            } else if http2 {
                "endpoint_h2_v4"@
            } else if ipv6 {
                "endpoint_v6"@
            } else {
                "endpoint_v4"@
            };
            let kind = kind_for(http2, ipv6);
            &&& EndpointError::Invalid(kind, quoted).text() == "invalid "@ + name + " value "@
                + quoted@
            &&& EndpointError::NotIpv4(kind).text() == name + " must be IPv4"@
        }),
        EndpointError::MissingH2V6.text()
            == "--http2 with --ipv6 requires config endpoint_h2_v6 to be set; see "@
            + "https://github.com/Diniboy1123/usque/wiki/HTTP-2-support"@,
{
}

/// Brackets in front of an IPv6 endpoint are taken off one by one, and so are
/// closing brackets with a port of zero at its end.
pub proof fn law_brackets_are_taken_off(s: Seq<char>)
    ensures
        without_brackets(seq!['['] + s) == without_brackets(s),
        s.len() > 0 && s[0] != '[' ==> without_brackets(s) == s,
        without_brackets(Seq::empty()).len() == 0,
        without_closed_zero_ports(s + seq![']', ':', '0']) == without_closed_zero_ports(s),
        s.len() < 3 || s[s.len() - 3] != ']' || s[s.len() - 2] != ':' || s[s.len() - 1] != '0'
            ==> without_closed_zero_ports(s) == s,
{
    reveal_strlit("]:0");
    assert((seq!['['] + s).drop_first() =~= s);
    let t = s + seq![']', ':', '0'];
    assert(t.skip(t.len() - 3) =~= "]:0"@);
    assert(t.take(t.len() - 3) =~= s);
    if s.len() >= 3 {
        let u = s.skip(s.len() - 3);
        assert(u[0] == s[s.len() - 3] && u[1] == s[s.len() - 2] && u[2] == s[s.len() - 1]);
    }
}

} // verus!
