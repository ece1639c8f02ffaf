use usque::dns::DnsResolver;
use usque::handshake::UriParts;
use usque::http_proxy::{
    added_host, authority_header_value, connect_target, failure_status, handle, handle_http,
    origin_form, origin_form_uri, resolve_connect_addr, upstream_addr, upstream_host,
    ConnectTarget, HttpProxyConfig, ProxyFailure, ProxyStep, CHALLENGE, CHALLENGE_HEADER,
    CHALLENGE_STATUS,
};
use usque::ip::{IpAddr, SocketAddr};
use usque::socks::{
    choose_ip, relay_udp, resolve_target, service_for, success_bind_addr, SocksCommand,
    SocksProxyConfig, SocksService, Target, UdpEvent,
};

const V4: IpAddr = IpAddr::V4(0x0102_0304);
const V6: IpAddr = IpAddr::V6(9);
const LOCALHOST: IpAddr = IpAddr::V4(0x7f00_0001);

fn resolver() -> DnsResolver {
    DnsResolver {
        servers: vec![],
        timeout: 1,
        use_os_resolver: false,
        local_dns: false,
        has_stack: true,
    }
}

fn text(s: &str) -> Option<String> {
    Some(s.to_string())
}

fn uri(host: Option<&str>, port: Option<u16>, path_and_query: Option<&str>) -> UriParts {
    UriParts {
        authority: host.map(|h| h.to_string()),
        host: host.map(|h| h.to_string()),
        port,
        path: "/".to_string(),
        path_and_query: path_and_query.map(|p| p.to_string()),
    }
}

fn http(username: Option<String>, password: Option<String>) -> HttpProxyConfig {
    HttpProxyConfig {
        bind: SocketAddr::new(LOCALHOST, 8000),
        username,
        password,
        resolver: resolver(),
    }
}

#[test]
fn token_of_a_login() {
    assert_eq!(
        http(text("Aladdin"), text("open sesame")).token().unwrap(),
        "QWxhZGRpbjpvcGVuIHNlc2FtZQ=="
    );
    assert_eq!(http(text("u"), None).token(), None);
    assert_eq!(http(None, text("p")).token(), None);
}

#[test]
fn only_the_login_is_served() {
    let token = text("dTpw");
    assert_eq!(handle(&token, None, false), ProxyStep::Challenge);
    assert_eq!(handle(&token, Some("Basic dTpx"), true), ProxyStep::Challenge);
    assert_eq!(handle(&token, Some("dTpw"), true), ProxyStep::Challenge);
    assert_eq!(handle(&token, Some("Basic dTpw"), true), ProxyStep::Connect);
    assert_eq!(handle(&token, Some("Basic dTpw"), false), ProxyStep::Forward);
    assert_eq!(handle(&None, None, true), ProxyStep::Connect);
    assert_eq!(handle(&None, Some("x"), false), ProxyStep::Forward);
    assert_eq!(CHALLENGE_STATUS, 407);
    assert_eq!(CHALLENGE_HEADER, "Proxy-Authenticate");
    assert_eq!(CHALLENGE, "Basic realm=\"Proxy\"");
}

#[test]
fn targets_of_connect_requests() {
    let addr = |authority: &str, found: Option<IpAddr>| {
        resolve_connect_addr(&connect_target(authority), found)
    };
    let fallback = SocketAddr::new(LOCALHOST, 443);
    assert_eq!(addr("1.2.3.4:80", None), SocketAddr::new(V4, 80));
    assert_eq!(addr("[::9]:80", None), SocketAddr::new(V6, 80));
    assert_eq!(addr("example.com:8443", Some(V6)), SocketAddr::new(V6, 8443));
    assert_eq!(addr("example.com:8443", None), fallback);
    assert_eq!(addr("example.com", Some(V4)), fallback);
    assert_eq!(addr("example.com:x", Some(V4)), fallback);
    assert_eq!(addr("", None), fallback);
    match connect_target("a:b:99") {
        ConnectTarget::Host(host, port) => {
            assert_eq!(host, "a:b");
            assert_eq!(port, 99);
        }
        _ => panic!("expected a host"),
    }
}

#[test]
fn upstream_of_a_request() {
    let u = uri(Some("example.com"), Some(81), Some("/a?b"));
    assert_eq!(upstream_host(&u), "example.com");
    assert_eq!(upstream_addr(&u, Some(V6)), SocketAddr::new(V6, 81));
    let u = uri(None, None, None);
    assert_eq!(upstream_host(&u), "localhost");
    assert_eq!(upstream_addr(&u, None), SocketAddr::new(LOCALHOST, 80));
}

#[test]
fn targets_in_origin_form() {
    assert_eq!(origin_form_uri(&uri(None, None, Some("/a?b=c"))), "/a?b=c");
    assert_eq!(origin_form_uri(&uri(None, None, None)), "/");
    assert_eq!(origin_form_uri(&uri(None, None, Some("/a b"))), "/");
    assert_eq!(origin_form(&text("/x"), true), "/x");
    assert_eq!(origin_form(&text("/x"), false), "/");
    assert_eq!(origin_form(&None, true), "/");
}

#[test]
fn host_headers() {
    let u = uri(Some("h"), Some(8080), None);
    assert_eq!(authority_header_value(&u), "h:8080");
    assert_eq!(authority_header_value(&uri(Some("h"), None, None)), "h");
    assert_eq!(authority_header_value(&uri(None, Some(1), None)), "localhost");
    let names: Vec<String> = vec!["accept".to_string(), "host".to_string()];
    assert_eq!(added_host(&names, &u), None);
    assert_eq!(added_host(&names[..1].to_vec(), &u), text("h:8080"));
    assert_eq!(added_host(&vec![], &u), text("h:8080"));
}

#[test]
fn plan_of_a_request() {
    let u = uri(Some("h"), None, Some("/q?1"));
    let plan = handle_http(&u, &vec!["accept".to_string()]);
    assert_eq!(plan.host, "h");
    assert_eq!(plan.target, "/q?1");
    assert_eq!(plan.added_host, text("h"));
    assert_eq!(handle_http(&u, &vec!["host".to_string()]).added_host, None);
}

#[test]
fn statuses_of_failures() {
    assert_eq!(failure_status(ProxyFailure::Build), 400);
    for failure in [ProxyFailure::Dial, ProxyFailure::Handshake, ProxyFailure::Upstream] {
        assert_eq!(failure_status(failure), 502);
    }
}

fn socks(username: Option<String>, password: Option<String>) -> SocksProxyConfig {
    SocksProxyConfig {
        bind: SocketAddr::new(LOCALHOST, 1080),
        username,
        password,
        resolver: resolver(),
        udp_timeout: 60000,
    }
}

#[test]
fn socks_logins() {
    let cfg = socks(text("u"), text("p"));
    assert!(cfg.needs_login());
    assert!(cfg.accepts("u", "p"));
    assert!(!cfg.accepts("u", "q"));
    assert!(!cfg.accepts("", ""));
    let open = socks(text("u"), None);
    assert!(!open.needs_login());
    assert!(!open.accepts("u", ""));
}

#[test]
fn socks_services() {
    assert_eq!(service_for(SocksCommand::TcpConnect), SocksService::Relay);
    assert_eq!(service_for(SocksCommand::UdpAssociate), SocksService::Associate);
    assert_eq!(service_for(SocksCommand::TcpBind), SocksService::Drop);
    assert_eq!(success_bind_addr(), SocketAddr::new(LOCALHOST, 0));
}

#[test]
fn ipv6_is_preferred() {
    assert_eq!(choose_ip(&vec![V4, V6, IpAddr::V6(1)]), Some(V6));
    assert_eq!(choose_ip(&vec![V4, LOCALHOST]), Some(V4));
    assert_eq!(choose_ip(&vec![]), None);
    let host = Target::Domain("h".to_string(), 5);
    assert_eq!(resolve_target(&host, &vec![V4, V6]), Ok(SocketAddr::new(V6, 5)));
    assert_eq!(
        resolve_target(&host, &vec![]),
        Err("no IP address for h".to_string())
    );
    let addr = SocketAddr::new(V4, 6);
    assert_eq!(resolve_target(&Target::Ip(addr), &vec![V6]), Ok(addr));
}

#[test]
fn udp_associations_end_with_their_connection() {
    assert!(relay_udp(UdpEvent::ControlRead(Some(3))));
    assert!(!relay_udp(UdpEvent::ControlRead(Some(0))));
    assert!(!relay_udp(UdpEvent::ControlRead(None)));
    assert!(relay_udp(UdpEvent::Datagram(0)));
    assert!(relay_udp(UdpEvent::Datagram(9)));
    assert!(!relay_udp(UdpEvent::UdpFailed));
}
