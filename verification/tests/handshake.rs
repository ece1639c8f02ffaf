use usque::api::CONNECT_URI;
use usque::handshake::{
    bind_address, check_h2_status, check_h3_status, h2_connect_headers, h2_connect_request,
    h3_connect_headers, quic_choices, response_status, send_connect_request, transport_for,
    ConnectError, ConnectOptions, H3Event, H3Setup, H3Step, UriParts,
};
use usque::ip::{IpAddr, SocketAddr};
use usque::session::Transport;

fn options(uri: &str) -> ConnectOptions {
    ConnectOptions {
        endpoint: SocketAddr::new(IpAddr::V4(1), 443),
        sni: "example.com".to_string(),
        use_http2: false,
        insecure: false,
        keepalive_period: 30000,
        initial_packet_size: 0,
        connect_uri: uri.to_string(),
    }
}

fn pairs(headers: &[(String, String)]) -> Vec<(&str, &str)> {
    headers.iter().map(|h| (h.0.as_str(), h.1.as_str())).collect()
}

fn status_header(value: &[u8]) -> Vec<(Vec<u8>, Vec<u8>)> {
    vec![
        (b"server".to_vec(), b"x".to_vec()),
        (b":status".to_vec(), value.to_vec()),
        (b":status".to_vec(), b"999".to_vec()),
    ]
}

#[test]
fn h3_request_of_the_default_uri() {
    let headers = send_connect_request(&options(CONNECT_URI)).ok().unwrap();
    assert_eq!(
        pairs(&headers),
        vec![
            (":method", "CONNECT"),
            (":scheme", "https"),
            (":authority", "cloudflareaccess.com"),
            (":path", "/"),
            (":protocol", "cf-connect-ip"),
            ("capsule-protocol", "?1"),
            ("user-agent", ""),
        ]
    );
}

#[test]
fn h3_request_with_port_and_path() {
    let headers = send_connect_request(&options("https://a.example:8443/b?c")).ok().unwrap();
    assert_eq!(pairs(&headers)[2], (":authority", "a.example:8443"));
    assert_eq!(pairs(&headers)[3], (":path", "/b"));
}

#[test]
fn h3_request_without_authority() {
    let uri = UriParts {
        authority: None,
        host: None,
        port: None,
        path: "/x".to_string(),
        path_and_query: Some("/x".to_string()),
    };
    let headers = h3_connect_headers(&uri);
    assert_eq!(pairs(&headers)[2], (":authority", ""));
    assert_eq!(pairs(&headers)[3], (":path", "/x"));
}

#[test]
fn malformed_uri_is_refused() {
    let err = send_connect_request(&options("")).err().unwrap();
    assert!(matches!(err, ConnectError::InvalidUri));
    assert_eq!(err.message(), "invalid connect URI");
    assert!(h2_connect_request(&options("http://a b")).is_err());
}

#[test]
fn h2_request_headers() {
    let expected = vec![
        ("cf-connect-proto", "cf-connect-ip"),
        ("capsule-protocol", "?1"),
        ("pq-enabled", "false"),
        ("user-agent", ""),
    ];
    assert_eq!(pairs(&h2_connect_headers()), expected);
    let request = h2_connect_request(&options(CONNECT_URI)).ok().unwrap();
    assert_eq!(request.method, "CONNECT");
    assert_eq!(request.uri, CONNECT_URI);
    assert_eq!(pairs(&request.headers), expected);
}

#[test]
fn h2_statuses() {
    assert!(check_h2_status(200).is_ok());
    let err = check_h2_status(403).err().unwrap();
    assert_eq!(
        err.message(),
        "login failed! Please double-check if your tls key and cert is enrolled in the Cloudflare Access service"
    );
    let err = check_h2_status(502).err().unwrap();
    assert_eq!(err.message(), "tunnel connection failed: 502 Bad Gateway");
    let err = check_h2_status(204).err().unwrap();
    assert_eq!(err.message(), "tunnel connection failed: 204 No Content");
}

#[test]
fn h3_statuses() {
    assert!(check_h3_status(200).is_ok());
    assert!(matches!(check_h3_status(403), Err(ConnectError::LoginFailed)));
    assert_eq!(
        check_h3_status(502).err().unwrap().message(),
        "tunnel connection failed: 502"
    );
}

#[test]
fn status_of_an_answer() {
    assert_eq!(response_status(&status_header(b"200")), 200);
    assert_eq!(response_status(&status_header(b"+200")), 200);
    assert_eq!(response_status(&status_header(b"65535")), 65535);
    assert_eq!(response_status(&status_header(b"65536")), 0);
    assert_eq!(response_status(&status_header(b"")), 0);
    assert_eq!(response_status(&status_header(b"2\xff")), 0);
    assert_eq!(response_status(&status_header(b"abc")), 0);
    assert_eq!(response_status(&vec![]), 0);
}

#[test]
fn setup_needs_a_flow_and_an_answer() {
    let mut setup = H3Setup::new();
    assert!(matches!(setup.on_event(H3Event::RequestSent), H3Step::Continue));
    assert!(matches!(setup.on_event(H3Event::Settings), H3Step::Continue));
    assert!(matches!(setup.on_event(H3Event::Other), H3Step::Continue));
    assert!(matches!(setup.on_event(H3Event::NewFlow(4)), H3Step::AdoptFlow(4)));
    // Only the first flow is the tunnel's.
    assert!(matches!(setup.on_event(H3Event::NewFlow(8)), H3Step::Continue));
    assert_eq!(setup.flow_id, Some(4));
    assert!(matches!(
        setup.on_event(H3Event::Headers(status_header(b"200"))),
        H3Step::Established(4)
    ));
}

#[test]
fn setup_failures() {
    let fail = |event: H3Event| match H3Setup::new().on_event(event) {
        H3Step::Fail(err) => err.message(),
        _ => panic!("expected a failure"),
    };
    assert_eq!(
        fail(H3Event::Headers(status_header(b"200"))),
        "CONNECT-IP datagram flow was not created"
    );
    assert_eq!(
        fail(H3Event::Headers(status_header(b"500"))),
        "tunnel connection failed: 500"
    );
    assert!(fail(H3Event::Headers(status_header(b"403"))).starts_with("login failed!"));
    assert_eq!(fail(H3Event::Headers(vec![])), "tunnel connection failed: 0");
    assert_eq!(
        fail(H3Event::ConnectionError("a".to_string())),
        "HTTP/3 connection error: a"
    );
    assert_eq!(
        fail(H3Event::ConnectionShutdown("b".to_string())),
        "HTTP/3 connection shutdown: b"
    );
    assert_eq!(
        fail(H3Event::Ended),
        "HTTP/3 controller closed before CONNECT established"
    );
}

#[test]
fn quic_settings_follow_the_options() {
    let mut o = options(CONNECT_URI);
    let q = quic_choices(&o);
    assert!(q.enable_dgram);
    assert!(q.verify_peer);
    assert_eq!(q.udp_payload_size, None);
    o.insecure = true;
    o.initial_packet_size = 1350;
    let q = quic_choices(&o);
    assert!(!q.verify_peer);
    assert_eq!(q.udp_payload_size, Some(1350));
}

#[test]
fn transport_and_bind_address() {
    let mut o = options(CONNECT_URI);
    assert_eq!(transport_for(&o), Transport::H3Quiche);
    o.use_http2 = true;
    assert_eq!(transport_for(&o), Transport::H2);
    assert_eq!(
        bind_address(SocketAddr::new(IpAddr::V4(9), 443)),
        SocketAddr::new(IpAddr::V4(0), 0)
    );
    assert_eq!(
        bind_address(SocketAddr::new(IpAddr::V6(9), 443)),
        SocketAddr::new(IpAddr::V6(0), 0)
    );
}
