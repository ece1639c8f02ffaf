use usque::config::{
    parse_endpoint_v4, parse_endpoint_v6, select_endpoint, Config, EndpointError,
    EndpointSelection, PrettyFormatter, DEFAULT_ENDPOINT_H2_V4, HTTP2_WIKI_URL,
};
use usque::ip::{IpAddr, SocketAddr};

fn sample_config() -> Config {
    Config {
        private_key: String::new(),
        endpoint_v4: "162.159.198.1".into(),
        endpoint_v6: "2606:4700:103::".into(),
        endpoint_h2_v4: DEFAULT_ENDPOINT_H2_V4.into(),
        endpoint_h2_v6: "2606:4700:103::".into(),
        endpoint_pub_key: String::new(),
        license: String::new(),
        id: String::new(),
        access_token: String::new(),
        ipv4: "100.96.0.1".into(),
        ipv6: "2606::1".into(),
    }
}

fn message(config: &Config, http2: bool, ipv6: bool) -> String {
    select_endpoint(config, http2, ipv6, 443).err().unwrap().message()
}

#[test]
fn select_http3_ipv4() {
    let cfg = sample_config();
    let addr = select_endpoint(&cfg, false, false, 443).ok().unwrap();
    assert_eq!(
        addr,
        SocketAddr::new(IpAddr::V4(u32::from_be_bytes([162, 159, 198, 1])), 443)
    );
}

#[test]
fn select_http3_ipv6() {
    let cfg = sample_config();
    let addr = select_endpoint(&cfg, false, true, 443).ok().unwrap();
    assert_eq!(
        addr,
        SocketAddr::new(IpAddr::V6(0x2606_4700_0103_0000_0000_0000_0000_0000), 443)
    );
}

#[test]
fn select_http2_default_ipv4() {
    let cfg = sample_config();
    let addr = select_endpoint(&cfg, true, false, 443).ok().unwrap();
    assert_eq!(
        addr,
        SocketAddr::new(IpAddr::V4(u32::from_be_bytes([162, 159, 198, 2])), 443)
    );
}

#[test]
fn select_http2_ipv6_requires_config() {
    let mut cfg = sample_config();
    cfg.endpoint_h2_v6.clear();
    assert!(select_endpoint(&cfg, true, true, 443).is_err());
}

#[test]
fn parse_endpoints() {
    assert_eq!(parse_endpoint_v4("162.159.198.1:0"), "162.159.198.1");
    assert_eq!(
        parse_endpoint_v6("[2606:4700:103::]:0"),
        "2606:4700:103::"
    );
}

#[test]
fn endpoints_without_suffix_stay() {
    assert_eq!(parse_endpoint_v4("1.2.3.4"), "1.2.3.4");
    assert_eq!(parse_endpoint_v4("1.2.3.4:0:0"), "1.2.3.4:0");
    assert_eq!(parse_endpoint_v4(":0"), "");
    assert_eq!(parse_endpoint_v4(""), "");
    assert_eq!(parse_endpoint_v4("1.2.3.4:10"), "1.2.3.4:10");
    assert_eq!(parse_endpoint_v6("::1"), "::1");
    assert_eq!(parse_endpoint_v6("[[::1]:0]:0"), "::1");
    assert_eq!(parse_endpoint_v6("[::1]"), "::1]");
    assert_eq!(parse_endpoint_v6("]:0"), "");
    assert_eq!(parse_endpoint_v6("[::1]:80"), "::1]:80");
}

#[test]
fn http2_default_where_none_is_named() {
    let mut cfg = sample_config();
    cfg.endpoint_h2_v4.clear();
    let addr = select_endpoint(&cfg, true, false, 8443).ok().unwrap();
    assert_eq!(addr, SocketAddr::new(IpAddr::V4(0xa29f_c602), 8443));
}

#[test]
fn either_family_where_ipv6_is_asked_for() {
    let mut cfg = sample_config();
    cfg.endpoint_v6 = "1.2.3.4".into();
    cfg.endpoint_h2_v6 = "1.2.3.5".into();
    assert_eq!(
        select_endpoint(&cfg, false, true, 1).ok(),
        Some(SocketAddr::new(IpAddr::V4(0x0102_0304), 1))
    );
    assert_eq!(
        select_endpoint(&cfg, true, true, 2).ok(),
        Some(SocketAddr::new(IpAddr::V4(0x0102_0305), 2))
    );
}

#[test]
fn each_endpoint_error() {
    let mut cfg = sample_config();
    cfg.endpoint_h2_v6.clear();
    assert!(matches!(
        select_endpoint(&cfg, true, true, 443),
        Err(EndpointError::MissingH2V6)
    ));
    assert_eq!(
        message(&cfg, true, true),
        format!("--http2 with --ipv6 requires config endpoint_h2_v6 to be set; see {HTTP2_WIKI_URL}")
    );
    cfg.endpoint_v4 = "a\"b".into();
    assert!(matches!(
        select_endpoint(&cfg, false, false, 443),
        Err(EndpointError::Invalid(EndpointSelection::Http3V4, _))
    ));
    assert_eq!(message(&cfg, false, false), "invalid endpoint_v4 value \"a\\\"b\"");
    cfg.endpoint_v6 = "".into();
    assert_eq!(message(&cfg, false, true), "invalid endpoint_v6 value \"\"");
    cfg.endpoint_h2_v4 = "1.2.3".into();
    assert_eq!(message(&cfg, true, false), "invalid endpoint_h2_v4 value \"1.2.3\"");
    cfg.endpoint_h2_v6 = "x".into();
    assert_eq!(message(&cfg, true, true), "invalid endpoint_h2_v6 value \"x\"");
    cfg.endpoint_v4 = "::1".into();
    assert!(matches!(
        select_endpoint(&cfg, false, false, 443),
        Err(EndpointError::NotIpv4(EndpointSelection::Http3V4))
    ));
    assert_eq!(message(&cfg, false, false), "endpoint_v4 must be IPv4");
    cfg.endpoint_h2_v4 = "::1".into();
    assert_eq!(message(&cfg, true, false), "endpoint_h2_v4 must be IPv4");
}

#[test]
fn default_config_is_empty() {
    let cfg = Config::default();
    assert_eq!(cfg.private_key, "");
    assert_eq!(cfg.endpoint_h2_v4, "");
    assert_eq!(cfg, cfg.clone());
}

#[test]
fn layout_of_a_flat_object() {
    let mut f = PrettyFormatter::new();
    let mut out = String::new();
    out += f.begin_object();
    for (i, key) in ["a", "b"].iter().enumerate() {
        out += f.begin_object_key(i == 0);
        out += f.begin_string();
        out += key;
        out += f.end_string();
        out += f.begin_object_value();
        out += "1";
    }
    out += f.end_object();
    assert_eq!(out, "{\n  \"a\": 1,\n  \"b\": 1\n}\n");
}

#[test]
fn layout_of_what_is_nested() {
    let mut f = PrettyFormatter::new();
    assert_eq!(f.nesting(), 0);
    assert_eq!(f.begin_object(), "{\n");
    assert_eq!(f.begin_array(), "[");
    assert_eq!(f.nesting(), 2);
    assert_eq!(f.begin_object(), "{");
    assert_eq!(f.begin_object_key(true), "");
    assert_eq!(f.begin_object_key(false), ",");
    assert_eq!(f.end_object(), "}");
    assert_eq!(f.end_array(), "]");
    assert_eq!(f.end_object(), "\n}\n");
}
