use base64::engine::general_purpose::STANDARD;
use base64::Engine as _;
use usque::api::{
    Account, AccountData, AddressPair, ApiError, ApiErrorBody, Endpoint, ErrorInfo,
    InterfaceConfig, Peer, WarpConfig,
};
use usque::cli::{
    alpn_for, build_connect_options, build_native_connect, connect_setup, dns_servers, hook_env, maintain_config,
    native_tun_config,
    portfw_reconnects, proxy_bind, resolver_for, tunnel_addresses, EnrollArgs, NativeTunArgs,
    PortFwArgs, RegisterArgs, RegisterOptions, TunnelFlags,
};
use usque::config::{Config, EndpointError};
use usque::crypto::{
    client_pem, decode_private_key, generate_ec_keypair, verify_server_cert, KeyError, PublicKey,
};
use usque::enroll::{
    enrolled_config, may_overwrite, registered_config, should_auto_register, EnrollAction, EnrollEvent, EnrollFlow,
    RegisterAction, RegisterEvent, RegisterFlow,
};
use usque::ip::{IpAddr, SocketAddr};

fn flags() -> TunnelFlags {
    TunnelFlags {
        connect_port: 443,
        ipv6: false,
        no_tunnel_ipv4: false,
        no_tunnel_ipv6: false,
        sni_address: "sni".to_string(),
        keepalive_period: 30000,
        mtu: 1280,
        initial_packet_size: 0,
        reconnect_delay: 1000,
        always_reconnect: false,
        http2: false,
        insecure: false,
        on_connect: "up".to_string(),
        on_disconnect: "down".to_string(),
    }
}

fn config() -> Config {
    let (private_der, public_der) = generate_ec_keypair().ok().unwrap();
    Config {
        private_key: STANDARD.encode(private_der),
        endpoint_v4: "162.159.198.1".to_string(),
        endpoint_v6: "2606:4700:103::".to_string(),
        endpoint_h2_v4: String::new(),
        endpoint_h2_v6: "2606:4700:104::".to_string(),
        endpoint_pub_key: format!(
            "-----BEGIN PUBLIC KEY-----\n{}\n-----END PUBLIC KEY-----\n",
            STANDARD.encode(public_der)
        ),
        license: "old license".to_string(),
        id: "dev".to_string(),
        access_token: "tok".to_string(),
        ipv4: "100.96.0.1".to_string(),
        ipv6: "2606::1".to_string(),
    }
}

fn account(peers: usize, token: Option<&str>) -> AccountData {
    AccountData {
        id: "new id".to_string(),
        account_type: String::new(),
        model: String::new(),
        name: String::new(),
        key: String::new(),
        key_type: String::new(),
        tun_type: String::new(),
        account: Account { license: "lic".to_string() },
        config: WarpConfig {
            peers: (0..peers)
                .map(|i| Peer {
                    public_key: format!("pem {i}"),
                    endpoint: Endpoint {
                        v4: "162.159.198.1:0".to_string(),
                        v6: "[2606:4700:103::]:0".to_string(),
                    },
                })
                .collect(),
            interface: InterfaceConfig {
                addresses: AddressPair {
                    v4: "100.96.0.9".to_string(),
                    v6: "2606::9".to_string(),
                },
            },
        },
        token: token.map(|t| t.to_string()),
    }
}

fn refusal(status: u16, message: &str) -> ApiError {
    ApiError {
        body: ApiErrorBody {
            success: false,
            errors: vec![ErrorInfo { code: 1, message: message.to_string() }],
        },
        status,
    }
}

fn public_of(private_key: &str) -> String {
    let (_, public_der) = decode_private_key(private_key).ok().unwrap().into_pair().ok().unwrap();
    STANDARD.encode(public_der)
}

#[test]
fn options_to_register() {
    let o = RegisterOptions::auto_register_defaults();
    assert_eq!(o.locale, "en_US");
    assert_eq!(o.model, "PC");
    assert_eq!(o.name, None);
    assert_eq!(o.jwt, None);
    assert!(o.accept_tos);
    let o: RegisterOptions = RegisterArgs {
        locale: "l".to_string(),
        model: "m".to_string(),
        name: Some("n".to_string()),
        jwt: Some("j".to_string()),
        accept_tos: false,
    }
    .into();
    assert_eq!(o.locale, "l");
    assert_eq!(o.model, "m");
    assert_eq!(o.name.as_deref(), Some("n"));
    assert_eq!(o.jwt.as_deref(), Some("j"));
    assert!(!o.accept_tos);
}

#[test]
fn addresses_in_the_tunnel() {
    let cfg = config();
    let mut f = flags();
    let v4 = IpAddr::V4(0x6460_0001);
    let v6 = IpAddr::V6(0x2606_0000_0000_0000_0000_0000_0000_0001);
    assert_eq!(tunnel_addresses(&cfg, &f), (Some(v4), Some(v6)));
    f.no_tunnel_ipv4 = true;
    assert_eq!(tunnel_addresses(&cfg, &f), (None, Some(v6)));
    f.no_tunnel_ipv6 = true;
    assert_eq!(tunnel_addresses(&cfg, &f), (None, None));
}

#[test]
fn servers_by_default_and_as_given() {
    let expected = vec![
        IpAddr::V4(u32::from_be_bytes([9, 9, 9, 9])),
        IpAddr::V4(u32::from_be_bytes([149, 112, 112, 112])),
        IpAddr::V6(0x2620_00fe_0000_0000_0000_0000_0000_00fe),
        IpAddr::V6(0x2620_00fe_0000_0000_0000_0000_0000_0009),
    ];
    assert_eq!(dns_servers(&vec![]), expected);
    assert_eq!(
        dns_servers(&vec!["1.1.1.1".to_string(), "::1".to_string()]),
        vec![IpAddr::V4(0x0101_0101), IpAddr::V6(1)]
    );
}

#[test]
fn resolvers_of_proxies() {
    let r = resolver_for(&vec![], 2000, false, true);
    assert_eq!(r.servers.len(), 4);
    assert_eq!(r.timeout, 2000);
    assert!(!r.use_os_resolver);
    assert!(!r.local_dns);
    assert!(r.has_stack);
    let r = resolver_for(&vec!["1.1.1.1".to_string()], 1, true, true);
    assert!(r.use_os_resolver && r.local_dns && !r.has_stack);
    assert_eq!(
        proxy_bind("0.0.0.0", 1080),
        Some(SocketAddr::new(IpAddr::V4(0), 1080))
    );
    assert_eq!(proxy_bind("localhost", 1080), None);
}

#[test]
fn variables_of_hooks() {
    let env = hook_env("socks", None, "4", "6");
    assert_eq!(env.get("USQUE_MODE"), Some("socks"));
    assert_eq!(env.get("USQUE_IPV4"), Some("4"));
    assert_eq!(env.get("USQUE_IPV6"), Some("6"));
    assert_eq!(env.get("USQUE_IFACE"), None);
    assert_eq!(env.len(), 3);
    let env = hook_env("nativetun", Some("tun0"), "4", "6");
    assert_eq!(env.get("USQUE_IFACE"), Some("tun0"));
    assert_eq!(env.len(), 4);
}

#[test]
fn what_a_tunnel_maintains() {
    let endpoint = SocketAddr::new(IpAddr::V4(1), 2);
    let m = maintain_config(endpoint, &flags(), hook_env("m", None, "", ""));
    assert_eq!(m.endpoint, endpoint);
    assert_eq!(m.mtu, 1280);
    assert_eq!(m.reconnect_delay, 1000);
    assert!(!m.always_reconnect);
    assert_eq!(m.on_connect, "up");
    assert_eq!(m.on_disconnect, "down");
    assert_eq!(m.hook_env.get("USQUE_MODE"), Some("m"));
    let mut args = PortFwArgs {
        tunnel: flags(),
        local_ports: vec![],
        remote_ports: vec![],
        dont_always_reconnect: false,
    };
    assert!(portfw_reconnects(&args));
    args.dont_always_reconnect = true;
    assert!(!portfw_reconnects(&args));
}

#[test]
fn device_of_the_native_tunnel() {
    let cfg = config();
    let mut args = NativeTunArgs {
        tunnel: flags(),
        no_iproute2: false,
        interface_name: "usque0".to_string(),
        persist: true,
    };
    let tun = native_tun_config(&args, &cfg);
    assert_eq!(tun.name, "usque0");
    assert_eq!(tun.ipv4.as_deref(), Some("100.96.0.1"));
    assert_eq!(tun.ipv6.as_deref(), Some("2606::1"));
    assert!(tun.configure_link);
    assert!(tun.persist);
    args.tunnel.no_tunnel_ipv4 = true;
    args.no_iproute2 = true;
    let tun = native_tun_config(&args, &cfg);
    assert_eq!(tun.ipv4, None);
    assert!(!tun.configure_link);
}

#[test]
fn setup_of_a_connection() {
    let cfg = config();
    let mut f = flags();
    let setup = build_connect_options(&cfg, &f).ok().unwrap();
    assert_eq!(setup.options.endpoint, SocketAddr::new(IpAddr::V4(0xa29f_c601), 443));
    assert_eq!(setup.options.sni, "sni");
    assert_eq!(setup.options.connect_uri, "https://cloudflareaccess.com");
    assert_eq!(setup.options.keepalive_period, 30000);
    assert_eq!(setup.alpn, "h3");
    assert_eq!(STANDARD.encode(&setup.key), cfg.private_key);
    let own = STANDARD.decode(public_of(&cfg.private_key)).unwrap();
    let own = PublicKey::from_public_key_der(&own).unwrap();
    assert_eq!(verify_server_cert(&setup.cert, &own), Ok(()));
    assert!(own.same_as(&setup.peer_key));
    assert_eq!(pem::parse(&setup.pem.key_pem).unwrap().contents(), &setup.key[..]);
    let cert = pem::parse(&setup.pem.cert_pem).unwrap();
    assert_eq!(verify_server_cert(cert.contents(), &own), Ok(()));
    f.http2 = true;
    f.insecure = true;
    let setup = build_connect_options(&cfg, &f).ok().unwrap();
    assert_eq!(setup.options.endpoint, SocketAddr::new(IpAddr::V4(0xa29f_c602), 443));
    assert!(setup.options.use_http2 && setup.options.insecure);
    assert_eq!(setup.alpn, "h2");
    assert_eq!(alpn_for(false), "h3");
}

#[test]
fn setup_for_a_native_device() {
    let mut cfg = config();
    let setup = build_native_connect(&cfg, &flags()).ok().unwrap();
    assert_eq!(setup.options.endpoint, SocketAddr::new(IpAddr::V4(0xa29f_c601), 443));
    assert_eq!(setup.alpn, "h3");
    assert_eq!(STANDARD.encode(&setup.key), cfg.private_key);
    cfg.endpoint_v4 = "x".to_string();
    let err = build_native_connect(&cfg, &flags()).err().unwrap();
    assert_eq!(err.message(), "invalid endpoint_v4 value \"x\"");
}

#[test]
fn setup_with_given_keys() {
    let cfg = config();
    let mut f = flags();
    let own = STANDARD.decode(public_of(&cfg.private_key)).unwrap();
    let setup = |cfg: &Config, f: &TunnelFlags| {
        let peer = PublicKey::from_public_key_der(&own).unwrap();
        connect_setup(cfg, f, peer, vec![1], vec![2], client_pem(vec![3], vec![4]))
    };
    let s = setup(&cfg, &f).ok().unwrap();
    assert_eq!(s.options.endpoint, SocketAddr::new(IpAddr::V4(0xa29f_c601), 443));
    assert_eq!((s.alpn, s.cert, s.key), ("h3", vec![1], vec![2]));
    assert_eq!(s.peer_key.to_public_key_der(), &own[..]);
    assert_eq!(pem::parse(&s.pem.cert_pem).unwrap().contents(), &[3]);
    assert_eq!(pem::parse(&s.pem.key_pem).unwrap().contents(), &[4]);
    f.http2 = true;
    f.ipv6 = true;
    let mut none = cfg.clone();
    none.endpoint_h2_v6 = String::new();
    assert!(matches!(setup(&none, &f), Err(EndpointError::MissingH2V6)));
    none.endpoint_h2_v6 = "x".to_string();
    assert!(matches!(setup(&none, &f), Err(EndpointError::Invalid(_, _))));
    f.ipv6 = false;
    none.endpoint_h2_v4 = "::1".to_string();
    assert!(matches!(setup(&none, &f), Err(EndpointError::NotIpv4(_))));
}

#[test]
fn setup_errors_in_order() {
    let message = |cfg: &Config| build_connect_options(cfg, &flags()).err().unwrap().message();
    let mut cfg = config();
    cfg.endpoint_v4 = "x".to_string();
    assert_eq!(message(&cfg), "invalid endpoint_v4 value \"x\"");
    cfg.endpoint_pub_key = "x".to_string();
    assert_eq!(message(&cfg), "failed to decode endpoint public key");
    cfg.private_key = "x".to_string();
    assert_eq!(message(&cfg), "failed to decode private key");
}

#[test]
fn configuration_of_an_enrolled_client() {
    let cfg = enrolled_config(&config(), &[1, 2, 3], &account(2, None)).ok().unwrap();
    assert_eq!(cfg.private_key, "AQID");
    assert_eq!(cfg.endpoint_v4, "162.159.198.1");
    assert_eq!(cfg.endpoint_v6, "2606:4700:103::");
    assert_eq!(cfg.endpoint_h2_v4, "162.159.198.2");
    assert_eq!(cfg.endpoint_h2_v6, "2606:4700:104::");
    assert_eq!(cfg.endpoint_pub_key, "pem 0");
    assert_eq!(cfg.license, "lic");
    assert_eq!(cfg.id, "new id");
    assert_eq!(cfg.access_token, "tok");
    assert_eq!(cfg.ipv4, "100.96.0.9");
    assert_eq!(cfg.ipv6, "2606::9");
    let mut existing = config();
    existing.endpoint_h2_v4 = "1.2.3.4".to_string();
    let cfg = enrolled_config(&existing, &[], &account(1, None)).ok().unwrap();
    assert_eq!(cfg.endpoint_h2_v4, "1.2.3.4");
    assert_eq!(
        enrolled_config(&existing, &[], &account(0, None)).err().unwrap(),
        "missing peer in enroll response"
    );
}

#[test]
fn configuration_of_a_registered_client() {
    let cfg = registered_config("t", &[1, 2, 3], &account(1, None)).ok().unwrap();
    assert_eq!(cfg.private_key, "AQID");
    assert_eq!(cfg.endpoint_h2_v4, "162.159.198.2");
    assert_eq!(cfg.endpoint_h2_v6, "");
    assert_eq!(cfg.access_token, "t");
    assert_eq!(
        registered_config("t", &[], &account(0, None)).err().unwrap(),
        "missing peer in registration response"
    );
}

fn start(args: EnrollArgs, existing: Config) -> (EnrollFlow, String) {
    match EnrollFlow::start(existing, &args).ok().unwrap() {
        (flow, EnrollAction::Send(request, update)) => {
            assert_eq!(request.url, "https://api.cloudflareclient.com/v0a4471/reg/dev");
            assert_eq!(request.headers[4].1, "Bearer tok");
            assert_eq!(update.name, "phone");
            (flow, update.key)
        }
        _ => panic!("expected a request"),
    }
}

fn phone(regen_key: bool) -> EnrollArgs {
    EnrollArgs { name: Some("phone".to_string()), regen_key }
}

#[test]
fn enrolled_key_is_the_saved_one() {
    let existing = config();
    let (mut flow, sent) = start(phone(false), existing.clone());
    assert_eq!(sent, public_of(&existing.private_key));
    match flow.step(EnrollEvent::Replied(Ok(account(1, None)))) {
        EnrollAction::Save(cfg) => assert_eq!(cfg.private_key, existing.private_key),
        _ => panic!("expected a configuration"),
    }
}

#[test]
fn new_key_where_it_is_asked_for() {
    let existing = config();
    let (mut flow, sent) = start(phone(true), existing.clone());
    assert_ne!(sent, public_of(&existing.private_key));
    match flow.step(EnrollEvent::Replied(Ok(account(1, None)))) {
        EnrollAction::Save(cfg) => assert_eq!(public_of(&cfg.private_key), sent),
        _ => panic!("expected a configuration"),
    }
}

#[test]
fn enrollment_with_given_keys() {
    let name = Some("phone".to_string());
    let (a, b) = (generate_ec_keypair().ok().unwrap(), generate_ec_keypair().ok().unwrap());
    let sent = |action: EnrollAction| match action {
        EnrollAction::Send(_, update) => update.key,
        _ => panic!("expected a request"),
    };
    let (mut flow, action) = EnrollFlow::start_with(config(), &name, Ok(a.clone())).ok().unwrap();
    assert_eq!(sent(action), STANDARD.encode(&a.1));
    flow.step(EnrollEvent::Replied(Err(refusal(400, "Invalid public key"))));
    assert_eq!(sent(flow.resend(Ok(b.clone()))), STANDARD.encode(&b.1));
    match flow.step(EnrollEvent::Replied(Ok(account(1, None)))) {
        EnrollAction::Save(cfg) => assert_eq!(cfg.private_key, STANDARD.encode(&b.0)),
        _ => panic!("expected a configuration"),
    }
    let failed = EnrollFlow::start_with(config(), &name, Err(KeyError::NotBase64));
    assert_eq!(failed.err(), Some(KeyError::NotBase64));
    let (mut flow, _) = EnrollFlow::start_with(config(), &name, Ok(a)).ok().unwrap();
    match flow.resend(Err(KeyError::MarshalPrivate)) {
        EnrollAction::Fail(text) => assert_eq!(text, "failed to marshal private key"),
        _ => panic!("expected a failure"),
    }
}

#[test]
fn registration_with_given_keys() {
    let (private, public) = generate_ec_keypair().ok().unwrap();
    let (mut flow, _) = RegisterFlow::start(RegisterOptions::auto_register_defaults());
    match flow.enroll_with(&account(1, Some("token")), Ok((private.clone(), public.clone()))) {
        RegisterAction::Enroll(request, update) => {
            assert_eq!(request.headers[4].1, "Bearer token");
            assert_eq!(update.key, STANDARD.encode(&public));
            assert_eq!(update.name, "");
        }
        _ => panic!("expected a request"),
    }
    match flow.step(RegisterEvent::Enrolled(Ok(account(1, None)))) {
        RegisterAction::Save(cfg) => {
            assert_eq!(cfg.private_key, STANDARD.encode(&private));
            assert_eq!(cfg.access_token, "token");
        }
        _ => panic!("expected a configuration"),
    }
    let (mut flow, _) = RegisterFlow::start(RegisterOptions::auto_register_defaults());
    match flow.enroll_with(&account(1, None), Err(KeyError::MarshalPublic)) {
        RegisterAction::Fail(text) => assert_eq!(text, "failed to marshal public key"),
        _ => panic!("expected a failure"),
    }
}

#[test]
fn refused_key_is_replaced_once() {
    let (mut flow, first) = start(phone(false), config());
    let refused = || EnrollEvent::Replied(Err(refusal(400, "Invalid public key")));
    assert!(matches!(flow.step(refused()), EnrollAction::Ask));
    let second = match flow.step(EnrollEvent::Answered("y\n".to_string())) {
        EnrollAction::Send(_, update) => update.key,
        _ => panic!("expected a request"),
    };
    assert_ne!(first, second);
    match flow.step(refused()) {
        EnrollAction::Fail(text) => {
            assert_eq!(text, "API error 400 Bad Request: Invalid public key")
        }
        _ => panic!("expected a failure"),
    }
}

#[test]
fn replaced_key_is_saved() {
    let (mut flow, _) = start(phone(false), config());
    flow.step(EnrollEvent::Replied(Err(refusal(400, "Invalid public key"))));
    let sent = match flow.step(EnrollEvent::Answered("y".to_string())) {
        EnrollAction::Send(_, update) => update.key,
        _ => panic!("expected a request"),
    };
    match flow.step(EnrollEvent::Replied(Ok(account(1, None)))) {
        EnrollAction::Save(cfg) => assert_eq!(public_of(&cfg.private_key), sent),
        _ => panic!("expected a configuration"),
    }
}

#[test]
fn enrollment_failures() {
    let fail = |events: Vec<EnrollEvent>| {
        let (mut flow, _) = start(phone(false), config());
        let mut text = String::new();
        for event in events {
            if let EnrollAction::Fail(reason) = flow.step(event) {
                text = reason;
            }
        }
        text
    };
    assert_eq!(
        fail(vec![
            EnrollEvent::Replied(Err(refusal(400, "Invalid public key"))),
            EnrollEvent::Answered("n".to_string()),
        ]),
        "enrollment aborted"
    );
    assert_eq!(
        fail(vec![EnrollEvent::Replied(Err(refusal(401, "no")))]),
        "API error 401 Unauthorized: no"
    );
    assert_eq!(
        fail(vec![EnrollEvent::Replied(Ok(account(0, None)))]),
        "missing peer in enroll response"
    );
    let mut existing = config();
    existing.private_key = "QQ==".to_string();
    assert_eq!(
        EnrollFlow::start(existing, &phone(false)).err().unwrap().message(),
        "failed to parse private key"
    );
}

#[test]
fn registration_from_start_to_end() {
    let mut options = RegisterOptions::auto_register_defaults();
    options.name = Some("box".to_string());
    let (mut flow, action) = RegisterFlow::start(options);
    match action {
        RegisterAction::Register(request, body) => {
            assert_eq!(request.url, "https://api.cloudflareclient.com/v0a4471/reg");
            assert_eq!(body.model, "PC");
        }
        _ => panic!("expected a request"),
    }
    let sent = match flow.step(RegisterEvent::Registered(Ok(account(0, Some("secret token"))))) {
        RegisterAction::Enroll(request, update) => {
            assert_eq!(request.url, "https://api.cloudflareclient.com/v0a4471/reg/new id");
            assert_eq!(request.headers[4].1, "Bearer secret token");
            assert_eq!(update.name, "box");
            update.key
        }
        _ => panic!("expected a request"),
    };
    match flow.step(RegisterEvent::Enrolled(Ok(account(1, None)))) {
        RegisterAction::Save(cfg) => {
            assert_eq!(cfg.access_token, "secret token");
            assert_eq!(public_of(&cfg.private_key), sent);
        }
        _ => panic!("expected a configuration"),
    }
}

#[test]
fn terms_have_to_be_accepted() {
    let mut options = RegisterOptions::auto_register_defaults();
    options.accept_tos = false;
    options.jwt = Some("jwt".to_string());
    let (mut flow, action) = RegisterFlow::start(options.clone());
    assert!(matches!(action, RegisterAction::Ask));
    match flow.step(RegisterEvent::Answered("no".to_string())) {
        RegisterAction::Fail(text) => assert_eq!(text, "user did not accept TOS"),
        _ => panic!("expected a failure"),
    }
    let (mut flow, _) = RegisterFlow::start(options);
    match flow.step(RegisterEvent::Answered(" y ".to_string())) {
        RegisterAction::Register(request, _) => assert_eq!(request.headers[4].1, "jwt"),
        _ => panic!("expected a request"),
    }
}

#[test]
fn registration_failures() {
    let started = || RegisterFlow::start(RegisterOptions::auto_register_defaults()).0;
    match started().step(RegisterEvent::Registered(Err("down".to_string()))) {
        RegisterAction::Fail(text) => assert_eq!(text, "down"),
        _ => panic!("expected a failure"),
    }
    let mut flow = started();
    match flow.step(RegisterEvent::Registered(Ok(account(1, None)))) {
        RegisterAction::Enroll(request, update) => {
            assert_eq!(request.headers[4].1, "Bearer ");
            assert_eq!(update.name, "");
        }
        _ => panic!("expected a request"),
    }
    match flow.step(RegisterEvent::Enrolled(Err(refusal(500, "x")))) {
        RegisterAction::Fail(text) => {
            assert_eq!(text, "API error 500 Internal Server Error: x")
        }
        _ => panic!("expected a failure"),
    }
    let mut flow = started();
    flow.step(RegisterEvent::Registered(Ok(account(1, None))));
    match flow.step(RegisterEvent::Enrolled(Ok(account(0, None)))) {
        RegisterAction::Fail(text) => assert_eq!(text, "missing peer in registration response"),
        _ => panic!("expected a failure"),
    }
}

#[test]
fn automatic_registration_leaves_files_alone() {
    assert!(should_auto_register(false));
    assert!(!should_auto_register(true));
}

#[test]
fn configurations_are_not_overwritten_unasked() {
    assert!(may_overwrite(false, ""));
    assert!(may_overwrite(true, "y\n"));
    assert!(!may_overwrite(true, "n"));
}
