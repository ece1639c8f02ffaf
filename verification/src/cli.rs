//! The commands of the program: their arguments, and what follows from them.

use vstd::prelude::*;
use vstd::string::*;

use crate::api::{CONNECT_URI, DEFAULT_LOCALE, DEFAULT_MODEL};
use crate::config::{
    endpoint_text, ipv4_only, kind_for, quoted_text, select_endpoint, Config, EndpointError,
};
use crate::codec::{base64_text, law_base64_length};
use crate::crypto::{
    base64_bytes, certificate_error, certificate_is_for, client_valid_from, client_valid_to,
    decode_endpoint_public_key, decode_private_key, generate_self_signed_cert, key_in_block,
    law_base64_roundtrip, law_own_certificate_is_accepted, law_private_key_roundtrip,
    lemma_base64_has_no_space, pem_block, pem_text, pinned_verdict, pkcs8_key,
    prepare_quiche_client_credentials, private_key_in, public_key_of, ClientPem, KeyError,
    PublicKey,
};
use crate::dns::DnsResolver;
use crate::handshake::ConnectOptions;
use crate::hooks::{lookup, HookEnv};
use crate::ip::{
    group_at, host_port_addr, ip_value, parse_ip, socket_value, IpAddr, SocketAddr,
};
use crate::supervisor::MaintainTunnelConfig;
use crate::text::{
    decimal_text, is_space, law_trimming_takes_off_white_space, opt_text, trim_text,
};
use crate::tun::NativeTunConfig;

verus! {

/// The program's arguments.
pub struct Cli {
    /// The path of the configuration file.
    pub config: String,
    pub command: Commands,
}

/// The program's commands.
pub enum Commands {
    /// Register a new client and enroll a device key.
    Register(RegisterArgs),
    /// Enroll a MASQUE private key.
    Enroll(EnrollArgs),
    /// Expose Warp as a SOCKS5 proxy.
    Socks(SocksArgs),
    /// Expose Warp as an HTTP proxy with CONNECT support.
    HttpProxy(HttpProxyArgs),
    /// Forward ports through a MASQUE tunnel.
    PortFw(PortFwArgs),
    /// Expose Warp as a native TUN device.
    NativeTun(NativeTunArgs),
}

#[derive(Debug, Clone)]
pub struct RegisterArgs {
    pub locale: String,
    pub model: String,
    pub name: Option<String>,
    pub jwt: Option<String>,
    pub accept_tos: bool,
}

#[derive(Debug, Clone)]
pub struct RegisterOptions {
    pub locale: String,
    pub model: String,
    pub name: Option<String>,
    pub jwt: Option<String>,
    pub accept_tos: bool,
}

impl From<RegisterArgs> for RegisterOptions {
    fn from(args: RegisterArgs) -> (r: Self) {
        RegisterOptions {
            locale: args.locale,
            model: args.model,
            name: args.name,
            jwt: args.jwt,
            accept_tos: args.accept_tos,
        }
    }
}

impl vstd::std_specs::convert::FromSpecImpl<RegisterArgs> for RegisterOptions {
    open spec fn obeys_from_spec() -> bool {
        true
    }

    open spec fn from_spec(args: RegisterArgs) -> Self {
        RegisterOptions {
            locale: args.locale,
            model: args.model,
            name: args.name,
            jwt: args.jwt,
            accept_tos: args.accept_tos,
        }
    }
}

impl RegisterOptions {
    /// Defaults for registering without questions: the terms of service are
    /// accepted, and there is no token.
    pub fn auto_register_defaults() -> (r: Self)
        ensures
            r.locale@ == DEFAULT_LOCALE@,
            r.model@ == DEFAULT_MODEL@,
            r.name is None,
            r.jwt is None,
            r.accept_tos,
    {
        RegisterOptions {
            locale: DEFAULT_LOCALE.to_owned(),
            model: DEFAULT_MODEL.to_owned(),
            name: None,
            jwt: None,
            accept_tos: true,
        }
    }
}

#[derive(Debug, Clone)]
pub struct EnrollArgs {
    pub name: Option<String>,
    pub regen_key: bool,
}

/// The arguments of every command that uses a tunnel. Times are in
/// milliseconds.
#[derive(Debug, Clone)]
pub struct TunnelFlags {
    pub connect_port: u16,
    pub ipv6: bool,
    pub no_tunnel_ipv4: bool,
    pub no_tunnel_ipv6: bool,
    pub sni_address: String,
    pub keepalive_period: u64,
    pub mtu: usize,
    pub initial_packet_size: u16,
    pub reconnect_delay: u64,
    pub always_reconnect: bool,
    pub http2: bool,
    pub insecure: bool,
    pub on_connect: String,
    pub on_disconnect: String,
}

#[derive(Debug, Clone)]
pub struct SocksArgs {
    pub tunnel: TunnelFlags,
    pub auto_register: bool,
    pub bind: String,
    pub port: u16,
    pub username: Option<String>,
    pub password: Option<String>,
    pub dns: Vec<String>,
    pub dns_timeout: u64,
    pub local_dns: bool,
    pub system_dns: bool,
    pub udp_timeout: u64,
}

#[derive(Debug, Clone)]
pub struct HttpProxyArgs {
    pub tunnel: TunnelFlags,
    pub bind: String,
    pub port: u16,
    pub username: Option<String>,
    pub password: Option<String>,
    pub dns: Vec<String>,
    pub dns_timeout: u64,
    pub local_dns: bool,
    pub system_dns: bool,
}

#[derive(Debug, Clone)]
pub struct PortFwArgs {
    pub tunnel: TunnelFlags,
    pub local_ports: Vec<String>,
    pub remote_ports: Vec<String>,
    pub dont_always_reconnect: bool,
}

#[derive(Debug, Clone)]
pub struct NativeTunArgs {
    pub tunnel: TunnelFlags,
    pub no_iproute2: bool,
    pub interface_name: String,
    pub persist: bool,
}

/// The addresses inside the tunnel, for the families that are wanted. Those
/// have to be addresses.
pub fn tunnel_addresses(cfg: &Config, flags: &TunnelFlags) -> (r: (Option<IpAddr>, Option<IpAddr>))
    requires
        flags.no_tunnel_ipv4 || ip_value(cfg.ipv4@) is Some,
        flags.no_tunnel_ipv6 || ip_value(cfg.ipv6@) is Some,
    ensures
        r.0 == (if flags.no_tunnel_ipv4 {
            None
        } else {
            ip_value(cfg.ipv4@)
        }),
        r.1 == (if flags.no_tunnel_ipv6 {
            None
        } else {
            ip_value(cfg.ipv6@)
        }),
{
    let v4 = if flags.no_tunnel_ipv4 {
        None
    } else {
        parse_ip(cfg.ipv4.as_str())
    };
    let v6 = if flags.no_tunnel_ipv6 {
        None
    } else {
        parse_ip(cfg.ipv6.as_str())
    };
    (v4, v6)
}

/// The servers that are asked where none are given: 9.9.9.9, 149.112.112.112,
/// 2620:fe::fe and 2620:fe::9.
pub open spec fn default_servers() -> Seq<IpAddr> {
    seq![
        IpAddr::V4(0x0909_0909),
        IpAddr::V4(0x9570_7070),
        IpAddr::V6(0x2620_00fe_0000_0000_0000_0000_0000_00fe),
        IpAddr::V6(0x2620_00fe_0000_0000_0000_0000_0000_0009),
    ]
}

/// The servers to ask: those given, which have to be addresses, or the
/// default ones.
pub fn dns_servers(dns: &Vec<String>) -> (r: Vec<IpAddr>)
    requires
        forall|i: int| 0 <= i < dns@.len() ==> ip_value((#[trigger] dns@[i])@) is Some,
    ensures
        dns@.len() == 0 ==> r@ == default_servers(),
        dns@.len() > 0 ==> r@.len() == dns@.len() && forall|i: int|
            0 <= i < r@.len() ==> ip_value((#[trigger] dns@[i])@) == Some(r@[i]),
{
    let mut out: Vec<IpAddr> = Vec::new();
    if dns.len() == 0 {
        out.push(IpAddr::V4(0x0909_0909));
        out.push(IpAddr::V4(0x9570_7070));
        out.push(IpAddr::V6(0x2620_00fe_0000_0000_0000_0000_0000_00fe));
        out.push(IpAddr::V6(0x2620_00fe_0000_0000_0000_0000_0000_0009));
        assert(out@ =~= default_servers());
        return out;
    }
    let mut i: usize = 0;
    while i < dns.len()
        invariant
            i <= dns@.len(),
            out@.len() == i,
            forall|j: int| 0 <= j < dns@.len() ==> ip_value((#[trigger] dns@[j])@) is Some,
            forall|j: int| 0 <= j < i ==> ip_value((#[trigger] dns@[j])@) == Some(out@[j]),
        decreases dns@.len() - i,
    {
        assert(ip_value(dns@[i as int]@) is Some);
        if let Some(ip) = parse_ip(dns[i].as_str()) {
            out.push(ip);
        }
        i = i + 1;
    }
    out
}

/// The resolver that the arguments of a proxy ask for. The operating system
/// is asked only outside of the tunnel.
pub fn resolver_for(dns: &Vec<String>, timeout: u64, local_dns: bool, system_dns: bool) -> (r:
    DnsResolver)
    requires
        forall|i: int| 0 <= i < dns@.len() ==> ip_value((#[trigger] dns@[i])@) is Some,
    ensures
        dns@.len() == 0 ==> r.servers@ == default_servers(),
        dns@.len() > 0 ==> r.servers@.len() == dns@.len() && forall|i: int|
            0 <= i < dns@.len() ==> ip_value((#[trigger] dns@[i])@) == Some(r.servers@[i]),
        r.timeout == timeout,
        r.use_os_resolver == (local_dns && system_dns),
        r.local_dns == local_dns,
        r.has_stack == !local_dns,
{
    DnsResolver {
        servers: dns_servers(dns),
        timeout,
        use_os_resolver: local_dns && system_dns,
        local_dns,
        has_stack: !local_dns,
    }
}

/// The address that a proxy listens on, if its arguments make one.
pub fn proxy_bind(bind: &str, port: u16) -> (r: Option<SocketAddr>)
    ensures
        r == socket_value(bind@ + ":"@ + decimal_text(port as nat)),
{
    host_port_addr(bind, port)
}

/// The variables that the hooks of a command get.
pub fn hook_env(mode: &str, iface: Option<&str>, ipv4: &str, ipv6: &str) -> (r: HookEnv)
    ensures
        r.wf(),
        forall|name: Seq<char>| #[trigger]
            lookup(r.pairs(), name) == (if name == "USQUE_MODE"@ {
                Some(mode@)
            } else if name == "USQUE_IPV4"@ {
                Some(ipv4@)
            } else if name == "USQUE_IPV6"@ {
                Some(ipv6@)
            } else if name == "USQUE_IFACE"@ {
                match iface {
                    Some(iface) => Some(iface@),
                    None => None,
                }
            } else {
                None
            }),
{
    proof {
        reveal_strlit("USQUE_MODE");
        reveal_strlit("USQUE_IPV4");
        reveal_strlit("USQUE_IPV6");
        reveal_strlit("USQUE_IFACE");
        assert("USQUE_MODE"@[6] != "USQUE_IPV4"@[6]);
        assert("USQUE_MODE"@[6] != "USQUE_IPV6"@[6]);
        assert("USQUE_MODE"@[6] != "USQUE_IFACE"@[6]);
        assert("USQUE_IPV4"@[9] != "USQUE_IPV6"@[9]);
        assert("USQUE_IPV4"@[7] != "USQUE_IFACE"@[7]);
        assert("USQUE_IPV6"@[7] != "USQUE_IFACE"@[7]);
    }
    let env = HookEnv::default().with("USQUE_MODE", mode).with("USQUE_IPV4", ipv4).with(
        "USQUE_IPV6",
        ipv6,
    );
    match iface {
        Some(iface) => env.with("USQUE_IFACE", iface),
        None => env,
    }
}

/// What the supervisor of a command's tunnel maintains.
pub fn maintain_config(
    endpoint: SocketAddr,
    flags: &TunnelFlags,
    hook_env: HookEnv,
) -> (r: MaintainTunnelConfig)
    ensures
        r.endpoint == endpoint,
        r.mtu == flags.mtu,
        r.reconnect_delay == flags.reconnect_delay,
        r.always_reconnect == flags.always_reconnect,
        r.on_connect@ == flags.on_connect@,
        r.on_disconnect@ == flags.on_disconnect@,
        r.hook_env == hook_env,
{
    MaintainTunnelConfig {
        endpoint,
        mtu: flags.mtu,
        reconnect_delay: flags.reconnect_delay,
        always_reconnect: flags.always_reconnect,
        on_connect: flags.on_connect.clone(),
        on_disconnect: flags.on_disconnect.clone(),
        hook_env,
    }
}

/// Whether the tunnel of port forwards reconnects always.
pub fn portfw_reconnects(args: &PortFwArgs) -> (r: bool)
    ensures
        r == !args.dont_always_reconnect,
{
    !args.dont_always_reconnect
}

/// The TUN device that the arguments ask for. An address that the tunnel does
/// not use is not set.
pub fn native_tun_config(args: &NativeTunArgs, config: &Config) -> (r: NativeTunConfig)
    ensures
        r.name@ == args.interface_name@,
        r.mtu == args.tunnel.mtu,
        opt_text(r.ipv4) == (if args.tunnel.no_tunnel_ipv4 {
            None
        } else {
            Some(config.ipv4@)
        }),
        opt_text(r.ipv6) == (if args.tunnel.no_tunnel_ipv6 {
            None
        } else {
            Some(config.ipv6@)
        }),
        r.configure_link == !args.no_iproute2,
        r.persist == args.persist,
{
    NativeTunConfig {
        name: args.interface_name.clone(),
        mtu: args.tunnel.mtu,
        ipv4: if args.tunnel.no_tunnel_ipv4 {
            None
        } else {
            Some(config.ipv4.clone())
        },
        ipv6: if args.tunnel.no_tunnel_ipv6 {
            None
        } else {
            Some(config.ipv6.clone())
        },
        configure_link: !args.no_iproute2,
        persist: args.persist,
    }
}

/// The protocol that the TLS handshake of a tunnel asks for.
pub fn alpn_for(http2: bool) -> (r: &'static str)
    ensures
        r@ == (if http2 {
            "h2"@
        } else {
            "h3"@
        }),
{
    if http2 {
        "h2"
    } else {
        "h3"
    }
}

/// Why a tunnel cannot be set up.
pub enum SetupError {
    Key(KeyError),
    Endpoint(EndpointError),
}

impl SetupError {
    /// Writes the error as a message.
    pub fn message(&self) -> (out: String)
        ensures
            out@ == (match *self {
                SetupError::Key(err) => err.text(),
                SetupError::Endpoint(err) => err.text(),
            }),
    {
        match self {
            SetupError::Key(err) => err.message().to_owned(),
            SetupError::Endpoint(err) => err.message(),
        }
    }
}

/// All it takes to connect: where and how, the key that the server has to
/// have, and the client's certificate and key, for HTTP/2 as documents and
/// for HTTP/3 as PEM texts.
pub struct ConnectSetup {
    pub options: ConnectOptions,
    pub peer_key: PublicKey,
    pub alpn: &'static str,
    pub cert: Vec<u8>,
    pub key: Vec<u8>,
    pub pem: ClientPem,
}

/// The private key in a configuration.
pub open spec fn configured_key(config: Config) -> Result<Seq<u8>, KeyError> {
    match base64_bytes(trim_text(config.private_key@)) {
        Some(der) => match private_key_in(der) {
            Some(key) => Ok(key),
            None => Err(KeyError::NotPrivateKey),
        },
        None => Err(KeyError::NotBase64),
    }
}

/// The public key of the endpoint in a configuration.
pub open spec fn configured_peer(config: Config) -> Result<Seq<u8>, KeyError> {
    match pem_block(config.endpoint_pub_key@) {
        Some((tag, contents)) => key_in_block(tag, contents),
        None => Err(KeyError::NotPem),
    }
}

/// Whether options are those that a configuration and flags ask for.
pub open spec fn options_for(options: ConnectOptions, flags: TunnelFlags) -> bool {
    &&& options.sni@ == flags.sni_address@
    &&& options.use_http2 == flags.http2
    &&& options.insecure == flags.insecure
    &&& options.keepalive_period == flags.keepalive_period
    &&& options.initial_packet_size == flags.initial_packet_size
    &&& options.connect_uri@ == CONNECT_URI@
}

/// Puts together what it takes to connect, with the keys and certificates that
/// have been read and made.
pub fn connect_setup(
    config: &Config,
    flags: &TunnelFlags,
    peer_key: PublicKey,
    cert: Vec<u8>,
    key: Vec<u8>,
    pem: ClientPem,
) -> (r: Result<ConnectSetup, EndpointError>)
    ensures
        ({
            let kind = kind_for(flags.http2, flags.ipv6);
            let text = endpoint_text(*config, kind);
            match r {
                Ok(setup) => {
                    &&& options_for(setup.options, *flags)
                    &&& ip_value(text) matches Some(ip) && (ipv4_only(kind) ==> ip is V4)
                        && setup.options.endpoint == (SocketAddr {
                        ip,
                        port: flags.connect_port,
                        scope: 0,
                    })
                    &&& setup.peer_key == peer_key
                    &&& setup.alpn@ == (if flags.http2 {
                        "h2"@
                    } else {
                        "h3"@
                    })
                    &&& setup.cert == cert
                    &&& setup.key == key
                    &&& setup.pem == pem
                },
                Err(EndpointError::MissingH2V6) => flags.http2 && flags.ipv6 && text.len() == 0,
                Err(EndpointError::Invalid(k, quoted)) => k == kind && ip_value(text) is None
                    && quoted@ == quoted_text(text) && !(flags.http2 && flags.ipv6 && text.len()
                    == 0),
                Err(EndpointError::NotIpv4(k)) => k == kind && ipv4_only(kind) && (ip_value(
                    text,
                ) matches Some(ip) && ip is V6),
            }
        }),
{
    let endpoint = match select_endpoint(config, flags.http2, flags.ipv6, flags.connect_port) {
        Ok(endpoint) => endpoint,
        Err(err) => {
            return Err(err);
        },
    };
    Ok(
        ConnectSetup {
            options: ConnectOptions {
                endpoint,
                sni: flags.sni_address.clone(),
                use_http2: flags.http2,
                insecure: flags.insecure,
                keepalive_period: flags.keepalive_period,
                initial_packet_size: flags.initial_packet_size,
                connect_uri: CONNECT_URI.to_owned(),
            },
            peer_key,
            alpn: alpn_for(flags.http2),
            cert,
            key,
            pem,
        },
    )
}

/// Whether a result is what comes of putting together what it takes to connect.
/// The keys are read first; then certificates are made; the endpoint comes last.
pub open spec fn setup_result(
    config: Config,
    flags: TunnelFlags,
    r: Result<ConnectSetup, SetupError>,
) -> bool {
    match configured_key(config) {
        Err(err) => r matches Err(SetupError::Key(e)) && e == err,
        Ok(key) => match configured_peer(config) {
            Err(err) => r matches Err(SetupError::Key(e)) && e == err,
            Ok(peer) => match r {
                Ok(setup) => {
                    let kind = kind_for(flags.http2, flags.ipv6);
                    let text = endpoint_text(config, kind);
                    &&& options_for(setup.options, flags)
                    &&& ip_value(text) matches Some(ip) && (ipv4_only(kind) ==> ip is V4)
                        && setup.options.endpoint == (SocketAddr {
                        ip,
                        port: flags.connect_port,
                        scope: 0,
                    })
                    &&& setup.peer_key.wf()
                    &&& setup.peer_key.der() == peer
                    &&& setup.alpn@ == (if flags.http2 {
                        "h2"@
                    } else {
                        "h3"@
                    })
                    &&& setup.key@ == key
                    &&& certificate_is_for(
                        setup.cert@,
                        key,
                        client_valid_from(),
                        client_valid_to(),
                    )
                    &&& setup.pem.key_pem@ == pem_text("PRIVATE KEY"@, key)
                    &&& exists|cert: Seq<u8>| #[trigger]
                        pem_text("CERTIFICATE"@, cert) == setup.pem.cert_pem@
                            && certificate_is_for(
                            cert,
                            key,
                            client_valid_from(),
                            client_valid_to(),
                        )
                },
                Err(SetupError::Key(e)) => certificate_error(e),
                Err(SetupError::Endpoint(EndpointError::MissingH2V6)) => flags.http2
                    && flags.ipv6 && config.endpoint_h2_v6@.len() == 0,
                Err(SetupError::Endpoint(EndpointError::Invalid(k, quoted))) => {
                    let text = endpoint_text(config, k);
                    k == kind_for(flags.http2, flags.ipv6) && ip_value(text) is None
                        && quoted@ == quoted_text(text) && !(flags.http2 && flags.ipv6
                        && text.len() == 0)
                },
                Err(SetupError::Endpoint(EndpointError::NotIpv4(k))) => k == kind_for(
                    flags.http2,
                    flags.ipv6,
                ) && ipv4_only(k) && (ip_value(endpoint_text(config, k)) matches Some(ip)
                    && ip is V6),
            },
        },
    }
}

/// Puts together what it takes to connect.
pub fn build_connect_options(config: &Config, flags: &TunnelFlags) -> (r: Result<
    ConnectSetup,
    SetupError,
>)
    ensures
        setup_result(*config, *flags, r),
{
    let signing_key = match decode_private_key(config.private_key.as_str()) {
        Ok(key) => key,
        Err(err) => {
            return Err(SetupError::Key(err));
        },
    };
    let peer_key = match decode_endpoint_public_key(config.endpoint_pub_key.as_str()) {
        Ok(key) => key,
        Err(err) => {
            return Err(SetupError::Key(err));
        },
    };
    let (cert, key) = match generate_self_signed_cert(&signing_key) {
        Ok(pair) => pair,
        Err(err) => {
            return Err(SetupError::Key(err));
        },
    };
    let pem = match prepare_quiche_client_credentials(&signing_key) {
        Ok(pem) => pem,
        Err(err) => {
            return Err(SetupError::Key(err));
        },
    };
    match connect_setup(config, flags, peer_key, cert, key, pem) {
        Ok(setup) => Ok(setup),
        Err(err) => Err(SetupError::Endpoint(err)),
    }
}

/// Puts together what it takes to connect for a native TUN device.
pub fn build_native_connect(config: &Config, flags: &TunnelFlags) -> (r: Result<
    ConnectSetup,
    SetupError,
>)
    ensures
        setup_result(*config, *flags, r),
{
    build_connect_options(config, flags)
}

/// What a command connects with is what its flags and its configuration say:
/// the address in the field for the transport and the family, the port, the
/// host name and all other settings of the flags, the keys of the
/// configuration, and a certificate for the client's own key.
pub proof fn law_setup_follows_flags_and_configuration(
    config: Config,
    flags: TunnelFlags,
    setup: ConnectSetup,
)
    requires
        setup_result(config, flags, Ok(setup)),
    ensures
        setup.options.endpoint.port == flags.connect_port,
        setup.options.endpoint.scope == 0,
        !flags.ipv6 ==> setup.options.endpoint.ip is V4,
        !flags.http2 && !flags.ipv6 ==> ip_value(config.endpoint_v4@) == Some(
            setup.options.endpoint.ip,
        ),
        !flags.http2 && flags.ipv6 ==> ip_value(config.endpoint_v6@) == Some(
            setup.options.endpoint.ip,
        ),
        flags.http2 && flags.ipv6 ==> ip_value(config.endpoint_h2_v6@) == Some(
            setup.options.endpoint.ip,
        ),
        flags.http2 && !flags.ipv6 && config.endpoint_h2_v4@.len() > 0 ==> ip_value(
            config.endpoint_h2_v4@,
        ) == Some(setup.options.endpoint.ip),
        flags.http2 && !flags.ipv6 && config.endpoint_h2_v4@.len() == 0 ==> ip_value(
            "162.159.198.2"@,
        ) == Some(setup.options.endpoint.ip),
        setup.options.sni@ == flags.sni_address@,
        setup.options.use_http2 == flags.http2,
        setup.options.insecure == flags.insecure,
        setup.options.keepalive_period == flags.keepalive_period,
        setup.options.initial_packet_size == flags.initial_packet_size,
        setup.options.connect_uri@ == "https://cloudflareaccess.com"@,
        setup.alpn@ == (if flags.http2 {
            "h2"@
        } else {
            "h3"@
        }),
        configured_key(config) == Ok::<Seq<u8>, KeyError>(setup.key@),
        configured_peer(config) == Ok::<Seq<u8>, KeyError>(setup.peer_key.der()),
        public_key_of(setup.key@) matches Some(own) && pinned_verdict(setup.cert@, own) is None,
        setup.pem.key_pem@ == pem_text("PRIVATE KEY"@, setup.key@),
{
    law_own_certificate_is_accepted(
        setup.cert@,
        setup.key@,
        client_valid_from(),
        client_valid_to(),
    );
}

/// The private key of a configuration is the one that its text was written
/// from, with or without white space around it.
pub proof fn law_configured_key_is_the_written_one(
    config: Config,
    front: Seq<char>,
    key: Seq<u8>,
    back: Seq<char>,
)
    requires
        pkcs8_key(key) == Some(key),
        key.len() > 0,
        forall|i: int| 0 <= i < front.len() ==> is_space(#[trigger] front[i]),
        forall|i: int| 0 <= i < back.len() ==> is_space(#[trigger] back[i]),
        config.private_key@ == front + base64_text(key) + back,
    ensures
        configured_key(config) == Ok::<Seq<u8>, KeyError>(key),
{
    let s = base64_text(key);
    law_private_key_roundtrip(key);
    law_base64_length(key);
    lemma_base64_has_no_space(key);
    law_trimming_takes_off_white_space(front, s, back);
    law_base64_roundtrip(key);
}

/// Without servers in the arguments four are asked, two of IPv4 and then two of
/// IPv6: 9.9.9.9, 149.112.112.112, 2620:fe::fe and 2620:fe::9.
pub proof fn law_default_servers()
    ensures
        default_servers().len() == 4,
        default_servers()[0] matches IpAddr::V4(v) && v == 9 * 0x100_0000 + 9 * 0x1_0000 + 9 * 0x100
            + 9,
        default_servers()[1] matches IpAddr::V4(v) && v == 149 * 0x100_0000 + 112 * 0x1_0000 + 112
            * 0x100 + 112,
        default_servers()[2] matches IpAddr::V6(v) && group_at(v, 0) == 0x2620 && group_at(v, 1)
            == 0xfe && v % 0x1_0000_0000_0000_0000_0000_0000 == 0xfe,
        default_servers()[3] matches IpAddr::V6(v) && group_at(v, 0) == 0x2620 && group_at(v, 1)
            == 0xfe && v % 0x1_0000_0000_0000_0000_0000_0000 == 9,
{
}

/// The options of a registration are the arguments of the command, each in its
/// place.
pub proof fn law_register_arguments_are_kept(args: RegisterArgs)
    ensures
        ({
            let options =
                <RegisterOptions as vstd::std_specs::convert::FromSpec<RegisterArgs>>::from_spec(
                args,
            );
            &&& options.locale == args.locale
            &&& options.model == args.model
            &&& options.name == args.name
            &&& options.jwt == args.jwt
            &&& options.accept_tos == args.accept_tos
        }),
{
}

/// A client connects with the keys that its configuration holds, and the
/// private key is looked at first. With both keys and an address for the
/// transport and the family, only a certificate can be wanting.
pub proof fn law_setup_needs_keys_and_an_endpoint(
    config: Config,
    flags: TunnelFlags,
    r: Result<ConnectSetup, SetupError>,
)
    requires
        setup_result(config, flags, r),
    ensures
        configured_key(config) matches Err(e) ==> r == Err::<ConnectSetup, SetupError>(
            SetupError::Key(e),
        ),
        configured_key(config) is Ok ==> (configured_peer(config) matches Err(e) ==> r == Err::<
            ConnectSetup,
            SetupError,
        >(SetupError::Key(e))),
        configured_key(config) is Ok && configured_peer(config) is Ok ==> {
            let field = if flags.http2 && flags.ipv6 {
                config.endpoint_h2_v6@
            } else if flags.http2 && config.endpoint_h2_v4@.len() == 0 {
                "162.159.198.2"@
            } else if flags.http2 {
                config.endpoint_h2_v4@
            } else if flags.ipv6 {
                config.endpoint_v6@
            } else {
                config.endpoint_v4@
            };
            &&& r matches Err(SetupError::Key(e)) ==> e == KeyError::NoKeyPair || e
                == KeyError::NoCertificate
            &&& r is Ok ==> ip_value(field) is Some
            &&& field.len() > 0 && ip_value(field) is Some && (flags.ipv6 || ip_value(
                field,
            ).unwrap() is V4) ==> !(r matches Err(SetupError::Endpoint(_)))
            &&& flags.http2 && flags.ipv6 && field.len() == 0 ==> !(r matches Err(
                SetupError::Endpoint(EndpointError::Invalid(_, _)),
            ))
        },
        r matches Ok(setup) ==> exists|cert: Seq<u8>| #[trigger]
            pem_text("CERTIFICATE"@, cert) == setup.pem.cert_pem@ && (public_key_of(
                setup.key@,
            ) matches Some(own) && pinned_verdict(cert, own) is None),
{
    if let Ok(setup) = r {
        let cert = choose|cert: Seq<u8>| #[trigger]
            pem_text("CERTIFICATE"@, cert) == setup.pem.cert_pem@ && certificate_is_for(
                cert,
                setup.key@,
                client_valid_from(),
                client_valid_to(),
            );
        assert(pem_text("CERTIFICATE"@, cert) == setup.pem.cert_pem@);
        law_own_certificate_is_accepted(cert, setup.key@, client_valid_from(), client_valid_to());
    }
}

} // verus!
