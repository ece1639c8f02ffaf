//! The native TUN device: its configuration, and how its link is set up.

use vstd::prelude::*;
use vstd::string::*;

use crate::ip::{ip_text, ip_value, law_address_reads_back, parse_ip, IpAddr};
use crate::text::{decimal, decimal_text, opt_text, texts};

verus! {

/// How a TUN device is set up.
#[derive(Debug, Clone)]
pub struct NativeTunConfig {
    /// Its name; left to the system if empty.
    pub name: String,
    pub mtu: usize,
    pub ipv4: Option<String>,
    pub ipv6: Option<String>,
    /// Whether to set addresses and bring the link up.
    pub configure_link: bool,
    /// Whether the device stays when the program ends.
    pub persist: bool,
}

/// The name of the device on systems that need one.
pub fn named_device(config: &NativeTunConfig) -> (out: String)
    ensures
        out@ == (if config.name@.len() == 0 {
            "usque"@
        } else {
            config.name@
        }),
{
    if config.name.as_str().is_empty() {
        "usque".to_owned()
    } else {
        config.name.clone()
    }
}

/// Which address of a device is none.
#[derive(Clone, Copy, Debug, PartialEq, Eq, Structural)]
pub enum LinkError {
    Ipv4,
    Ipv6,
}

/// The IPv4 address in a text, if it is one.
pub open spec fn as_v4(text: Seq<char>) -> Option<IpAddr> {
    match ip_value(text) {
        Some(ip) => if ip is V4 {
            Some(ip)
        } else {
            None
        },
        None => None,
    }
}

/// The IPv6 address in a text, if it is one.
pub open spec fn as_v6(text: Seq<char>) -> Option<IpAddr> {
    match ip_value(text) {
        Some(ip) => if ip is V6 {
            Some(ip)
        } else {
            None
        },
        None => None,
    }
}

/// The addresses to give to a link that texts name.
pub open spec fn link_addresses(v4: Option<Seq<char>>, v6: Option<Seq<char>>) -> Result<
    Seq<(IpAddr, u8)>,
    LinkError,
> {
    if v4 matches Some(text) && as_v4(text) is None {
        Err(LinkError::Ipv4)
    } else if v6 matches Some(text) && as_v6(text) is None {
        Err(LinkError::Ipv6)
    } else {
        Ok(
            (match v4 {
                Some(text) => seq![(as_v4(text).unwrap(), 32u8)],
                None => Seq::empty(),
            }) + (match v6 {
                Some(text) => seq![(as_v6(text).unwrap(), 128u8)],
                None => Seq::empty(),
            }),
        )
    }
}

/// The addresses to give to a link, each alone in its network.
pub fn configure_link(ipv4: &Option<String>, ipv6: &Option<String>) -> (r: Result<
    Vec<(IpAddr, u8)>,
    LinkError,
>)
    ensures
        match r {
            Ok(addresses) => {
                &&& ipv4 matches Some(text) ==> as_v4(text@) is Some
                &&& ipv6 matches Some(text) ==> as_v6(text@) is Some
                &&& addresses@ == (match *ipv4 {
                    Some(text) => seq![(as_v4(text@).unwrap(), 32u8)],
                    None => Seq::empty(),
                }) + (match *ipv6 {
                    Some(text) => seq![(as_v6(text@).unwrap(), 128u8)],
                    None => Seq::empty(),
                })
            },
            Err(LinkError::Ipv4) => ipv4 matches Some(text) && as_v4(text@) is None,
            Err(LinkError::Ipv6) => (ipv4 matches Some(text) ==> as_v4(text@) is Some) && (
            ipv6 matches Some(text) && as_v6(text@) is None),
        },
        match r {
            Ok(addresses) => link_addresses(opt_text(*ipv4), opt_text(*ipv6)) == Ok::<
                Seq<(IpAddr, u8)>,
                LinkError,
            >(addresses@),
            Err(err) => link_addresses(opt_text(*ipv4), opt_text(*ipv6)) == Err::<
                Seq<(IpAddr, u8)>,
                LinkError,
            >(err),
        },
{
    let mut addresses: Vec<(IpAddr, u8)> = Vec::new();
    if let Some(text) = ipv4 {
        match parse_ip(text.as_str()) {
            Some(ip) => {
                if ip.is_ipv6() {
                    return Err(LinkError::Ipv4);
                }
                addresses.push((ip, 32));
            },
            None => {
                return Err(LinkError::Ipv4);
            },
        }
    }
    if let Some(text) = ipv6 {
        match parse_ip(text.as_str()) {
            Some(ip) => {
                if !ip.is_ipv6() {
                    return Err(LinkError::Ipv6);
                }
                addresses.push((ip, 128));
            },
            None => {
                return Err(LinkError::Ipv6);
            },
        }
    }
    assert(addresses@ =~= (match *ipv4 {
        Some(text) => seq![(as_v4(text@).unwrap(), 32u8)],
        None => Seq::empty(),
    }) + (match *ipv6 {
        Some(text) => seq![(as_v6(text@).unwrap(), 128u8)],
        None => Seq::empty(),
    }));
    Ok(addresses)
}

fn push_text(args: &mut Vec<String>, text: &str)
    ensures
        texts(final(args)@) == texts(old(args)@).push(text@),
{
    let ghost before = args@;
    args.push(text.to_owned());
    assert(texts(args@) =~= texts(before).push(text@));
}

/// The arguments of `netsh` that set the IPv4 address of an interface.
pub open spec fn netsh_ipv4_address(iface: Seq<char>, ip: Seq<char>, mask: Seq<char>) -> Seq<
    Seq<char>,
> {
    seq![
        "interface"@,
        "ipv4"@,
        "set"@,
        "address"@,
        "name=\""@ + iface + "\""@,
        "static"@,
        ip,
        mask,
    ]
}

/// The arguments of `netsh` that set the IPv6 address of an interface.
pub open spec fn netsh_ipv6_address(iface: Seq<char>, ip: Seq<char>, prefix: Seq<char>) -> Seq<
    Seq<char>,
> {
    seq![
        "interface"@,
        "ipv6"@,
        "set"@,
        "address"@,
        "interface=\""@ + iface + "\""@,
        ip + "/"@ + prefix,
    ]
}

/// The arguments of `netsh` that set the MTU of an interface for a family.
pub open spec fn netsh_mtu(family: Seq<char>, iface: Seq<char>, mtu: nat) -> Seq<Seq<char>> {
    seq![
        "interface"@,
        family,
        "set"@,
        "subinterface"@,
        "\""@ + iface + "\""@,
        "mtu="@ + decimal_text(mtu),
    ]
}

/// Makes the arguments of `netsh` that set the IPv4 address of an interface.
pub fn set_ipv4_address(iface: &str, ip: &str, mask: &str) -> (args: Vec<String>)
    ensures
        texts(args@) == netsh_ipv4_address(iface@, ip@, mask@),
{
    let mut args: Vec<String> = Vec::new();
    assert(texts(args@) =~= Seq::<Seq<char>>::empty());
    push_text(&mut args, "interface");
    push_text(&mut args, "ipv4");
    push_text(&mut args, "set");
    push_text(&mut args, "address");
    push_text(&mut args, "name=\"".to_owned().concat(iface).concat("\"").as_str());
    push_text(&mut args, "static");
    push_text(&mut args, ip);
    push_text(&mut args, mask);
    assert(texts(args@) =~= netsh_ipv4_address(iface@, ip@, mask@));
    args
}

/// Makes the arguments of `netsh` that set the IPv6 address of an interface.
pub fn set_ipv6_address(iface: &str, ip: &str, prefix: &str) -> (args: Vec<String>)
    ensures
        texts(args@) == netsh_ipv6_address(iface@, ip@, prefix@),
{
    let mut args: Vec<String> = Vec::new();
    assert(texts(args@) =~= Seq::<Seq<char>>::empty());
    push_text(&mut args, "interface");
    push_text(&mut args, "ipv6");
    push_text(&mut args, "set");
    push_text(&mut args, "address");
    push_text(&mut args, "interface=\"".to_owned().concat(iface).concat("\"").as_str());
    push_text(&mut args, ip.to_owned().concat("/").concat(prefix).as_str());
    assert(texts(args@) =~= netsh_ipv6_address(iface@, ip@, prefix@));
    args
}

fn set_mtu(family: &str, iface: &str, mtu: usize) -> (args: Vec<String>)
    ensures
        texts(args@) == netsh_mtu(family@, iface@, mtu as nat),
{
    let mut args: Vec<String> = Vec::new();
    assert(texts(args@) =~= Seq::<Seq<char>>::empty());
    push_text(&mut args, "interface");
    push_text(&mut args, family);
    push_text(&mut args, "set");
    push_text(&mut args, "subinterface");
    push_text(&mut args, "\"".to_owned().concat(iface).concat("\"").as_str());
    push_text(&mut args, "mtu=".to_owned().concat(decimal(mtu as u64).as_str()).as_str());
    assert(texts(args@) =~= netsh_mtu(family@, iface@, mtu as nat));
    args
}

/// Makes the arguments of `netsh` that set the MTU of an interface for IPv4.
pub fn set_ipv4_mtu(iface: &str, mtu: usize) -> (args: Vec<String>)
    ensures
        texts(args@) == netsh_mtu("ipv4"@, iface@, mtu as nat),
{
    set_mtu("ipv4", iface, mtu)
}

/// Makes the arguments of `netsh` that set the MTU of an interface for IPv6.
pub fn set_ipv6_mtu(iface: &str, mtu: usize) -> (args: Vec<String>)
    ensures
        texts(args@) == netsh_mtu("ipv6"@, iface@, mtu as nat),
{
    set_mtu("ipv6", iface, mtu)
}

/// The calls of `netsh` that set up a device, in order: address and MTU for
/// each family that it has an address of.
pub open spec fn netsh_calls(iface: Seq<char>, config: NativeTunConfig) -> Seq<Seq<Seq<char>>> {
    if !config.configure_link {
        Seq::empty()
    } else {
        (match opt_text(config.ipv4) {
            Some(ip) => seq![
                netsh_ipv4_address(iface, ip, "255.255.255.255"@),
                netsh_mtu("ipv4"@, iface, config.mtu as nat),
            ],
            None => Seq::empty(),
        }) + (match opt_text(config.ipv6) {
            Some(ip) => seq![
                netsh_ipv6_address(iface, ip, "128"@),
                netsh_mtu("ipv6"@, iface, config.mtu as nat),
            ],
            None => Seq::empty(),
        })
    }
}

/// The arguments of a list of calls.
pub open spec fn call_texts(calls: Seq<Vec<String>>) -> Seq<Seq<Seq<char>>> {
    calls.map_values(|args: Vec<String>| texts(args@))
}

/// Makes the calls of `netsh` that set up a device.
pub fn netsh_setup(iface: &str, config: &NativeTunConfig) -> (calls: Vec<Vec<String>>)
    ensures
        call_texts(calls@) == netsh_calls(iface@, *config),
{
    let mut calls: Vec<Vec<String>> = Vec::new();
    if config.configure_link {
        if let Some(v4) = &config.ipv4 {
            calls.push(set_ipv4_address(iface, v4.as_str(), "255.255.255.255"));
            calls.push(set_ipv4_mtu(iface, config.mtu));
        }
        if let Some(v6) = &config.ipv6 {
            calls.push(set_ipv6_address(iface, v6.as_str(), "128"));
            calls.push(set_ipv6_mtu(iface, config.mtu));
        }
    }
    assert(call_texts(calls@) =~= netsh_calls(iface@, *config));
    calls
}

/// A link gets the addresses that its texts write, IPv4 first, each alone in
/// its network; a text that writes an address of the other family is refused.
pub proof fn law_link_gets_its_addresses(a: u32, b: u128)
    ensures
        ({
            let v4 = ip_text(IpAddr::V4(a));
            let v6 = ip_text(IpAddr::V6(b));
            &&& link_addresses(Some(v4), Some(v6)) == Ok::<Seq<(IpAddr, u8)>, LinkError>(
                seq![(IpAddr::V4(a), 32u8), (IpAddr::V6(b), 128u8)],
            )
            &&& link_addresses(Some(v4), None) == Ok::<Seq<(IpAddr, u8)>, LinkError>(
                seq![(IpAddr::V4(a), 32u8)],
            )
            &&& link_addresses(None, Some(v6)) == Ok::<Seq<(IpAddr, u8)>, LinkError>(
                seq![(IpAddr::V6(b), 128u8)],
            )
            &&& link_addresses(Some(v6), Some(v4)) == Err::<Seq<(IpAddr, u8)>, LinkError>(
                LinkError::Ipv4,
            )
            &&& link_addresses(Some(v4), Some(v4)) == Err::<Seq<(IpAddr, u8)>, LinkError>(
                LinkError::Ipv6,
            )
        }),
{
    law_address_reads_back(IpAddr::V4(a));
    law_address_reads_back(IpAddr::V6(b));
    let v4 = ip_text(IpAddr::V4(a));
    let v6 = ip_text(IpAddr::V6(b));
    assert(link_addresses(Some(v4), Some(v6))->Ok_0 =~= seq![
        (IpAddr::V4(a), 32u8),
        (IpAddr::V6(b), 128u8),
    ]);
    assert(link_addresses(Some(v4), None)->Ok_0 =~= seq![(IpAddr::V4(a), 32u8)]);
    assert(link_addresses(None, Some(v6))->Ok_0 =~= seq![(IpAddr::V6(b), 128u8)]);
}

/// A device is set up with one call for its address and one for its size in
/// each family that it has an address of, and with none where it is not to be
/// set up.
pub proof fn law_device_is_set_up(iface: Seq<char>, config: NativeTunConfig)
    ensures
        !config.configure_link ==> netsh_calls(iface, config).len() == 0,
        config.configure_link ==> {
            let calls = netsh_calls(iface, config);
            let mtu = "mtu="@ + decimal_text(config.mtu as nat);
            &&& calls.len() == (if config.ipv4 is Some {
                2int
            } else {
                0
            }) + (if config.ipv6 is Some {
                2int
            } else {
                0
            })
            &&& config.ipv4 matches Some(ip) ==> {
                &&& calls[0] == seq![
                    "interface"@,
                    "ipv4"@,
                    "set"@,
                    "address"@,
                    "name=\""@ + iface + "\""@,
                    "static"@,
                    ip@,
                    "255.255.255.255"@,
                ]
                &&& calls[1] == seq![
                    "interface"@,
                    "ipv4"@,
                    "set"@,
                    "subinterface"@,
                    "\""@ + iface + "\""@,
                    mtu,
                ]
            }
            &&& config.ipv6 matches Some(ip) ==> {
                let last = calls.len() - 1;
                &&& calls[last - 1] == seq![
                    "interface"@,
                    "ipv6"@,
                    "set"@,
                    "address"@,
                    "interface=\""@ + iface + "\""@,
                    ip@ + "/"@ + "128"@,
                ]
                &&& calls[last] == seq![
                    "interface"@,
                    "ipv6"@,
                    "set"@,
                    "subinterface"@,
                    "\""@ + iface + "\""@,
                    mtu,
                ]
            }
        },
{
}

/// The address of an interface is set together with its mask or its prefix
/// length, and the MTU for one family.
pub proof fn law_interface_is_set(
    iface: Seq<char>,
    ip: Seq<char>,
    mask: Seq<char>,
    family: Seq<char>,
    mtu: nat,
)
    ensures
        netsh_ipv4_address(iface, ip, mask).take(4) == seq![
            "interface"@,
            "ipv4"@,
            "set"@,
            "address"@,
        ],
        netsh_ipv4_address(iface, ip, mask).skip(4) == seq![
            "name=\""@ + iface + "\""@,
            "static"@,
            ip,
            mask,
        ],
        netsh_ipv6_address(iface, ip, mask).take(4) == seq![
            "interface"@,
            "ipv6"@,
            "set"@,
            "address"@,
        ],
        netsh_ipv6_address(iface, ip, mask).skip(4) == seq![
            "interface=\""@ + iface + "\""@,
            ip + "/"@ + mask,
        ],
        netsh_mtu(family, iface, mtu).take(4) == seq![
            "interface"@,
            family,
            "set"@,
            "subinterface"@,
        ],
        netsh_mtu(family, iface, mtu).skip(4) == seq![
            "\""@ + iface + "\""@,
            "mtu="@ + decimal_text(mtu),
        ],
{
}

} // verus!
