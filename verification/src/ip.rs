//! IP addresses: their values, how they are read from text and written.

use vstd::arithmetic::div_mod::lemma_div_denominator;
use vstd::prelude::*;
use vstd::string::*;

use crate::text::{
    all_digits, chars_of, decimal, decimal_text, digits_value, free_of, hex_char, hex_digit,
    join_text, law_cut_pieces_make_up_the_text, law_decimal_reads_back,
    law_joined_pieces_are_cut_apart, lemma_decimal_len,
    lemma_split_first, lemma_split_last, lemma_split_single, parse_digits, split_on,
};

verus! {

/// An IP address: the number that its bytes, in network order, stand for.
#[derive(Clone, Copy, Debug, PartialEq, Eq, Structural)]
pub enum IpAddr {
    V4(u32),
    V6(u128),
}

/// The number of the address 127.0.0.1.
pub const LOCALHOST_V4: u32 = 0x7f00_0001;

/// An IP address with a port and, for IPv6, the scope that the address is
/// taken in (zero for none).
#[derive(Clone, Copy, Debug, PartialEq, Eq, Structural)]
pub struct SocketAddr {
    pub ip: IpAddr,
    pub port: u16,
    pub scope: u32,
}

impl IpAddr {
    /// Whether this is an IPv6 address.
    pub fn is_ipv6(&self) -> (r: bool)
        ensures
            r == (*self is V6),
    {
        match self {
            IpAddr::V4(_) => false,
            IpAddr::V6(_) => true,
        }
    }
}

impl SocketAddr {
    /// An address and a port, without a scope.
    pub fn new(ip: IpAddr, port: u16) -> (r: SocketAddr)
        ensures
            r == (SocketAddr { ip, port, scope: 0 }),
    {
        SocketAddr { ip, port, scope: 0 }
    }
}

/// The value of one of the four numbers of an IPv4 address: one to three
/// digits without a leading zero, at most 255.
pub open spec fn octet_value(s: Seq<char>) -> Option<nat> {
    if 1 <= s.len() <= 3 && all_digits(s) && (s.len() == 1 || s[0] != '0') && digits_value(s)
        <= 255 {
        Some(digits_value(s))
    } else {
        None
    }
}

/// The IPv4 address in a text: four numbers with dots between them.
pub open spec fn ipv4_value(s: Seq<char>) -> Option<nat> {
    let p = split_on(s, '.');
    if p.len() == 4 && octet_value(p[0]) is Some && octet_value(p[1]) is Some && octet_value(
        p[2],
    ) is Some && octet_value(p[3]) is Some {
        Some(
            octet_value(p[0]).unwrap() * 0x100_0000 + octet_value(p[1]).unwrap() * 0x1_0000
                + octet_value(p[2]).unwrap() * 0x100 + octet_value(p[3]).unwrap(),
        )
    } else {
        None
    }
}

/// The value of a hexadecimal digit, in either case.
pub open spec fn hex_digit_value(c: char) -> Option<nat> {
    if '0' <= c <= '9' {
        Some((c as nat - 48) as nat)
    } else if 'a' <= c <= 'f' {
        Some((c as nat - 87) as nat)
    } else if 'A' <= c <= 'F' {
        Some((c as nat - 55) as nat)
    } else {
        None
    }
}

/// The number that hexadecimal digits stand for, if all are digits.
pub open spec fn hex_value(s: Seq<char>) -> Option<nat>
    decreases s.len(),
{
    if s.len() == 0 {
        Some(0)
    } else {
        match (hex_value(s.drop_last()), hex_digit_value(s.last())) {
            (Some(v), Some(d)) => Some(v * 16 + d),
            _ => None,
        }
    }
}

/// The value of one group of an IPv6 address: one to four hexadecimal digits.
pub open spec fn group_of(s: Seq<char>) -> Option<u16> {
    if 1 <= s.len() <= 4 && hex_value(s) is Some {
        Some(hex_value(s).unwrap() as u16)
    } else {
        None
    }
}

/// The groups of an IPv6 address, if every piece is one.
pub open spec fn groups_of(pieces: Seq<Seq<char>>) -> Option<Seq<u16>>
    decreases pieces.len(),
{
    if pieces.len() == 0 {
        Some(Seq::empty())
    } else {
        match (groups_of(pieces.drop_last()), group_of(pieces.last())) {
            (Some(g), Some(d)) => Some(g.push(d)),
            _ => None,
        }
    }
}

/// The groups at the end of an IPv6 address, where the last piece may be an
/// IPv4 address, which counts as two groups.
pub open spec fn last_groups_of(pieces: Seq<Seq<char>>) -> Option<Seq<u16>> {
    match ipv4_value(pieces.last()) {
        Some(v) => match groups_of(pieces.drop_last()) {
            Some(g) => Some(g.push((v / 0x1_0000) as u16).push((v % 0x1_0000) as u16)),
            None => None,
        },
        None => groups_of(pieces),
    }
}

/// The first place, from `from` on, where two colons follow each other.
pub open spec fn double_colon(s: Seq<char>, from: int) -> Option<int>
    decreases s.len() - from,
{
    if from + 1 >= s.len() {
        None
    } else if s[from] == ':' && s[from + 1] == ':' {
        Some(from)
    } else {
        double_colon(s, from + 1)
    }
}

/// The number that eight groups stand for.
pub open spec fn groups_value(g: Seq<u16>) -> nat {
    g[0] as nat * 0x1_0000_0000_0000_0000_0000_0000_0000 + g[1] as nat
        * 0x1_0000_0000_0000_0000_0000_0000 + g[2] as nat * 0x1_0000_0000_0000_0000_0000
        + g[3] as nat * 0x1_0000_0000_0000_0000 + g[4] as nat * 0x1_0000_0000_0000 + g[5] as nat
        * 0x1_0000_0000 + g[6] as nat * 0x1_0000 + g[7] as nat
}

/// The groups that an IPv6 text spells out before its double colon at `k`.
pub open spec fn groups_before(s: Seq<char>, k: int) -> Option<Seq<u16>> {
    if k == 0 {
        Some(Seq::empty())
    } else {
        groups_of(split_on(s.take(k), ':'))
    }
}

/// The groups that an IPv6 text spells out behind its double colon at `k`.
pub open spec fn groups_behind(s: Seq<char>, k: int) -> Option<Seq<u16>> {
    if k + 2 == s.len() {
        Some(Seq::empty())
    } else {
        last_groups_of(split_on(s.skip(k + 2), ':'))
    }
}

/// The eight groups of the IPv6 address in a text: all of them with colons
/// between, or a double colon in place of one or more zero groups.
pub open spec fn ipv6_groups(s: Seq<char>) -> Option<Seq<u16>> {
    match double_colon(s, 0) {
        None => match last_groups_of(split_on(s, ':')) {
            Some(g) => if g.len() == 8 {
                Some(g)
            } else {
                None
            },
            None => None,
        },
        Some(k) => match (groups_before(s, k), groups_behind(s, k)) {
            (Some(head), Some(tail)) => if head.len() + tail.len() <= 7 {
                Some(
                    head + Seq::new((8 - head.len() - tail.len()) as nat, |i: int| 0u16) + tail,
                )
            } else {
                None
            },
            _ => None,
        },
    }
}

/// The IP address in a text.
pub open spec fn ip_value(s: Seq<char>) -> Option<IpAddr> {
    match ipv4_value(s) {
        Some(v) => Some(IpAddr::V4(v as u32)),
        None => match ipv6_groups(s) {
            Some(g) => Some(IpAddr::V6(groups_value(g) as u128)),
            None => None,
        },
    }
}

/// Cuts characters at every separator.
fn split_chars(s: &[char], sep: char) -> (out: Vec<Vec<char>>)
    ensures
        out@.len() == split_on(s@, sep).len(),
        out@.len() >= 1,
        forall|i: int| 0 <= i < out@.len() ==> (#[trigger] out@[i])@ == split_on(s@, sep)[i],
{
    let mut out: Vec<Vec<char>> = Vec::new();
    let mut piece: Vec<char> = Vec::new();
    let mut i: usize = 0;
    assert(s@.take(0) =~= Seq::<char>::empty());
    assert(piece@ =~= Seq::<char>::empty());
    while i < s.len()
        invariant
            i <= s@.len(),
            out@.len() + 1 == split_on(s@.take(i as int), sep).len(),
            piece@ == split_on(s@.take(i as int), sep).last(),
            forall|j: int|
                0 <= j < out@.len() ==> (#[trigger] out@[j])@ == split_on(s@.take(i as int), sep)[j],
        decreases s@.len() - i,
    {
        let c: char = s[i];
        assert(s@.take(i + 1).drop_last() =~= s@.take(i as int));
        if c == sep {
            out.push(piece);
            piece = Vec::new();
            assert(piece@ =~= Seq::<char>::empty());
        } else {
            piece.push(c);
        }
        i = i + 1;
    }
    assert(s@.take(s@.len() as int) =~= s@);
    out.push(piece);
    out
}

/// Reads one of the four numbers of an IPv4 address.
fn parse_octet(s: &[char]) -> (r: Option<u32>)
    ensures
        r is Some <==> octet_value(s@) is Some,
        r matches Some(v) ==> octet_value(s@) == Some(v as nat) && v <= 255,
{
    if s.len() < 1 || s.len() > 3 || (s.len() > 1 && s[0] == '0') {
        return None;
    }
    parse_digits(s, 255)
}

/// Reads an IPv4 address.
pub fn parse_ipv4(s: &[char]) -> (r: Option<u32>)
    ensures
        r is Some <==> ipv4_value(s@) is Some,
        r matches Some(v) ==> ipv4_value(s@) == Some(v as nat),
{
    let p = split_chars(s, '.');
    if p.len() != 4 {
        return None;
    }
    match (
        parse_octet(p[0].as_slice()),
        parse_octet(p[1].as_slice()),
        parse_octet(p[2].as_slice()),
        parse_octet(p[3].as_slice()),
    ) {
        (Some(a), Some(b), Some(c), Some(d)) => Some(a * 0x100_0000 + b * 0x1_0000 + c * 0x100 + d),
        _ => None,
    }
}

/// Reads one group of an IPv6 address.
fn parse_group(s: &[char]) -> (r: Option<u16>)
    ensures
        r == group_of(s@),
{
    if s.len() < 1 || s.len() > 4 {
        return None;
    }
    let mut value: u32 = 0;
    let mut bound: u32 = 1;
    let mut i: usize = 0;
    assert(s@.take(0) =~= Seq::<char>::empty());
    while i < s.len()
        invariant
            i <= s@.len() <= 4,
            hex_value(s@.take(i as int)) == Some(value as nat),
            i == 0 ==> bound == 1,
            i == 1 ==> bound == 16,
            i == 2 ==> bound == 256,
            i == 3 ==> bound == 4096,
            i == 4 ==> bound == 65536,
            value < bound,
        decreases s@.len() - i,
    {
        let c: char = s[i];
        assert(s@.take(i + 1).drop_last() =~= s@.take(i as int));
        let d: u32 = if '0' <= c && c <= '9' {
            c as u32 - 48
        } else if 'a' <= c && c <= 'f' {
            c as u32 - 87
        } else if 'A' <= c && c <= 'F' {
            c as u32 - 55
        } else {
            proof {
                lemma_hex_value_prefix(s@, i + 1);
            }
            return None;
        };
        value = value * 16 + d;
        bound = bound * 16;
        i = i + 1;
    }
    assert(s@.take(s@.len() as int) =~= s@);
    Some(value as u16)
}

/// A text with a prefix that is not hexadecimal is not hexadecimal.
proof fn lemma_hex_value_prefix(s: Seq<char>, i: int)
    requires
        0 <= i <= s.len(),
        hex_value(s.take(i)) is None,
    ensures
        hex_value(s) is None,
    decreases s.len() - i,
{
    if i < s.len() {
        assert(s.take(i + 1).drop_last() =~= s.take(i));
        lemma_hex_value_prefix(s, i + 1);
    } else {
        assert(s.take(i) =~= s);
    }
}

/// A run of pieces with one that is not a group has no groups.
proof fn lemma_groups_prefix(p: Seq<Seq<char>>, i: int)
    requires
        0 <= i <= p.len(),
        groups_of(p.take(i)) is None,
    ensures
        groups_of(p) is None,
    decreases p.len() - i,
{
    if i < p.len() {
        assert(p.take(i + 1).drop_last() =~= p.take(i));
        lemma_groups_prefix(p, i + 1);
    } else {
        assert(p.take(i) =~= p);
    }
}

/// Reads the first `n` pieces as groups.
fn parse_groups(pieces: &Vec<Vec<char>>, n: usize, Ghost(p): Ghost<Seq<Seq<char>>>) -> (r: Option<
    Vec<u16>,
>)
    requires
        n <= pieces@.len() == p.len(),
        forall|i: int| 0 <= i < pieces@.len() ==> (#[trigger] pieces@[i])@ == p[i],
    ensures
        r is Some <==> groups_of(p.take(n as int)) is Some,
        r matches Some(g) ==> groups_of(p.take(n as int)) == Some(g@) && g@.len() == n,
{
    let mut out: Vec<u16> = Vec::new();
    let mut i: usize = 0;
    assert(p.take(0) =~= Seq::<Seq<char>>::empty());
    assert(out@ =~= Seq::<u16>::empty());
    while i < n
        invariant
            i <= n <= pieces@.len() == p.len(),
            forall|j: int| 0 <= j < pieces@.len() ==> (#[trigger] pieces@[j])@ == p[j],
            groups_of(p.take(i as int)) == Some(out@),
            out@.len() == i,
        decreases n - i,
    {
        assert(p.take(i + 1).drop_last() =~= p.take(i as int));
        match parse_group(pieces[i].as_slice()) {
            Some(g) => {
                out.push(g);
            },
            None => {
                proof {
                    assert(p.take(n as int).take(i + 1) =~= p.take(i + 1));
                    lemma_groups_prefix(p.take(n as int), i + 1);
                }
                return None;
            },
        }
        i = i + 1;
    }
    Some(out)
}

/// Reads the groups at the end of an IPv6 address.
fn parse_last_groups(s: &[char]) -> (r: Option<Vec<u16>>)
    ensures
        r is Some <==> last_groups_of(split_on(s@, ':')) is Some,
        r matches Some(g) ==> last_groups_of(split_on(s@, ':')) == Some(g@),
{
    let pieces = split_chars(s, ':');
    let ghost p = split_on(s@, ':');
    let n: usize = pieces.len();
    proof {
        assert(p.take(n - 1) =~= p.drop_last());
        assert(p.take(n as int) =~= p);
    }
    match parse_ipv4(pieces[n - 1].as_slice()) {
        Some(v) => match parse_groups(&pieces, n - 1, Ghost(p)) {
            Some(mut g) => {
                g.push((v / 0x1_0000) as u16);
                g.push((v % 0x1_0000) as u16);
                Some(g)
            },
            None => None,
        },
        None => parse_groups(&pieces, n, Ghost(p)),
    }
}

/// Finds the first two colons that follow each other.
fn find_double_colon(s: &[char]) -> (r: Option<usize>)
    ensures
        match r {
            Some(k) => double_colon(s@, 0) == Some(k as int) && k + 2 <= s@.len(),
            None => double_colon(s@, 0) is None,
        },
{
    let mut i: usize = 0;
    while i < s.len() && s.len() - i >= 2
        invariant
            i <= s@.len(),
            double_colon(s@, i as int) == double_colon(s@, 0),
        decreases s@.len() - i,
    {
        if s[i] == ':' && s[i + 1] == ':' {
            return Some(i);
        }
        i = i + 1;
    }
    None
}

/// Reads the eight groups of an IPv6 address.
fn parse_ipv6_groups(s: &[char]) -> (r: Option<Vec<u16>>)
    ensures
        r is Some <==> ipv6_groups(s@) is Some,
        r matches Some(g) ==> ipv6_groups(s@) == Some(g@) && g@.len() == 8,
{
    match find_double_colon(s) {
        None => match parse_last_groups(s) {
            Some(g) => if g.len() == 8 {
                Some(g)
            } else {
                None
            },
            None => None,
        },
        Some(k) => {
            let end: usize = s.len();
            let head: Vec<u16> = if k == 0 {
                let empty: Vec<u16> = Vec::new();
                assert(empty@ =~= Seq::<u16>::empty());
                empty
            } else {
                let front = vstd::slice::slice_subrange(s, 0, k);
                assert(front@ =~= s@.take(k as int));
                let pieces = split_chars(front, ':');
                let ghost p = split_on(front@, ':');
                assert(p.take(pieces@.len() as int) =~= p);
                match parse_groups(&pieces, pieces.len(), Ghost(p)) {
                    Some(g) => g,
                    None => {
                        return None;
                    },
                }
            };
            let tail: Vec<u16> = if k + 2 == end {
                let empty: Vec<u16> = Vec::new();
                assert(empty@ =~= Seq::<u16>::empty());
                empty
            } else {
                let back = vstd::slice::slice_subrange(s, k + 2, end);
                assert(back@ =~= s@.skip(k + 2));
                match parse_last_groups(back) {
                    Some(g) => g,
                    None => {
                        return None;
                    },
                }
            };
            if head.len() > 7 || tail.len() > 7 - head.len() {
                return None;
            }
            let ghost zeros = Seq::new((8 - head@.len() - tail@.len()) as nat, |i: int| 0u16);
            let ghost h = head@;
            let mut out: Vec<u16> = head;
            while out.len() < 8 - tail.len()
                invariant
                    h.len() <= out@.len() <= 8 - tail@.len(),
                    tail@.len() <= 7,
                    zeros == Seq::new((8 - h.len() - tail@.len()) as nat, |i: int| 0u16),
                    out@ == h + zeros.take(out@.len() - h.len()),
                decreases 8 - tail@.len() - out@.len(),
            {
                let ghost n = out@.len() - h.len();
                out.push(0);
                assert(out@ =~= h + zeros.take(n + 1));
            }
            assert(zeros.take(zeros.len() as int) =~= zeros);
            let ghost padded = out@;
            let mut j: usize = 0;
            while j < tail.len()
                invariant
                    j <= tail@.len(),
                    out@ == padded + tail@.take(j as int),
                decreases tail@.len() - j,
            {
                out.push(tail[j]);
                j = j + 1;
                assert(out@ =~= padded + tail@.take(j as int));
            }
            assert(tail@.take(tail@.len() as int) =~= tail@);
            Some(out)
        },
    }
}

/// The number that eight groups stand for.
fn combine_groups(g: &Vec<u16>) -> (v: u128)
    requires
        g@.len() == 8,
    ensures
        v == groups_value(g@),
{
    let a: u128 = g[0] as u128 * 0x1_0000 + g[1] as u128;
    let b: u128 = g[2] as u128 * 0x1_0000 + g[3] as u128;
    let c: u128 = g[4] as u128 * 0x1_0000 + g[5] as u128;
    let d: u128 = g[6] as u128 * 0x1_0000 + g[7] as u128;
    a * 0x1_0000_0000_0000_0000_0000_0000 + b * 0x1_0000_0000_0000_0000 + c * 0x1_0000_0000 + d
}

/// Reads an IP address.
pub fn parse_ip_chars(s: &[char]) -> (r: Option<IpAddr>)
    ensures
        r == ip_value(s@),
{
    match parse_ipv4(s) {
        Some(v) => Some(IpAddr::V4(v)),
        None => match parse_ipv6_groups(s) {
            Some(g) => Some(IpAddr::V6(combine_groups(&g))),
            None => None,
        },
    }
}

/// Reads an IP address from text: four decimal numbers with dots between
/// them, or the hexadecimal groups of IPv6.
pub fn parse_ip(s: &str) -> (r: Option<IpAddr>)
    ensures
        r == ip_value(s@),
{
    let chars = chars_of(s);
    parse_ip_chars(chars.as_slice())
}

/// The port in a text: decimal digits, leading zeros included, of a value
/// that a port can have.
pub open spec fn port_value(s: Seq<char>) -> Option<nat> {
    if s.len() > 0 && all_digits(s) && digits_value(s) <= 65535 {
        Some(digits_value(s))
    } else {
        None
    }
}

/// The IPv4 address and port in a text, with a colon between them.
pub open spec fn socket_v4_value(s: Seq<char>) -> Option<SocketAddr> {
    let p = split_on(s, ':');
    if p.len() == 2 && ipv4_value(p[0]) is Some && port_value(p[1]) is Some {
        Some(
            SocketAddr {
                ip: IpAddr::V4(ipv4_value(p[0]).unwrap() as u32),
                port: port_value(p[1]).unwrap() as u16,
                scope: 0,
            },
        )
    } else {
        None
    }
}

/// The IPv6 address in a text and, behind a percent sign, its scope.
pub open spec fn scoped_v6_value(s: Seq<char>) -> Option<(nat, nat)> {
    let p = split_on(s, '%');
    if p.len() > 2 || ipv6_groups(p[0]) is None {
        None
    } else if p.len() == 1 {
        Some((groups_value(ipv6_groups(p[0]).unwrap()), 0))
    } else if p[1].len() > 0 && all_digits(p[1]) && digits_value(p[1]) <= 0xffff_ffff {
        Some((groups_value(ipv6_groups(p[0]).unwrap()), digits_value(p[1])))
    } else {
        None
    }
}

/// The IPv6 address, in square brackets, and port in a text, with a colon
/// between them.
pub open spec fn socket_v6_value(s: Seq<char>) -> Option<SocketAddr> {
    let p = split_on(s, ']');
    if p.len() == 2 && p[0].len() > 0 && p[0][0] == '[' && p[1].len() > 0 && p[1][0] == ':' {
        match (scoped_v6_value(p[0].drop_first()), port_value(p[1].drop_first())) {
            (Some((v, scope)), Some(port)) => Some(
                SocketAddr { ip: IpAddr::V6(v as u128), port: port as u16, scope: scope as u32 },
            ),
            _ => None,
        }
    } else {
        None
    }
}

/// The IP address and port in a text.
pub open spec fn socket_value(s: Seq<char>) -> Option<SocketAddr> {
    match socket_v4_value(s) {
        Some(addr) => Some(addr),
        None => socket_v6_value(s),
    }
}

/// Reads an IPv6 address and its scope.
fn parse_scoped_v6(s: &[char]) -> (r: Option<(u128, u32)>)
    ensures
        r is Some <==> scoped_v6_value(s@) is Some,
        r matches Some((v, scope)) ==> scoped_v6_value(s@) == Some((v as nat, scope as nat)),
{
    let p = split_chars(s, '%');
    if p.len() > 2 {
        return None;
    }
    match parse_ipv6_groups(p[0].as_slice()) {
        None => None,
        Some(g) => {
            let v: u128 = combine_groups(&g);
            if p.len() == 1 {
                Some((v, 0))
            } else {
                match parse_digits(p[1].as_slice(), 0xffff_ffff) {
                    Some(scope) => Some((v, scope)),
                    None => None,
                }
            }
        },
    }
}

/// Reads an IP address and a port from text.
pub fn parse_socket_addr(s: &str) -> (r: Option<SocketAddr>)
    ensures
        r == socket_value(s@),
{
    let chars = chars_of(s);
    let p = split_chars(chars.as_slice(), ':');
    if p.len() == 2 {
        if let Some(v) = parse_ipv4(p[0].as_slice()) {
            if let Some(port) = parse_digits(p[1].as_slice(), 65535) {
                return Some(SocketAddr { ip: IpAddr::V4(v), port: port as u16, scope: 0 });
            }
        }
    }
    let q = split_chars(chars.as_slice(), ']');
    if q.len() != 2 || q[0].len() == 0 || q[0][0] != '[' || q[1].len() == 0 || q[1][0] != ':' {
        return None;
    }
    let addr = vstd::slice::slice_subrange(q[0].as_slice(), 1, q[0].len());
    let port = vstd::slice::slice_subrange(q[1].as_slice(), 1, q[1].len());
    assert(addr@ =~= q@[0]@.drop_first());
    assert(port@ =~= q@[1]@.drop_first());
    match (parse_scoped_v6(addr), parse_digits(port, 65535)) {
        (Some((v, scope)), Some(port)) => Some(
            SocketAddr { ip: IpAddr::V6(v), port: port as u16, scope },
        ),
        _ => None,
    }
}

/// A number in hexadecimal.
pub open spec fn hex_text(n: nat) -> Seq<char>
    decreases n,
{
    if n < 16 {
        seq![hex_char(n as int)]
    } else {
        hex_text(n / 16).push(hex_char((n % 16) as int))
    }
}

/// Writes a number in hexadecimal.
pub fn hexadecimal(n: u64) -> (out: String)
    ensures
        out@ == hex_text(n as nat),
    decreases n,
{
    let digit: char = hex_digit((n % 16) as u8);
    if n < 16 {
        let mut out = String::new();
        out.push(digit);
        assert(out@ =~= hex_text(n as nat));
        out
    } else {
        let mut out = hexadecimal(n / 16);
        out.push(digit);
        out
    }
}

/// An IPv4 address as text.
pub open spec fn ipv4_text(v: u32) -> Seq<char> {
    decimal_text((v / 0x100_0000) as nat) + "."@ + decimal_text((v / 0x1_0000 % 0x100) as nat)
        + "."@ + decimal_text((v / 0x100 % 0x100) as nat) + "."@ + decimal_text((v % 0x100) as nat)
}

/// Group `i` of an IPv6 address.
pub open spec fn group_at(v: u128, i: int) -> nat {
    if i == 0 {
        (v / 0x1_0000_0000_0000_0000_0000_0000_0000) as nat
    } else if i == 1 {
        (v / 0x1_0000_0000_0000_0000_0000_0000 % 0x1_0000) as nat
    } else if i == 2 {
        (v / 0x1_0000_0000_0000_0000_0000 % 0x1_0000) as nat
    } else if i == 3 {
        (v / 0x1_0000_0000_0000_0000 % 0x1_0000) as nat
    } else if i == 4 {
        (v / 0x1_0000_0000_0000 % 0x1_0000) as nat
    } else if i == 5 {
        (v / 0x1_0000_0000 % 0x1_0000) as nat
    } else if i == 6 {
        (v / 0x1_0000 % 0x1_0000) as nat
    } else {
        (v % 0x1_0000) as nat
    }
}

/// The length of the run of zero groups that ends before group `i`.
pub open spec fn zeros_before(v: u128, i: int) -> nat
    decreases i,
{
    if i <= 0 || group_at(v, i - 1) != 0 {
        0
    } else {
        1 + zeros_before(v, i - 1)
    }
}

/// The start and the length of the longest run of zero groups among the
/// first `i`, the first one where several are as long.
pub open spec fn longest_zeros(v: u128, i: int) -> (nat, nat)
    decreases i,
{
    if i <= 0 {
        (0, 0)
    } else {
        let best = longest_zeros(v, i - 1);
        let here = zeros_before(v, i);
        if here > best.1 {
            ((i - here) as nat, here)
        } else {
            best
        }
    }
}

/// The groups `from..to` in hexadecimal, with colons between them.
pub open spec fn group_run_text(v: u128, from: int, to: int) -> Seq<char>
    decreases to - from,
{
    if from >= to {
        Seq::empty()
    } else if to - from == 1 {
        hex_text(group_at(v, from))
    } else {
        group_run_text(v, from, to - 1) + ":"@ + hex_text(group_at(v, to - 1))
    }
}

/// An IPv6 address as text: an IPv4-mapped one with its IPv4 part in decimal,
/// any other in groups, where the longest run of two or more zero groups is
/// written as a double colon.
pub open spec fn ipv6_text(v: u128) -> Seq<char> {
    if v / 0x1_0000_0000 == 0xffff {
        "::ffff:"@ + ipv4_text((v % 0x1_0000_0000) as u32)
    } else {
        let (start, len) = longest_zeros(v, 8);
        if len > 1 {
            group_run_text(v, 0, start as int) + "::"@ + group_run_text(v, (start + len) as int, 8)
        } else {
            group_run_text(v, 0, 8)
        }
    }
}

/// An IP address as text.
pub open spec fn ip_text(ip: IpAddr) -> Seq<char> {
    match ip {
        IpAddr::V4(v) => ipv4_text(v),
        IpAddr::V6(v) => ipv6_text(v),
    }
}

/// An IP address and a port as text.
pub open spec fn socket_text(addr: SocketAddr) -> Seq<char> {
    match addr.ip {
        IpAddr::V4(v) => ipv4_text(v) + ":"@ + decimal_text(addr.port as nat),
        IpAddr::V6(v) => if addr.scope == 0 {
            "["@ + ipv6_text(v) + "]:"@ + decimal_text(addr.port as nat)
        } else {
            "["@ + ipv6_text(v) + "%"@ + decimal_text(addr.scope as nat) + "]:"@ + decimal_text(
                addr.port as nat,
            )
        },
    }
}

/// Group `i` of an IPv6 address.
fn group_number(v: u128, i: u32) -> (g: u64)
    requires
        i < 8,
    ensures
        g == group_at(v, i as int),
        g <= 65535,
{
    if i == 0 {
        (v / 0x1_0000_0000_0000_0000_0000_0000_0000) as u64
    } else if i == 1 {
        (v / 0x1_0000_0000_0000_0000_0000_0000 % 0x1_0000) as u64
    } else if i == 2 {
        (v / 0x1_0000_0000_0000_0000_0000 % 0x1_0000) as u64
    } else if i == 3 {
        (v / 0x1_0000_0000_0000_0000 % 0x1_0000) as u64
    } else if i == 4 {
        (v / 0x1_0000_0000_0000 % 0x1_0000) as u64
    } else if i == 5 {
        (v / 0x1_0000_0000 % 0x1_0000) as u64
    } else if i == 6 {
        (v / 0x1_0000 % 0x1_0000) as u64
    } else {
        (v % 0x1_0000) as u64
    }
}

/// Writes an IPv4 address.
pub fn format_ipv4(v: u32) -> (out: String)
    ensures
        out@ == ipv4_text(v),
{
    decimal((v / 0x100_0000) as u64).concat(".").concat(
        decimal((v / 0x1_0000 % 0x100) as u64).as_str(),
    ).concat(".").concat(decimal((v / 0x100 % 0x100) as u64).as_str()).concat(".").concat(
        decimal((v % 0x100) as u64).as_str(),
    )
}

/// Writes the groups `from..to` of an IPv6 address.
fn format_group_run(v: u128, from: u32, to: u32) -> (out: String)
    requires
        to <= 8,
    ensures
        out@ == group_run_text(v, from as int, to as int),
    decreases to - from,
{
    if from >= to {
        String::new()
    } else if to - from == 1 {
        hexadecimal(group_number(v, from))
    } else {
        format_group_run(v, from, to - 1).concat(":").concat(
            hexadecimal(group_number(v, to - 1)).as_str(),
        )
    }
}

/// Writes an IPv6 address.
pub fn format_ipv6(v: u128) -> (out: String)
    ensures
        out@ == ipv6_text(v),
{
    if v / 0x1_0000_0000 == 0xffff {
        return "::ffff:".to_owned().concat(format_ipv4((v % 0x1_0000_0000) as u32).as_str());
    }
    let mut start: u32 = 0;
    let mut len: u32 = 0;
    let mut here: u32 = 0;
    let mut i: u32 = 0;
    while i < 8
        invariant
            i <= 8,
            here <= i,
            start + len <= i,
            here == zeros_before(v, i as int),
            longest_zeros(v, i as int) == (start as nat, len as nat),
        decreases 8 - i,
    {
        if group_number(v, i) == 0 {
            here = here + 1;
        } else {
            here = 0;
        }
        i = i + 1;
        if here > len {
            start = i - here;
            len = here;
        }
    }
    if len > 1 {
        format_group_run(v, 0, start).concat("::").concat(
            format_group_run(v, start + len, 8).as_str(),
        )
    } else {
        format_group_run(v, 0, 8)
    }
}

/// Writes an IP address.
pub fn format_ip(ip: IpAddr) -> (out: String)
    ensures
        out@ == ip_text(ip),
{
    match ip {
        IpAddr::V4(v) => format_ipv4(v),
        IpAddr::V6(v) => format_ipv6(v),
    }
}

/// Writes an IP address and a port.
pub fn format_socket_addr(addr: SocketAddr) -> (out: String)
    ensures
        out@ == socket_text(addr),
{
    let port = decimal(addr.port as u64);
    match addr.ip {
        IpAddr::V4(v) => format_ipv4(v).concat(":").concat(port.as_str()),
        IpAddr::V6(v) => {
            let start = "[".to_owned().concat(format_ipv6(v).as_str());
            if addr.scope == 0 {
                start.concat("]:").concat(port.as_str())
            } else {
                start.concat("%").concat(decimal(addr.scope as u64).as_str()).concat("]:").concat(
                    port.as_str(),
                )
            }
        },
    }
}

/// Reads the address that a host and a port make, where the host is an IP
/// address (an IPv6 one in square brackets).
pub fn host_port_addr(host: &str, port: u16) -> (r: Option<SocketAddr>)
    ensures
        r == socket_value(host@ + ":"@ + decimal_text(port as nat)),
{
    let text = host.to_owned().concat(":").concat(decimal(port as u64).as_str());
    parse_socket_addr(text.as_str())
}

/// The four numbers of an IPv4 address in decimal.
spec fn octet_texts(v: u32) -> Seq<Seq<char>> {
    seq![
        decimal_text((v / 0x100_0000) as nat),
        decimal_text((v / 0x1_0000 % 0x100) as nat),
        decimal_text((v / 0x100 % 0x100) as nat),
        decimal_text((v % 0x100) as nat),
    ]
}

/// A number below 256 in decimal is one of the four numbers of an address.
proof fn lemma_octet(n: nat)
    requires
        n < 256,
    ensures
        octet_value(decimal_text(n)) == Some(n),
        free_of(decimal_text(n), '.'),
        free_of(decimal_text(n), ':'),
        free_of(decimal_text(n), ']'),
        free_of(decimal_text(n), '%'),
{
    law_decimal_reads_back(n);
    lemma_decimal_len(n);
    assert forall|c: char| c < '0' || '9' < c implies #[trigger] free_of(decimal_text(n), c) by {}
}

proof fn lemma_ipv4_text(v: u32)
    ensures
        ipv4_value(ipv4_text(v)) == Some(v as nat),
        free_of(ipv4_text(v), ':'),
        free_of(ipv4_text(v), ']'),
        free_of(ipv4_text(v), '%'),
{
    let p = octet_texts(v);
    reveal_strlit(".");
    assert("."@ =~= seq!['.']);
    lemma_octet((v / 0x100_0000) as nat);
    lemma_octet((v / 0x1_0000 % 0x100) as nat);
    lemma_octet((v / 0x100 % 0x100) as nat);
    lemma_octet((v % 0x100) as nat);
    assert(p.drop_last() =~= seq![p[0], p[1], p[2]]);
    assert(seq![p[0], p[1], p[2]].drop_last() =~= seq![p[0], p[1]]);
    assert(seq![p[0], p[1]].drop_last() =~= seq![p[0]]);
    assert(ipv4_text(v) == join_text(p, seq!['.'])) by {
        reveal_with_fuel(join_text, 4);
    }
    law_joined_pieces_are_cut_apart(p, '.');
    let a = v / 0x100;
    let b = a / 0x100;
    assert(b == v / 0x1_0000);
    assert(b / 0x100 == v / 0x100_0000);
    assert(free_of(ipv4_text(v), ':'));
    assert(free_of(ipv4_text(v), ']'));
    assert(free_of(ipv4_text(v), '%'));
}

/// A text without a dot is no IPv4 address.
proof fn lemma_no_dot(s: Seq<char>)
    requires
        free_of(s, '.'),
    ensures
        ipv4_value(s) is None,
{
    lemma_split_single(s, '.');
}

/// A text whose first character is neither a digit nor a dot is no IPv4
/// address.
proof fn lemma_no_digit_first(s: Seq<char>)
    requires
        s.len() > 0,
        s[0] != '.',
        !('0' <= s[0] <= '9'),
    ensures
        ipv4_value(s) is None,
{
    lemma_split_first(s, '.');
    let first = split_on(s, '.')[0];
    assert(!all_digits(first)) by {
        assert(!('0' <= first[0] <= '9'));
    }
}

/// A number in hexadecimal is made of digits and stands for the number.
proof fn lemma_hex_text(n: nat)
    requires
        n < 0x1_0000,
    ensures
        1 <= hex_text(n).len() <= 4,
        hex_value(hex_text(n)) == Some(n),
        forall|i: int|
            0 <= i < hex_text(n).len() ==> hex_digit_value(#[trigger] hex_text(n)[i]) is Some,
{
    lemma_hex_digits(n);
    reveal_with_fuel(hex_text, 4);
}

proof fn lemma_hex_digits(n: nat)
    ensures
        hex_text(n).len() > 0,
        hex_value(hex_text(n)) == Some(n),
        forall|i: int|
            0 <= i < hex_text(n).len() ==> hex_digit_value(#[trigger] hex_text(n)[i]) is Some,
    decreases n,
{
    let s = hex_text(n);
    if n < 16 {
        assert(s.drop_last() =~= Seq::<char>::empty());
        assert(hex_value(s.drop_last()) == Some(0nat));
    } else {
        lemma_hex_digits(n / 16);
        assert(s.drop_last() =~= hex_text(n / 16));
    }
}

/// The groups `from..to` of an IPv6 address in hexadecimal.
spec fn run_pieces(v: u128, from: int, to: int) -> Seq<Seq<char>> {
    Seq::new((to - from) as nat, |i: int| hex_text(group_at(v, from + i)))
}

/// The groups `from..to` of an IPv6 address.
spec fn run_groups(v: u128, from: int, to: int) -> Seq<u16> {
    Seq::new((to - from) as nat, |i: int| group_at(v, from + i) as u16)
}

/// Whether a character is a colon or a hexadecimal digit.
spec fn is_group_char(c: char) -> bool {
    c == ':' || hex_digit_value(c) is Some
}

/// What holds of every run of groups as text: it starts and ends with a digit
/// and has no two colons in a row.
spec fn run_shape(s: Seq<char>) -> bool {
    &&& s.len() > 0
    &&& s[0] != ':'
    &&& s.last() != ':'
    &&& forall|i: int| 0 <= i < s.len() ==> is_group_char(#[trigger] s[i])
    &&& forall|i: int| 0 <= i && i + 1 < s.len() && #[trigger] s[i] == ':' ==> s[i + 1] != ':'
}

proof fn lemma_group_bound(v: u128, i: int)
    ensures
        group_at(v, i) < 0x1_0000,
{
}

proof fn lemma_run_shape(v: u128, from: int, to: int)
    requires
        from < to,
    ensures
        run_shape(group_run_text(v, from, to)),
    decreases to - from,
{
    let s = group_run_text(v, from, to);
    let last = hex_text(group_at(v, to - 1));
    lemma_group_bound(v, to - 1);
    lemma_hex_text(group_at(v, to - 1));
    assert forall|i: int| 0 <= i < last.len() implies #[trigger] last[i] != ':' by {
        assert(hex_digit_value(last[i]) is Some);
    }
    if to - from > 1 {
        lemma_run_shape(v, from, to - 1);
        let front = group_run_text(v, from, to - 1);
        reveal_strlit(":");
        assert(s == front + ":"@ + last);
        assert forall|i: int| 0 <= i < s.len() implies is_group_char(#[trigger] s[i]) by {
            if i < front.len() {
                assert(s[i] == front[i]);
            } else if i > front.len() {
                assert(s[i] == last[i - front.len() - 1]);
            }
        }
        assert forall|i: int| 0 <= i && i + 1 < s.len() && #[trigger] s[i] == ':' implies s[i + 1]
            != ':' by {
            if i + 1 < front.len() {
                assert(s[i] == front[i] && s[i + 1] == front[i + 1]);
            } else if i + 1 == front.len() {
                assert(s[i] == front.last());
            } else {
                assert(s[i + 1] == last[i - front.len()]);
            }
        }
        assert(s[0] == front[0]);
        assert(s.last() == last[last.len() - 1]);
    } else {
        assert(s == last);
        assert(s.last() == last[last.len() - 1]);
    }
}

proof fn lemma_run_is_joined(v: u128, from: int, to: int)
    requires
        from < to,
    ensures
        group_run_text(v, from, to) == join_text(run_pieces(v, from, to), seq![':']),
    decreases to - from,
{
    let pieces = run_pieces(v, from, to);
    reveal_strlit(":");
    assert(":"@ =~= seq![':']);
    if to - from > 1 {
        lemma_run_is_joined(v, from, to - 1);
        assert(pieces.drop_last() =~= run_pieces(v, from, to - 1));
    }
}

proof fn lemma_groups_of_pieces(v: u128, from: int, to: int)
    requires
        from <= to,
    ensures
        groups_of(run_pieces(v, from, to)) == Some(run_groups(v, from, to)),
    decreases to - from,
{
    let pieces = run_pieces(v, from, to);
    if from < to {
        lemma_groups_of_pieces(v, from, to - 1);
        lemma_group_bound(v, to - 1);
        lemma_hex_text(group_at(v, to - 1));
        assert(pieces.drop_last() =~= run_pieces(v, from, to - 1));
        assert(run_groups(v, from, to - 1).push(group_at(v, to - 1) as u16) =~= run_groups(
            v,
            from,
            to,
        ));
    } else {
        assert(run_groups(v, from, to) =~= Seq::<u16>::empty());
    }
}

/// A run of groups is read back, at the end of an address or not.
proof fn lemma_run_reads_back(v: u128, from: int, to: int)
    requires
        from < to,
    ensures
        ({
            let p = split_on(group_run_text(v, from, to), ':');
            &&& groups_of(p) == Some(run_groups(v, from, to))
            &&& last_groups_of(p) == Some(run_groups(v, from, to))
        }),
{
    let pieces = run_pieces(v, from, to);
    assert forall|i: int| 0 <= i < pieces.len() implies free_of(#[trigger] pieces[i], ':')
        && free_of(pieces[i], '.') by {
        lemma_group_bound(v, from + i);
        lemma_hex_text(group_at(v, from + i));
        let t = pieces[i];
        assert forall|j: int| 0 <= j < t.len() implies #[trigger] t[j] != ':' && t[j] != '.' by {
            assert(hex_digit_value(hex_text(group_at(v, from + i))[j]) is Some);
        }
    }
    lemma_run_is_joined(v, from, to);
    law_joined_pieces_are_cut_apart(pieces, ':');
    lemma_groups_of_pieces(v, from, to);
    lemma_no_dot(pieces.last());
}

/// There is no double colon in a text without two colons in a row.
proof fn lemma_no_double_colon(s: Seq<char>, from: int)
    requires
        0 <= from,
        forall|i: int| 0 <= i && i + 1 < s.len() && #[trigger] s[i] == ':' ==> s[i + 1] != ':',
    ensures
        double_colon(s, from) is None,
    decreases s.len() - from,
{
    if from + 1 < s.len() {
        lemma_no_double_colon(s, from + 1);
    }
}

/// The first double colon is found where it is.
proof fn lemma_double_colon_at(s: Seq<char>, from: int, k: int)
    requires
        0 <= from <= k,
        k + 1 < s.len(),
        s[k] == ':',
        s[k + 1] == ':',
        forall|i: int| 0 <= i < k && #[trigger] s[i] == ':' ==> s[i + 1] != ':',
    ensures
        double_colon(s, from) == Some(k),
    decreases k - from,
{
    if from < k {
        lemma_double_colon_at(s, from + 1, k);
    }
}

/// The groups of a run of zeros are zero.
proof fn lemma_zeros_before(v: u128, i: int)
    requires
        0 <= i <= 8,
    ensures
        zeros_before(v, i) <= i,
        forall|k: int| i - zeros_before(v, i) <= k < i ==> #[trigger] group_at(v, k) == 0,
    decreases i,
{
    if i > 0 {
        lemma_zeros_before(v, i - 1);
    }
}

proof fn lemma_longest_zeros(v: u128, i: int)
    requires
        0 <= i <= 8,
    ensures
        ({
            let (start, len) = longest_zeros(v, i);
            &&& start + len <= i
            &&& forall|k: int| start <= k < start + len ==> #[trigger] group_at(v, k) == 0
        }),
    decreases i,
{
    if i > 0 {
        lemma_longest_zeros(v, i - 1);
        lemma_zeros_before(v, i);
    }
}

proof fn lemma_groups_make_up(v: u128)
    ensures
        groups_value(run_groups(v, 0, 8)) == v,
{
    let g = run_groups(v, 0, 8);
    let a = v / 0x1_0000;
    let b = a / 0x1_0000;
    let c = b / 0x1_0000;
    let d = c / 0x1_0000;
    let e = d / 0x1_0000;
    let f = e / 0x1_0000;
    let h = f / 0x1_0000;
    assert(a == v / 0x1_0000);
    assert(b == v / 0x1_0000_0000);
    assert(c == v / 0x1_0000_0000_0000);
    assert(d == v / 0x1_0000_0000_0000_0000);
    assert(e == v / 0x1_0000_0000_0000_0000_0000);
    assert(f == v / 0x1_0000_0000_0000_0000_0000_0000);
    assert(h == v / 0x1_0000_0000_0000_0000_0000_0000_0000);
    assert(g[0] == h && g[1] == f % 0x1_0000 && g[2] == e % 0x1_0000 && g[3] == d % 0x1_0000
        && g[4] == c % 0x1_0000 && g[5] == b % 0x1_0000 && g[6] == a % 0x1_0000 && g[7] == v
        % 0x1_0000);
}

/// What holds of every IPv6 address as text: its groups are read back, and it
/// holds neither a closing bracket nor a percent sign.
proof fn lemma_ipv6_text(v: u128)
    ensures
        ipv4_value(ipv6_text(v)) is None,
        ipv6_groups(ipv6_text(v)) == Some(run_groups(v, 0, 8)),
        free_of(ipv6_text(v), ']'),
        free_of(ipv6_text(v), '%'),
{
    let s = ipv6_text(v);
    let (start, len) = longest_zeros(v, 8);
    lemma_longest_zeros(v, 8);
    if v / 0x1_0000_0000 == 0xffff {
        lemma_mapped_text(v);
    } else if len > 1 {
        lemma_shortened_text(v, start as int, len as int);
    } else {
        lemma_run_shape(v, 0, 8);
        lemma_group_chars(s);
        lemma_no_dot(s);
        lemma_no_double_colon(s, 0);
        lemma_run_reads_back(v, 0, 8);
    }
}

/// A text of colons and hexadecimal digits holds nothing else.
proof fn lemma_group_chars(s: Seq<char>)
    requires
        forall|i: int| 0 <= i < s.len() ==> is_group_char(#[trigger] s[i]),
    ensures
        free_of(s, '.'),
        free_of(s, ']'),
        free_of(s, '%'),
{
    assert forall|i: int| 0 <= i < s.len() implies #[trigger] s[i] != '.' && s[i] != ']' && s[i]
        != '%' by {
        assert(is_group_char(s[i]));
    }
}

proof fn lemma_mapped_text(v: u128)
    requires
        v / 0x1_0000_0000 == 0xffff,
    ensures
        ipv4_value(ipv6_text(v)) is None,
        ipv6_groups(ipv6_text(v)) == Some(run_groups(v, 0, 8)),
        free_of(ipv6_text(v), ']'),
        free_of(ipv6_text(v), '%'),
{
    let s = ipv6_text(v);
    let low = (v % 0x1_0000_0000) as u32;
    let tail = ipv4_text(low);
    let ffff = seq!['f', 'f', 'f', 'f'];
    reveal_strlit("::ffff:");
    assert(s =~= seq![':', ':'] + ffff + seq![':'] + tail);
    lemma_ipv4_text(low);
    lemma_no_digit_first(s);
    lemma_double_colon_at(s, 0, 0);
    assert(s.skip(2) =~= ffff + seq![':'] + tail);
    lemma_split_single(ffff, ':');
    lemma_split_last(ffff, ':', tail);
    let pieces = split_on(s.skip(2), ':');
    assert(pieces == seq![ffff].push(tail));
    assert(pieces.drop_last() =~= seq![ffff]);
    assert(group_of(ffff) == Some(0xffffu16)) by {
        reveal_with_fuel(hex_value, 5);
        assert(ffff.drop_last() =~= seq!['f', 'f', 'f']);
        assert(ffff.drop_last().drop_last() =~= seq!['f', 'f']);
        assert(ffff.drop_last().drop_last().drop_last() =~= seq!['f']);
        assert(ffff.drop_last().drop_last().drop_last().drop_last() =~= Seq::<char>::empty());
    }
    assert(groups_of(seq![ffff]) == Some(seq![0xffffu16])) by {
        reveal_with_fuel(groups_of, 2);
        assert(seq![ffff].drop_last() =~= Seq::<Seq<char>>::empty());
        assert(Seq::<u16>::empty().push(0xffffu16) =~= seq![0xffffu16]);
    }
    let behind = seq![0xffffu16].push((low / 0x1_0000) as u16).push((low % 0x1_0000) as u16);
    assert(groups_behind(s, 0) == Some(behind));
    let zeros = Seq::new(5nat, |i: int| 0u16);
    assert(Seq::<u16>::empty() + zeros + behind =~= run_groups(v, 0, 8)) by {
        lemma_mapped_groups(v);
    }
    assert forall|i: int| 0 <= i < s.len() implies #[trigger] s[i] != ']' && s[i] != '%' by {
        if i >= 7 {
            assert(s[i] == tail[i - 7]);
        }
    }
}

proof fn lemma_mapped_groups(v: u128)
    requires
        v / 0x1_0000_0000 == 0xffff,
    ensures
        forall|i: int| 0 <= i < 5 ==> #[trigger] group_at(v, i) == 0,
        group_at(v, 5) == 0xffff,
        group_at(v, 6) == v % 0x1_0000_0000 / 0x1_0000,
        group_at(v, 7) == v % 0x1_0000_0000 % 0x1_0000,
{
    assert(v < 0x1_0000_0000_0000);
    assert(v / 0x1_0000 / 0x1_0000 == v / 0x1_0000_0000);
}

proof fn lemma_shortened_text(v: u128, start: int, len: int)
    requires
        len > 1,
        0 <= start,
        start + len <= 8,
        v / 0x1_0000_0000 != 0xffff,
        longest_zeros(v, 8) == (start as nat, len as nat),
        forall|k: int| start <= k < start + len ==> #[trigger] group_at(v, k) == 0,
    ensures
        ipv4_value(ipv6_text(v)) is None,
        ipv6_groups(ipv6_text(v)) == Some(run_groups(v, 0, 8)),
        free_of(ipv6_text(v), ']'),
        free_of(ipv6_text(v), '%'),
{
    let s = ipv6_text(v);
    let head = group_run_text(v, 0, start);
    let tail = group_run_text(v, start + len, 8);
    let k = head.len() as int;
    reveal_strlit("::");
    assert(s == head + "::"@ + tail);
    if start > 0 {
        lemma_run_shape(v, 0, start);
        lemma_run_reads_back(v, 0, start);
    }
    if start + len < 8 {
        lemma_run_shape(v, start + len, 8);
        lemma_run_reads_back(v, start + len, 8);
    }
    assert forall|i: int| 0 <= i < s.len() implies is_group_char(#[trigger] s[i]) by {
        if i < k {
            assert(s[i] == head[i]);
        } else if i >= k + 2 {
            assert(s[i] == tail[i - k - 2]);
        }
    }
    lemma_group_chars(s);
    lemma_no_dot(s);
    assert forall|i: int| 0 <= i < k && #[trigger] s[i] == ':' implies s[i + 1] != ':' by {
        assert(s[i] == head[i]);
        if i + 1 < k {
            assert(s[i + 1] == head[i + 1]);
        } else {
            assert(head.last() == head[i]);
        }
    }
    lemma_double_colon_at(s, 0, k);
    assert(s.take(k) =~= head);
    assert(s.skip(k + 2) =~= tail);
    let before = run_groups(v, 0, start);
    let behind = run_groups(v, start + len, 8);
    assert(groups_before(s, k) == Some(before)) by {
        if start == 0 {
            assert(before =~= Seq::<u16>::empty());
        }
    }
    assert(groups_behind(s, k) == Some(behind)) by {
        if start + len == 8 {
            assert(behind =~= Seq::<u16>::empty());
        }
    }
    let zeros = Seq::new((8 - before.len() - behind.len()) as nat, |i: int| 0u16);
    assert(before + zeros + behind =~= run_groups(v, 0, 8));
}

/// An address that is written is read back as it was.
pub proof fn law_address_reads_back(ip: IpAddr)
    ensures
        ip_value(ip_text(ip)) == Some(ip),
{
    match ip {
        IpAddr::V4(v) => {
            lemma_ipv4_text(v);
        },
        IpAddr::V6(v) => {
            lemma_ipv6_text(v);
            lemma_groups_make_up(v);
        },
    }
}

/// A number as text holds no separator of an address.
proof fn lemma_number_text(n: nat)
    ensures
        free_of(decimal_text(n), ':'),
        free_of(decimal_text(n), ']'),
        free_of(decimal_text(n), '%'),
{
    let text = decimal_text(n);
    law_decimal_reads_back(n);
    assert forall|i: int| 0 <= i < text.len() implies #[trigger] text[i] != ':' && text[i] != ']'
        && text[i] != '%' by {
        assert('0' <= text[i] <= '9');
    }
}

#[verifier::spinoff_prover]
proof fn lemma_socket_v4_text(v: u32, port: u16)
    ensures
        ({
            let addr = SocketAddr { ip: IpAddr::V4(v), port, scope: 0 };
            socket_value(socket_text(addr)) == Some(addr)
        }),
{
    let addr = SocketAddr { ip: IpAddr::V4(v), port, scope: 0 };
    let s = socket_text(addr);
    let host = ipv4_text(v);
    let port_text = decimal_text(port as nat);
    law_decimal_reads_back(port as nat);
    lemma_number_text(port as nat);
    reveal_strlit(":");
    assert(s =~= host + seq![':'] + port_text);
    lemma_ipv4_text(v);
    lemma_split_single(host, ':');
    lemma_split_last(host, ':', port_text);
}

/// The host of an IPv6 address with a port, as it stands between brackets.
spec fn bracketed(v: u128, scope: u32) -> Seq<char> {
    if scope == 0 {
        ipv6_text(v)
    } else {
        ipv6_text(v) + seq!['%'] + decimal_text(scope as nat)
    }
}

#[verifier::spinoff_prover]
proof fn lemma_bracketed_is_closed(v: u128, scope: u32)
    ensures
        free_of(seq!['['] + bracketed(v, scope), ']'),
{
    let front = seq!['['] + bracketed(v, scope);
    let text = decimal_text(scope as nat);
    let n = ipv6_text(v).len() as int;
    lemma_ipv6_text(v);
    lemma_number_text(scope as nat);
    assert forall|i: int| 0 <= i < front.len() implies #[trigger] front[i] != ']' by {
        if 1 <= i <= n {
            assert(front[i] == ipv6_text(v)[i - 1]);
        } else if i > n + 1 {
            assert(front[i] == text[i - n - 2]);
        }
    }
}

#[verifier::spinoff_prover]
proof fn lemma_socket_v6_text(v: u128, port: u16, scope: u32)
    ensures
        ({
            let addr = SocketAddr { ip: IpAddr::V6(v), port, scope };
            socket_value(socket_text(addr)) == Some(addr)
        }),
{
    let addr = SocketAddr { ip: IpAddr::V6(v), port, scope };
    let s = socket_text(addr);
    let port_text = decimal_text(port as nat);
    let scope_text = decimal_text(scope as nat);
    let host = bracketed(v, scope);
    let front = seq!['['] + host;
    let back = seq![':'] + port_text;
    law_decimal_reads_back(port as nat);
    law_decimal_reads_back(scope as nat);
    lemma_number_text(port as nat);
    lemma_number_text(scope as nat);
    reveal_strlit("[");
    reveal_strlit("]:");
    reveal_strlit("%");
    assert(s =~= front + seq![']'] + back);
    lemma_ipv6_text(v);
    lemma_groups_make_up(v);
    lemma_bracketed_is_closed(v, scope);
    lemma_split_single(front, ']');
    lemma_split_last(front, ']', back);
    assert(front.drop_first() =~= host);
    assert(back.drop_first() =~= port_text);
    lemma_split_single(ipv6_text(v), '%');
    lemma_split_last(ipv6_text(v), '%', scope_text);
    assert(socket_v4_value(s) is None) by {
        assert(s[0] == '[');
        lemma_split_first(s, ':');
        lemma_no_digit_first(split_on(s, ':')[0]);
    }
}

/// An address with a port that is written is read back as it was. (The scope
/// of an IPv4 address is not written.)
pub proof fn law_socket_address_reads_back(addr: SocketAddr)
    requires
        addr.ip is V4 ==> addr.scope == 0,
    ensures
        socket_value(socket_text(addr)) == Some(addr),
{
    match addr.ip {
        IpAddr::V4(v) => {
            lemma_socket_v4_text(v, addr.port);
        },
        IpAddr::V6(v) => {
            lemma_socket_v6_text(v, addr.port, addr.scope);
        },
    }
}

/// Four numbers up to 255 with dots between them are the IPv4 address whose
/// bytes they are, and its text is written so.
#[verifier::spinoff_prover]
pub proof fn law_ipv4_by_its_bytes(a: u8, b: u8, c: u8, d: u8)
    ensures
        ({
            let v = a * 0x100_0000 + b * 0x1_0000 + c * 0x100 + d;
            let s = decimal_text(a as nat) + seq!['.'] + decimal_text(b as nat) + seq!['.']
                + decimal_text(c as nat) + seq!['.'] + decimal_text(d as nat);
            &&& ip_value(s) == Some(IpAddr::V4(v as u32))
            &&& ip_text(IpAddr::V4(v as u32)) == s
        }),
{
    let v = (a * 0x100_0000 + b * 0x1_0000 + c * 0x100 + d) as u32;
    let s = decimal_text(a as nat) + seq!['.'] + decimal_text(b as nat) + seq!['.']
        + decimal_text(c as nat) + seq!['.'] + decimal_text(d as nat);
    lemma_bytes_of_v4(a, b, c, d);
    assert("."@ == seq!['.']) by {
        reveal_strlit(".");
        assert("."@ =~= seq!['.']);
    }
    lemma_ipv4_text(v);
}

proof fn lemma_bytes_of_v4(a: u8, b: u8, c: u8, d: u8)
    ensures
        ({
            let v = (a * 0x100_0000 + b * 0x1_0000 + c * 0x100 + d) as u32;
            &&& v == a * 0x100_0000 + b * 0x1_0000 + c * 0x100 + d
            &&& v / 0x100_0000 == a
            &&& v / 0x1_0000 % 0x100 == b
            &&& v / 0x100 % 0x100 == c
            &&& v % 0x100 == d
        }),
{
}

/// A part of an IPv4 address is a number up to 255, without zeros in front.
pub proof fn law_parts_of_ipv4(n: nat, digits: Seq<char>)
    ensures
        n <= 255 ==> octet_value(decimal_text(n)) == Some(n),
        n > 255 ==> octet_value(decimal_text(n)) is None,
        digits.len() > 0 ==> octet_value(seq!['0'] + digits) is None,
{
    law_decimal_reads_back(n);
    if n <= 255 {
        lemma_decimal_len(n);
        if n > 0 {
            assert(decimal_text(n)[0] != '0');
        }
    }
}

/// The groups of an IPv6 address stand in the order in which they are written,
/// the most significant first.
#[verifier::spinoff_prover]
pub proof fn law_groups_are_in_order(g: Seq<u16>)
    requires
        g.len() == 8,
    ensures
        groups_value(g) <= u128::MAX,
        group_at(groups_value(g) as u128, 0) == g[0],
        group_at(groups_value(g) as u128, 1) == g[1],
        group_at(groups_value(g) as u128, 2) == g[2],
        group_at(groups_value(g) as u128, 3) == g[3],
        group_at(groups_value(g) as u128, 4) == g[4],
        group_at(groups_value(g) as u128, 5) == g[5],
        group_at(groups_value(g) as u128, 6) == g[6],
        group_at(groups_value(g) as u128, 7) == g[7],
{
    let v = groups_value(g) as int;
    let h1 = g[0] * 0x1_0000 + g[1];
    let h2 = h1 * 0x1_0000 + g[2];
    let h3 = h2 * 0x1_0000 + g[3];
    let h4 = h3 * 0x1_0000 + g[4];
    let h5 = h4 * 0x1_0000 + g[5];
    let h6 = h5 * 0x1_0000 + g[6];
    let h7 = h6 * 0x1_0000 + g[7];
    assert(v == h7);
    lemma_cut_off_group(h6, g[7] as int);
    lemma_cut_off_group(h5, g[6] as int);
    lemma_cut_off_group(h4, g[5] as int);
    lemma_cut_off_group(h3, g[4] as int);
    lemma_cut_off_group(h2, g[3] as int);
    lemma_cut_off_group(h1, g[2] as int);
    lemma_cut_off_group(g[0] as int, g[1] as int);
    lemma_div_denominator(v, 0x1_0000, 0x1_0000);
    lemma_div_denominator(v, 0x1_0000_0000, 0x1_0000);
    lemma_div_denominator(v, 0x1_0000_0000_0000, 0x1_0000);
    lemma_div_denominator(v, 0x1_0000_0000_0000_0000, 0x1_0000);
    lemma_div_denominator(v, 0x1_0000_0000_0000_0000_0000, 0x1_0000);
    lemma_div_denominator(v, 0x1_0000_0000_0000_0000_0000_0000, 0x1_0000);
}

proof fn lemma_cut_off_group(front: int, group: int)
    requires
        0 <= front,
        0 <= group < 0x1_0000,
    ensures
        (front * 0x1_0000 + group) / 0x1_0000 == front,
        (front * 0x1_0000 + group) % 0x1_0000 == group,
{
}

/// An address with a port is written as the address, a colon and the port; an
/// IPv6 address comes in brackets.
pub proof fn law_socket_text_layout(ip: IpAddr, port: u16)
    ensures
        ip is V4 ==> socket_text(SocketAddr { ip, port, scope: 0 }) == ip_text(ip) + ":"@
            + decimal_text(port as nat),
        ip is V6 ==> socket_text(SocketAddr { ip, port, scope: 0 }) == "["@ + ip_text(ip) + "]:"@
            + decimal_text(port as nat),
{
}

/// An IPv6 address without a zero group, and not mapped from IPv4, is written
/// in eight groups of hexadecimal digits with colons between them.
pub proof fn law_ipv6_text_in_groups(v: u128)
    requires
        v / 0x1_0000_0000 != 0xffff,
        forall|i: int| 0 <= i < 8 ==> #[trigger] group_at(v, i) != 0,
    ensures
        ip_text(IpAddr::V6(v)) == hex_text(group_at(v, 0)) + ":"@ + hex_text(group_at(v, 1)) + ":"@
            + hex_text(group_at(v, 2)) + ":"@ + hex_text(group_at(v, 3)) + ":"@ + hex_text(
            group_at(v, 4),
        ) + ":"@ + hex_text(group_at(v, 5)) + ":"@ + hex_text(group_at(v, 6)) + ":"@ + hex_text(
            group_at(v, 7),
        ),
{
    lemma_no_zeros(v, 8);
    reveal_with_fuel(group_run_text, 9);
}

proof fn lemma_no_zeros(v: u128, i: int)
    requires
        0 <= i <= 8,
        forall|k: int| 0 <= k < i ==> #[trigger] group_at(v, k) != 0,
    ensures
        longest_zeros(v, i) == (0nat, 0nat),
        zeros_before(v, i) == 0,
    decreases i,
{
    if i > 0 {
        assert(group_at(v, i - 1) != 0);
        lemma_no_zeros(v, i - 1);
    }
}

/// Where an IPv6 address has a run of two or more zero groups and no other zero
/// group, the run is written as a double colon between the other groups.
pub proof fn law_ipv6_text_with_a_run(v: u128, start: int, len: int)
    requires
        v / 0x1_0000_0000 != 0xffff,
        0 <= start,
        2 <= len,
        start + len <= 8,
        forall|i: int|
            0 <= i < 8 ==> (#[trigger] group_at(v, i) == 0 <==> start <= i < start + len),
    ensures
        ip_text(IpAddr::V6(v)) == group_run_text(v, 0, start) + "::"@ + group_run_text(
            v,
            start + len,
            8,
        ),
{
    lemma_one_run(v, start, len, 8);
}

proof fn lemma_one_run(v: u128, start: int, len: int, i: int)
    requires
        0 <= start,
        2 <= len,
        start + len <= 8,
        0 <= i <= 8,
        forall|k: int|
            0 <= k < 8 ==> (#[trigger] group_at(v, k) == 0 <==> start <= k < start + len),
    ensures
        i <= start ==> longest_zeros(v, i).1 == 0 && zeros_before(v, i) == 0,
        start < i <= start + len ==> longest_zeros(v, i) == (start as nat, (i - start) as nat)
            && zeros_before(v, i) == i - start,
        i > start + len ==> longest_zeros(v, i) == (start as nat, len as nat) && zeros_before(v, i)
            == 0,
    decreases i,
{
    if i > 0 {
        lemma_one_run(v, start, len, i - 1);
        assert(group_at(v, i - 1) == 0 <==> start <= i - 1 < start + len);
    }
}

/// Groups are written one after the other with colons between them.
pub proof fn law_runs_of_groups(v: u128, from: int, to: int)
    requires
        0 <= from < to <= 8,
    ensures
        group_run_text(v, from, from + 1) == hex_text(group_at(v, from)),
        from + 1 < to ==> group_run_text(v, from, to) == group_run_text(v, from, to - 1) + ":"@
            + hex_text(group_at(v, to - 1)),
        group_run_text(v, from, from).len() == 0,
{
}

/// A number in hexadecimal stands for the number, and is written without zeros
/// in front and with small letters.
pub proof fn law_hexadecimal_reads_back(n: nat)
    ensures
        hex_text(n).len() > 0,
        hex_value(hex_text(n)) == Some(n),
        n > 0 ==> hex_text(n)[0] != '0',
        forall|i: int|
            0 <= i < hex_text(n).len() ==> ('0' <= #[trigger] hex_text(n)[i] <= '9' || 'a'
                <= hex_text(n)[i] <= 'f'),
    decreases n,
{
    let s = hex_text(n);
    if n < 16 {
        assert(s.drop_last() =~= Seq::<char>::empty());
        assert(hex_value(s.drop_last()) == Some(0nat));
    } else {
        law_hexadecimal_reads_back(n / 16);
        assert(s.drop_last() =~= hex_text(n / 16));
    }
}

/// Hexadecimal digits stand for 0 to 15, in small letters and in capitals.
pub proof fn law_hexadecimal_digits(d: nat)
    requires
        d < 16,
    ensures
        hex_digit_value(hex_char(d as int)) == Some(d),
        d < 10 ==> hex_char(d as int) as nat == '0' as nat + d,
        d >= 10 ==> hex_char(d as int) as nat == 'a' as nat + d - 10,
        d >= 10 ==> hex_digit_value(('A' as nat + d - 10) as char) == Some(d),
{
}

/// A group of an IPv6 address has up to four hexadecimal digits, in any case
/// and with zeros in front.
pub proof fn law_groups_are_read(s: Seq<char>, c: char)
    ensures
        group_of(Seq::empty()) is None,
        s.len() > 4 ==> group_of(s) is None,
        s.len() < 4 && hex_value(s) is Some && hex_digit_value(c) is Some ==> group_of(s.push(c))
            == Some((hex_value(s).unwrap() * 16 + hex_digit_value(c).unwrap()) as u16),
        hex_digit_value(c) is None ==> group_of(s.push(c)) is None,
        hex_value(Seq::empty()) == Some(0nat),
{
    assert(s.push(c).drop_last() =~= s);
}

proof fn lemma_hex_digits_only(s: Seq<char>, i: int)
    requires
        hex_value(s) is Some,
        0 <= i < s.len(),
    ensures
        hex_digit_value(s[i]) is Some,
    decreases s.len(),
{
    if i < s.len() - 1 {
        lemma_hex_digits_only(s.drop_last(), i);
    }
}

/// Whether pieces are the groups of a part of an IPv6 address.
pub open spec fn pieces_are(pieces: Seq<Seq<char>>, groups: Seq<u16>) -> bool {
    &&& pieces.len() == groups.len()
    &&& forall|i: int| 0 <= i < pieces.len() ==> group_of(#[trigger] pieces[i]) == Some(groups[i])
}

proof fn lemma_pieces_are_groups(pieces: Seq<Seq<char>>, groups: Seq<u16>)
    requires
        pieces_are(pieces, groups),
    ensures
        groups_of(pieces) == Some(groups),
    decreases pieces.len(),
{
    if pieces.len() > 0 {
        let fewer = pieces.drop_last();
        assert forall|i: int| 0 <= i < fewer.len() implies group_of(#[trigger] fewer[i]) == Some(
            groups.drop_last()[i],
        ) by {
            assert(fewer[i] == pieces[i]);
        }
        lemma_pieces_are_groups(fewer, groups.drop_last());
        assert(pieces.last() == pieces[pieces.len() - 1]);
        assert(groups.drop_last().push(groups.last()) =~= groups);
    } else {
        assert(groups =~= Seq::<u16>::empty());
    }
}

proof fn lemma_joined_shape(pieces: Seq<Seq<char>>, groups: Seq<u16>)
    requires
        pieces_are(pieces, groups),
        pieces.len() > 0,
    ensures
        run_shape(join_text(pieces, seq![':'])),
        split_on(join_text(pieces, seq![':']), ':') == pieces,
        groups_of(pieces) == Some(groups),
        last_groups_of(pieces) == Some(groups),
{
    assert forall|i: int| 0 <= i < pieces.len() implies free_of(#[trigger] pieces[i], ':')
        && free_of(pieces[i], '.') by {
        let t = pieces[i];
        assert(group_of(t) is Some);
        assert forall|j: int| 0 <= j < t.len() implies #[trigger] t[j] != ':' && t[j] != '.' by {
            lemma_hex_digits_only(t, j);
        }
    }
    law_joined_pieces_are_cut_apart(pieces, ':');
    lemma_pieces_are_groups(pieces, groups);
    assert(pieces.last() == pieces[pieces.len() - 1]);
    lemma_no_dot(pieces.last());
    lemma_joined_run_shape(pieces, groups);
}

proof fn lemma_joined_run_shape(pieces: Seq<Seq<char>>, groups: Seq<u16>)
    requires
        pieces_are(pieces, groups),
        pieces.len() > 0,
    ensures
        run_shape(join_text(pieces, seq![':'])),
    decreases pieces.len(),
{
    let s = join_text(pieces, seq![':']);
    let last = pieces[pieces.len() - 1];
    assert(group_of(last) is Some);
    assert forall|i: int| 0 <= i < last.len() implies hex_digit_value(#[trigger] last[i]) is Some by {
        lemma_hex_digits_only(last, i);
    }
    assert forall|i: int| 0 <= i < last.len() implies #[trigger] last[i] != ':' by {
        assert(hex_digit_value(last[i]) is Some);
    }
    if pieces.len() > 1 {
        let fewer = pieces.drop_last();
        assert forall|i: int| 0 <= i < fewer.len() implies group_of(#[trigger] fewer[i]) == Some(
            groups.drop_last()[i],
        ) by {
            assert(fewer[i] == pieces[i]);
        }
        lemma_joined_run_shape(fewer, groups.drop_last());
        let front = join_text(fewer, seq![':']);
        assert(s == front + seq![':'] + last);
        assert forall|i: int| 0 <= i < s.len() implies is_group_char(#[trigger] s[i]) by {
            if i < front.len() {
                assert(s[i] == front[i]);
            } else if i > front.len() {
                assert(s[i] == last[i - front.len() - 1]);
            }
        }
        assert forall|i: int| 0 <= i && i + 1 < s.len() && #[trigger] s[i] == ':' implies s[i + 1]
            != ':' by {
            if i + 1 < front.len() {
                assert(s[i] == front[i] && s[i + 1] == front[i + 1]);
            } else if i + 1 == front.len() {
                assert(s[i] == front.last());
            } else {
                assert(s[i + 1] == last[i - front.len()]);
            }
        }
        assert(s[0] == front[0]);
        assert(s.last() == last[last.len() - 1]);
    } else {
        assert(s == last);
        assert(s.last() == last[last.len() - 1]);
    }
}

/// Eight groups with colons between them are the IPv6 address that they make
/// up.
pub proof fn law_ipv6_in_full(pieces: Seq<Seq<char>>, groups: Seq<u16>)
    requires
        pieces_are(pieces, groups),
        pieces.len() == 8,
    ensures
        ip_value(join_text(pieces, seq![':'])) == Some(IpAddr::V6(groups_value(groups) as u128)),
{
    let s = join_text(pieces, seq![':']);
    lemma_joined_shape(pieces, groups);
    lemma_no_double_colon(s, 0);
    lemma_group_chars(s);
    lemma_no_dot(s);
}

/// Fewer groups than eight around a double colon are the IPv6 address that has
/// zeros in place of the colons.
pub proof fn law_ipv6_shortened(
    head: Seq<Seq<char>>,
    front: Seq<u16>,
    tail: Seq<Seq<char>>,
    back: Seq<u16>,
)
    requires
        pieces_are(head, front),
        pieces_are(tail, back),
        head.len() + tail.len() <= 7,
    ensures
        ip_value(join_text(head, seq![':']) + seq![':', ':'] + join_text(tail, seq![':'])) == Some(
            IpAddr::V6(
                groups_value(
                    front + Seq::new((8 - front.len() - back.len()) as nat, |i: int| 0u16) + back,
                ) as u128,
            ),
        ),
{
    let a = join_text(head, seq![':']);
    let b = join_text(tail, seq![':']);
    let s = a + seq![':', ':'] + b;
    let k = a.len() as int;
    if head.len() > 0 {
        lemma_joined_shape(head, front);
    }
    if tail.len() > 0 {
        lemma_joined_shape(tail, back);
    }
    assert forall|i: int| 0 <= i < s.len() implies is_group_char(#[trigger] s[i]) by {
        if i < k {
            assert(s[i] == a[i]);
        } else if i >= k + 2 {
            assert(s[i] == b[i - k - 2]);
        }
    }
    lemma_group_chars(s);
    lemma_no_dot(s);
    assert forall|i: int| 0 <= i < k && #[trigger] s[i] == ':' implies s[i + 1] != ':' by {
        assert(s[i] == a[i]);
        if i + 1 < k {
            assert(s[i + 1] == a[i + 1]);
        } else {
            assert(a.last() == a[i]);
        }
    }
    lemma_double_colon_at(s, 0, k);
    assert(s.take(k) =~= a);
    assert(s.skip(k + 2) =~= b);
    assert(groups_before(s, k) == Some(front)) by {
        if head.len() == 0 {
            assert(front =~= Seq::<u16>::empty());
        }
    }
    assert(groups_behind(s, k) == Some(back)) by {
        if tail.len() == 0 {
            assert(back =~= Seq::<u16>::empty());
        }
    }
}

/// The local host of IPv4 is 127.0.0.1.
pub proof fn law_local_host()
    ensures
        LOCALHOST_V4 == 127 * 0x100_0000 + 1,
{
}

proof fn lemma_joined_chars(pieces: Seq<Seq<char>>, sep: char, i: int)
    requires
        0 <= i < join_text(pieces, seq![sep]).len(),
        forall|k: int| 0 <= k < pieces.len() ==> all_digits(#[trigger] pieces[k]),
    ensures
        ({
            let c = join_text(pieces, seq![sep])[i];
            c == sep || '0' <= c <= '9'
        }),
    decreases pieces.len(),
{
    let s = join_text(pieces, seq![sep]);
    if pieces.len() > 0 {
        let last = pieces[pieces.len() - 1];
        assert(all_digits(last));
        if pieces.len() > 1 {
            let front = join_text(pieces.drop_last(), seq![sep]);
            assert(s == front + seq![sep] + last);
            if i < front.len() {
                assert(s[i] == front[i]);
                lemma_joined_chars(pieces.drop_last(), sep, i);
            } else if i > front.len() {
                assert(s[i] == last[i - front.len() - 1]);
            }
        } else {
            assert(s == last);
        }
    }
}

/// An IPv4 address has four parts, and no character but digits and dots.
pub proof fn law_ipv4_holds_digits_and_dots(s: Seq<char>, i: int)
    requires
        ipv4_value(s) is Some,
        0 <= i < s.len(),
    ensures
        s[i] == '.' || '0' <= s[i] <= '9',
        split_on(s, '.').len() == 4,
{
    law_cut_pieces_make_up_the_text(s, '.');
    let pieces = split_on(s, '.');
    assert forall|k: int| 0 <= k < pieces.len() implies all_digits(#[trigger] pieces[k]) by {
        assert(octet_value(pieces[k]) is Some);
    }
    lemma_joined_chars(pieces, '.', i);
}

/// Groups in another number than eight, without a double colon, are no
/// address.
pub proof fn law_ipv6_has_eight_groups(pieces: Seq<Seq<char>>, groups: Seq<u16>)
    requires
        pieces_are(pieces, groups),
        pieces.len() > 0,
        pieces.len() != 8,
    ensures
        ip_value(join_text(pieces, seq![':'])) is None,
{
    let s = join_text(pieces, seq![':']);
    lemma_joined_shape(pieces, groups);
    lemma_no_double_colon(s, 0);
    lemma_group_chars(s);
    lemma_no_dot(s);
}

/// A double colon stands for one group at least.
pub proof fn law_double_colon_stands_for_a_group(
    head: Seq<Seq<char>>,
    front: Seq<u16>,
    tail: Seq<Seq<char>>,
    back: Seq<u16>,
)
    requires
        pieces_are(head, front),
        pieces_are(tail, back),
        head.len() + tail.len() > 7,
    ensures
        ip_value(join_text(head, seq![':']) + seq![':', ':'] + join_text(tail, seq![':'])) is None,
{
    let a = join_text(head, seq![':']);
    let b = join_text(tail, seq![':']);
    let s = a + seq![':', ':'] + b;
    let k = a.len() as int;
    if head.len() > 0 {
        lemma_joined_shape(head, front);
    }
    if tail.len() > 0 {
        lemma_joined_shape(tail, back);
    }
    if ipv4_value(s) is Some {
        law_ipv4_holds_digits_and_dots(s, k);
        assert(s[k] == ':');
    }
    assert(s.take(k) =~= a);
    lemma_double_colon_behind(s, a);
    assert(s.skip(k + 2) =~= b);
    assert(groups_before(s, k) == Some(front)) by {
        if head.len() == 0 {
            assert(front =~= Seq::<u16>::empty());
        }
    }
    assert(groups_behind(s, k) == Some(back)) by {
        if tail.len() == 0 {
            assert(back =~= Seq::<u16>::empty());
        }
    }
}

proof fn lemma_double_colon_behind(s: Seq<char>, a: Seq<char>)
    requires
        s.len() >= a.len() + 2,
        s.take(a.len() as int) == a,
        s[a.len() as int] == ':',
        s[a.len() as int + 1] == ':',
        a.len() > 0 ==> run_shape(a),
    ensures
        double_colon(s, 0) == Some(a.len() as int),
{
    let k = a.len() as int;
    assert forall|i: int| 0 <= i < k && #[trigger] s[i] == ':' implies s[i + 1] != ':' by {
        assert(s.take(k)[i] == s[i]);
        if i + 1 < k {
            assert(s.take(k)[i + 1] == s[i + 1]);
        } else {
            assert(a.last() == a[i]);
        }
    }
    lemma_double_colon_at(s, 0, k);
}

proof fn lemma_pieces_and_ipv4(pieces: Seq<Seq<char>>, groups: Seq<u16>, v: u32)
    requires
        pieces_are(pieces, groups),
    ensures
        ({
            let all = pieces.push(ipv4_text(v));
            let joined = join_text(all, seq![':']);
            &&& split_on(joined, ':') == all
            &&& last_groups_of(all) == Some(
                groups.push((v / 0x1_0000) as u16).push((v % 0x1_0000) as u16),
            )
            &&& joined.len() > 0
            &&& pieces.len() > 0 ==> joined == join_text(pieces, seq![':']) + seq![':']
                + ipv4_text(v)
        }),
{
    let all = pieces.push(ipv4_text(v));
    lemma_ipv4_text(v);
    assert forall|i: int| 0 <= i < all.len() implies free_of(#[trigger] all[i], ':') by {
        if i < pieces.len() {
            let t = pieces[i];
            assert(group_of(t) is Some);
            assert forall|j: int| 0 <= j < t.len() implies #[trigger] t[j] != ':' by {
                lemma_hex_digits_only(t, j);
            }
        }
    }
    law_joined_pieces_are_cut_apart(all, ':');
    lemma_pieces_are_groups(pieces, groups);
    assert(all.drop_last() =~= pieces);
    assert(all.last() == ipv4_text(v));
    if ipv4_text(v).len() == 0 {
        lemma_no_dot(ipv4_text(v));
    }
}

/// An IPv4 address may stand for the last two groups of an IPv6 address, with
/// a double colon in front or without.
pub proof fn law_ipv6_ends_in_ipv4(
    head: Seq<Seq<char>>,
    front: Seq<u16>,
    tail: Seq<Seq<char>>,
    back: Seq<u16>,
    v: u32,
)
    requires
        pieces_are(head, front),
        pieces_are(tail, back),
    ensures
        ({
            let last = back.push((v / 0x1_0000) as u16).push((v % 0x1_0000) as u16);
            let text = join_text(tail.push(ip_text(IpAddr::V4(v))), seq![':']);
            &&& tail.len() == 6 ==> ip_value(text) == Some(
                IpAddr::V6(groups_value(last) as u128),
            )
            &&& head.len() + tail.len() <= 5 ==> ip_value(
                join_text(head, seq![':']) + seq![':', ':'] + text,
            ) == Some(
                IpAddr::V6(
                    groups_value(
                        front + Seq::new((8 - front.len() - last.len()) as nat, |i: int| 0u16)
                            + last,
                    ) as u128,
                ),
            )
        }),
{
    let last = back.push((v / 0x1_0000) as u16).push((v % 0x1_0000) as u16);
    let t = ipv4_text(v);
    let b = join_text(tail.push(t), seq![':']);
    lemma_ipv4_text(v);
    lemma_pieces_and_ipv4(tail, back, v);
    if tail.len() == 6 {
        let c = join_text(tail, seq![':']);
        lemma_joined_shape(tail, back);
        assert(b == c + seq![':'] + t);
        assert(b[c.len() as int] == ':');
        if ipv4_value(b) is Some {
            law_ipv4_holds_digits_and_dots(b, c.len() as int);
        }
        assert forall|i: int| 0 <= i && i + 1 < b.len() && #[trigger] b[i] == ':' implies b[i + 1]
            != ':' by {
            if i + 1 < c.len() {
                assert(b[i] == c[i] && b[i + 1] == c[i + 1]);
            } else if i + 1 == c.len() {
                assert(b[i] == c.last());
            } else {
                assert(b[i + 1] == t[i - c.len()]);
            }
        }
        lemma_no_double_colon(b, 0);
    }
    if head.len() + tail.len() <= 5 {
        let a = join_text(head, seq![':']);
        let s = a + seq![':', ':'] + b;
        let k = a.len() as int;
        if head.len() > 0 {
            lemma_joined_shape(head, front);
        }
        if ipv4_value(s) is Some {
            law_ipv4_holds_digits_and_dots(s, k);
            assert(s[k] == ':');
        }
        assert(s.take(k) =~= a);
        assert(s.skip(k + 2) =~= b);
        lemma_double_colon_behind(s, a);
        assert(groups_before(s, k) == Some(front)) by {
            if head.len() == 0 {
                assert(front =~= Seq::<u16>::empty());
            }
        }
        assert(groups_behind(s, k) == Some(last));
    }
}

/// An IPv4 address and a port, zeros in front of it or not, with a colon
/// between them are the address with the port.
pub proof fn law_ipv4_with_a_port(v: u32, port: Seq<char>)
    requires
        free_of(port, ':'),
    ensures
        socket_value(ip_text(IpAddr::V4(v)) + seq![':'] + port) == (if port.len() > 0 && all_digits(
            port,
        ) && digits_value(port) <= 65535 {
            Some(SocketAddr { ip: IpAddr::V4(v), port: digits_value(port) as u16, scope: 0 })
        } else {
            None
        }),
{
    let host = ipv4_text(v);
    let s = host + seq![':'] + port;
    lemma_ipv4_text(v);
    lemma_split_single(host, ':');
    lemma_split_last(host, ':', port);
    if host.len() == 0 {
        lemma_no_dot(host);
    }
    law_ipv4_holds_digits_and_dots(host, 0);
    assert(s[0] == host[0]);
    lemma_split_first(s, ']');
}

/// An IPv6 address in brackets and a port are the address with the port, and a
/// number behind a percent sign is its scope.
pub proof fn law_ipv6_with_a_port(a: Seq<char>, v: u128, scope: Seq<char>, port: Seq<char>)
    requires
        ip_value(a) == Some(IpAddr::V6(v)),
        free_of(a, ']'),
        free_of(a, '%'),
        scope.len() > 0,
        all_digits(scope),
        digits_value(scope) <= 0xffff_ffff,
        port.len() > 0,
        all_digits(port),
        digits_value(port) <= 65535,
    ensures
        socket_value(seq!['['] + a + seq![']', ':'] + port) == Some(
            SocketAddr { ip: IpAddr::V6(v), port: digits_value(port) as u16, scope: 0 },
        ),
        socket_value(seq!['['] + a + seq!['%'] + scope + seq![']', ':'] + port) == Some(
            SocketAddr {
                ip: IpAddr::V6(v),
                port: digits_value(port) as u16,
                scope: digits_value(scope) as u32,
            },
        ),
{
    let b = a + seq!['%'] + scope;
    assert forall|i: int| 0 <= i < scope.len() implies #[trigger] scope[i] != ']' && scope[i]
        != '%' by {
        assert('0' <= scope[i] <= '9');
    }
    assert forall|i: int| 0 <= i < b.len() implies #[trigger] b[i] != ']' by {
        if i < a.len() {
            assert(b[i] == a[i]);
        } else if i > a.len() {
            assert(b[i] == scope[i - a.len() - 1]);
        }
    }
    lemma_split_single(a, '%');
    lemma_split_last(a, '%', scope);
    lemma_groups_fit(ipv6_groups(a).unwrap());
    lemma_in_brackets(a, port);
    lemma_in_brackets(b, port);
    assert(seq!['['] + b + seq![']', ':'] + port =~= seq!['['] + a + seq!['%'] + scope + seq![
        ']',
        ':',
    ] + port);
}

proof fn lemma_groups_fit(g: Seq<u16>)
    requires
        g.len() == 8,
    ensures
        groups_value(g) <= u128::MAX,
{
}

proof fn lemma_in_brackets(host: Seq<char>, port: Seq<char>)
    requires
        free_of(host, ']'),
        port.len() > 0,
        all_digits(port),
        digits_value(port) <= 65535,
    ensures
        socket_value(seq!['['] + host + seq![']', ':'] + port) == (match scoped_v6_value(host) {
            Some((v, scope)) => Some(
                SocketAddr {
                    ip: IpAddr::V6(v as u128),
                    port: digits_value(port) as u16,
                    scope: scope as u32,
                },
            ),
            None => None,
        }),
{
    let s = seq!['['] + host + seq![']', ':'] + port;
    let front = seq!['['] + host;
    let back = seq![':'] + port;
    assert forall|i: int| 0 <= i < front.len() implies #[trigger] front[i] != ']' by {
        if i > 0 {
            assert(front[i] == host[i - 1]);
        }
    }
    assert forall|i: int| 0 <= i < back.len() implies #[trigger] back[i] != ']' by {
        if i > 0 {
            assert('0' <= port[i - 1] <= '9');
            assert(back[i] == port[i - 1]);
        }
    }
    assert(s =~= front + seq![']'] + back);
    lemma_split_single(front, ']');
    lemma_split_last(front, ']', back);
    assert(front.drop_first() =~= host);
    assert(back.drop_first() =~= port);
    assert(socket_v4_value(s) is None) by {
        lemma_split_first(s, ':');
        lemma_no_digit_first(split_on(s, ':')[0]);
    }
}

} // verus!
