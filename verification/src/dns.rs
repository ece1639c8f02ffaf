//! Names: DNS queries, their answers, and the order in which servers are
//! asked.

use vstd::prelude::*;
use vstd::string::*;
use vstd::utf8::encode_utf8;

use crate::ip::{format_ip, ip_text, IpAddr};
use crate::octets::{
    be2, be_number, be_u16_at, be_u32_at, be_value, lemma_be_2, lemma_be_4,
};
use crate::text::{free_of, lemma_split_nonempty, lemma_split_single, split_on, split_text};

verus! {

/// The query type for IPv4 addresses.
pub const QTYPE_A: u16 = 1;

/// The query type for IPv6 addresses.
pub const QTYPE_AAAA: u16 = 28;

/// The labels of a name as a query carries them: the length of each in one
/// byte and its text. Of a length over 255 the byte keeps the low eight bits.
pub open spec fn label_bytes(labels: Seq<Seq<char>>) -> Seq<u8>
    decreases labels.len(),
{
    if labels.len() == 0 {
        Seq::empty()
    } else {
        let text = encode_utf8(labels.last());
        label_bytes(labels.drop_last()) + seq![(text.len() % 256) as u8] + text
    }
}

/// The fixed start of a query: the identifier, recursion desired, and one
/// question.
pub open spec fn query_header() -> Seq<u8> {
    seq![0x12u8, 0x34u8, 1u8, 0u8, 0u8, 1u8, 0u8, 0u8, 0u8, 0u8, 0u8, 0u8]
}

/// The query for the records of a type that a host has.
pub open spec fn dns_query(host: Seq<char>, qtype: u16) -> Seq<u8> {
    query_header() + label_bytes(split_on(host, '.')) + seq![0u8] + be2(qtype as nat) + seq![
        0u8,
        1u8,
    ]
}

/// Makes the query for the records of a type that a host has.
pub fn build_dns_query(host: &str, qtype: u16) -> (msg: Vec<u8>)
    ensures
        msg@ == dns_query(host@, qtype),
{
    let mut msg: Vec<u8> = Vec::with_capacity(128);
    msg.push(0x12);
    msg.push(0x34);
    msg.push(1);
    msg.push(0);
    msg.push(0);
    msg.push(1);
    let mut zeros: usize = 0;
    while zeros < 6
        invariant
            zeros <= 6,
            msg@.len() == 6 + zeros,
            msg@ =~= query_header().take(6 + zeros),
        decreases 6 - zeros,
    {
        msg.push(0);
        zeros = zeros + 1;
    }
    let labels = split_text(host, '.');
    let ghost all = split_on(host@, '.');
    let mut i: usize = 0;
    assert(all.take(0) =~= Seq::<Seq<char>>::empty());
    assert(msg@ =~= query_header() + label_bytes(all.take(0)));
    while i < labels.len()
        invariant
            i <= labels@.len() == all.len(),
            forall|j: int| 0 <= j < labels@.len() ==> (#[trigger] labels@[j])@ == all[j],
            msg@ == query_header() + label_bytes(all.take(i as int)),
        decreases labels@.len() - i,
    {
        let ghost done = all.take(i + 1);
        assert(done.drop_last() =~= all.take(i as int));
        let text = labels[i].as_str().as_bytes();
        assert(done.last() == labels@[i as int]@);
        assert(text@ == encode_utf8(done.last()));
        msg.push((text.len() % 256) as u8);
        msg.extend_from_slice(text);
        i = i + 1;
        assert(msg@ =~= query_header() + label_bytes(done));
    }
    assert(all.take(all.len() as int) =~= all);
    msg.push(0);
    msg.push((qtype / 256) as u8);
    msg.push((qtype % 256) as u8);
    msg.push(0);
    msg.push(1);
    assert(msg@ =~= dns_query(host@, qtype));
    msg
}

/// Where a name at `i` ends, if its end starts inside the message: behind a
/// zero byte or a two-byte pointer, with at most `labels` labels in front.
pub open spec fn name_end(b: Seq<u8>, i: int, labels: nat) -> Option<int>
    decreases labels,
{
    if i < 0 || i >= b.len() {
        None
    } else if b[i] >= 192 {
        Some(i + 2)
    } else if b[i] == 0 {
        Some(i + 1)
    } else if labels == 0 {
        None
    } else {
        name_end(b, i + 1 + b[i], (labels - 1) as nat)
    }
}

/// The number of labels that a name may have.
pub const MAX_LABELS: usize = 128;

/// Finds where a name ends. (A place that no index can have is not found.)
pub fn skip_dns_name(buf: &[u8], start: usize) -> (r: Option<usize>)
    ensures
        match r {
            Some(next) => name_end(buf@, start as int, MAX_LABELS as nat) == Some(next as int)
                && start < next,
            None => name_end(buf@, start as int, MAX_LABELS as nat) matches Some(end) ==> end
                > usize::MAX,
        },
{
    let mut i: usize = start;
    let mut left: usize = MAX_LABELS;
    loop
        invariant
            start <= i,
            name_end(buf@, i as int, left as nat) == name_end(
                buf@,
                start as int,
                MAX_LABELS as nat,
            ),
        decreases left,
    {
        if i >= buf.len() {
            return None;
        }
        let rest: usize = buf.len() - i;
        let len: u8 = buf[i];
        if len >= 192 {
            return i.checked_add(2);
        }
        if len == 0 {
            return Some(i + 1);
        }
        if left == 0 {
            return None;
        }
        if rest <= len as usize {
            assert(name_end(buf@, i + 1 + len, (left - 1) as nat) is None);
            return None;
        }
        i = i + 1 + len as usize;
        left = left - 1;
    }
}

/// Where `n` questions from `i` on end, if they end inside the message.
pub open spec fn questions_end(b: Seq<u8>, i: int, n: nat) -> Option<int>
    decreases n,
{
    if n == 0 {
        Some(i)
    } else {
        match name_end(b, i, MAX_LABELS as nat) {
            Some(next) => if next + 4 <= b.len() {
                questions_end(b, next + 4, (n - 1) as nat)
            } else {
                None
            },
            None => None,
        }
    }
}

/// A list of addresses with one more, unless it is there already.
pub open spec fn with_ip(ips: Seq<IpAddr>, ip: IpAddr) -> Seq<IpAddr> {
    if ips.contains(ip) {
        ips
    } else {
        ips.push(ip)
    }
}

/// A list of addresses with more, each unless it is there already.
pub open spec fn with_ips(ips: Seq<IpAddr>, more: Seq<IpAddr>) -> Seq<IpAddr>
    decreases more.len(),
{
    if more.len() == 0 {
        ips
    } else {
        with_ip(with_ips(ips, more.drop_last()), more.last())
    }
}

/// The address in a record: of an A record in the Internet class, four bytes;
/// of an AAAA record, sixteen.
pub open spec fn record_ip(rr_type: nat, rr_class: nat, data: Seq<u8>) -> Option<IpAddr> {
    if rr_type == 1 && rr_class == 1 && data.len() == 4 {
        Some(IpAddr::V4(be_value(data) as u32))
    } else if rr_type == 28 && rr_class == 1 && data.len() == 16 {
        Some(IpAddr::V6(be_value(data) as u128))
    } else {
        None
    }
}

/// The addresses in up to `n` records from `i` on, up to the first record
/// that is not complete, together with those found before.
pub open spec fn record_ips(b: Seq<u8>, i: int, n: nat, found: Seq<IpAddr>) -> Seq<IpAddr>
    decreases n,
{
    if n == 0 {
        found
    } else {
        match name_end(b, i, MAX_LABELS as nat) {
            None => found,
            Some(at) => if at + 10 > b.len() {
                found
            } else {
                let len = be_value(b.subrange(at + 8, at + 10)) as int;
                if at + 10 + len > b.len() {
                    found
                } else {
                    let ip = record_ip(
                        be_value(b.subrange(at, at + 2)),
                        be_value(b.subrange(at + 2, at + 4)),
                        b.subrange(at + 10, at + 10 + len),
                    );
                    record_ips(
                        b,
                        at + 10 + len,
                        (n - 1) as nat,
                        match ip {
                            Some(ip) => with_ip(found, ip),
                            None => found,
                        },
                    )
                }
            },
        }
    }
}

/// The addresses that an answer holds, each once, in the order in which they
/// come. A message without complete questions has none.
pub open spec fn answer_ips(b: Seq<u8>) -> Seq<IpAddr> {
    if b.len() < 12 {
        Seq::empty()
    } else {
        match questions_end(b, 12, be_value(b.subrange(4, 6))) {
            Some(i) => record_ips(b, i, be_value(b.subrange(6, 8)), Seq::empty()),
            None => Seq::empty(),
        }
    }
}

/// Adds an address to a list unless it is there already.
pub fn push_unique_ip(ips: &mut Vec<IpAddr>, ip: IpAddr)
    ensures
        final(ips)@ == with_ip(old(ips)@, ip),
{
    let mut i: usize = 0;
    while i < ips.len()
        invariant
            i <= ips@.len(),
            ips@ == old(ips)@,
            forall|j: int| 0 <= j < i ==> ips@[j] != ip,
        decreases ips@.len() - i,
    {
        if ips[i] == ip {
            assert(ips@.contains(ip));
            return;
        }
        i = i + 1;
    }
    ips.push(ip);
}

/// Adds addresses to a list, each unless it is there already.
pub fn push_unique_ips(ips: &mut Vec<IpAddr>, more: &Vec<IpAddr>)
    ensures
        final(ips)@ == with_ips(old(ips)@, more@),
{
    let mut i: usize = 0;
    assert(more@.take(0) =~= Seq::<IpAddr>::empty());
    while i < more.len()
        invariant
            i <= more@.len(),
            ips@ == with_ips(old(ips)@, more@.take(i as int)),
        decreases more@.len() - i,
    {
        assert(more@.take(i + 1).drop_last() =~= more@.take(i as int));
        push_unique_ip(ips, more[i]);
        i = i + 1;
    }
    assert(more@.take(more@.len() as int) =~= more@);
}

/// Reads the address in a record.
fn read_record_ip(rr_type: u16, rr_class: u16, data: &[u8]) -> (r: Option<IpAddr>)
    ensures
        r == record_ip(rr_type as nat, rr_class as nat, data@),
{
    if rr_type == QTYPE_A && rr_class == 1 && data.len() == 4 {
        assert(data@.subrange(0, 4) =~= data@);
        Some(IpAddr::V4(be_u32_at(data, 0)))
    } else if rr_type == QTYPE_AAAA && rr_class == 1 && data.len() == 16 {
        Some(IpAddr::V6(be_number(data)))
    } else {
        None
    }
}

/// Reads the addresses that an answer holds.
pub fn parse_dns_records(buf: &[u8]) -> (ips: Vec<IpAddr>)
    ensures
        ips@ == answer_ips(buf@),
{
    let mut ips: Vec<IpAddr> = Vec::new();
    assert(ips@ =~= Seq::<IpAddr>::empty());
    if buf.len() < 12 {
        return ips;
    }
    let total: usize = buf.len();
    let mut questions: u16 = be_u16_at(buf, 4);
    let mut i: usize = 12;
    while questions > 0
        invariant
            total == buf@.len(),
            total >= 12,
            i <= total,
            ips@ == Seq::<IpAddr>::empty(),
            questions_end(buf@, i as int, questions as nat) == questions_end(
                buf@,
                12,
                be_value(buf@.subrange(4, 6)),
            ),
        decreases questions,
    {
        match skip_dns_name(buf, i) {
            Some(next) => {
                if total < next || total - next < 4 {
                    return ips;
                }
                i = next + 4;
            },
            None => {
                return ips;
            },
        }
        questions = questions - 1;
    }
    let mut answers: u16 = be_u16_at(buf, 6);
    while answers > 0
        invariant
            total == buf@.len(),
            total >= 12,
            i <= total,
            record_ips(buf@, i as int, answers as nat, ips@) == answer_ips(buf@),
        decreases answers,
    {
        let at: usize = match skip_dns_name(buf, i) {
            Some(next) => next,
            None => {
                return ips;
            },
        };
        if total < at || total - at < 10 {
            return ips;
        }
        let rr_type: u16 = be_u16_at(buf, at);
        let rr_class: u16 = be_u16_at(buf, at + 2);
        let len: usize = be_u16_at(buf, at + 8) as usize;
        if total - (at + 10) < len {
            return ips;
        }
        let data = vstd::slice::slice_subrange(buf, at + 10, at + 10 + len);
        if let Some(ip) = read_record_ip(rr_type, rr_class, data) {
            push_unique_ip(&mut ips, ip);
        }
        i = at + 10 + len;
        answers = answers - 1;
    }
    ips
}

proof fn lemma_with_ip_distinct(ips: Seq<IpAddr>, ip: IpAddr)
    requires
        ips.no_duplicates(),
    ensures
        with_ip(ips, ip).no_duplicates(),
        with_ip(ips, ip).contains(ip),
        forall|other: IpAddr| #[trigger]
            with_ip(ips, ip).contains(other) <==> ips.contains(other) || other == ip,
{
    let r = with_ip(ips, ip);
    if !ips.contains(ip) {
        assert(r.last() == ip);
        assert forall|other: IpAddr| #[trigger] r.contains(other) implies ips.contains(other)
            || other == ip by {
            let k = choose|k: int| 0 <= k < r.len() && r[k] == other;
            if k < ips.len() {
                assert(ips[k] == other);
            }
        }
        assert forall|other: IpAddr| ips.contains(other) implies #[trigger] r.contains(other) by {
            let k = choose|k: int| 0 <= k < ips.len() && ips[k] == other;
            assert(r[k] == other);
        }
    }
}

proof fn lemma_record_ips_distinct(b: Seq<u8>, i: int, n: nat, found: Seq<IpAddr>)
    requires
        found.no_duplicates(),
    ensures
        record_ips(b, i, n, found).no_duplicates(),
    decreases n,
{
    if n > 0 {
        if let Some(at) = name_end(b, i, MAX_LABELS as nat) {
            if at + 10 <= b.len() {
                let len = be_value(b.subrange(at + 8, at + 10)) as int;
                if at + 10 + len <= b.len() {
                    let ip = record_ip(
                        be_value(b.subrange(at, at + 2)),
                        be_value(b.subrange(at + 2, at + 4)),
                        b.subrange(at + 10, at + 10 + len),
                    );
                    if let Some(ip) = ip {
                        lemma_with_ip_distinct(found, ip);
                        lemma_record_ips_distinct(
                            b,
                            at + 10 + len,
                            (n - 1) as nat,
                            with_ip(found, ip),
                        );
                    } else {
                        lemma_record_ips_distinct(b, at + 10 + len, (n - 1) as nat, found);
                    }
                }
            }
        }
    }
}

/// No address comes twice out of an answer.
pub proof fn law_answers_are_distinct(b: Seq<u8>)
    ensures
        answer_ips(b).no_duplicates(),
{
    if b.len() >= 12 {
        if let Some(i) = questions_end(b, 12, be_value(b.subrange(4, 6))) {
            lemma_record_ips_distinct(b, i, be_value(b.subrange(6, 8)), Seq::empty());
        }
    }
}

/// Putting address lists together neither loses an address nor repeats one.
pub proof fn law_merging_keeps_each_once(ips: Seq<IpAddr>, more: Seq<IpAddr>)
    requires
        ips.no_duplicates(),
    ensures
        with_ips(ips, more).no_duplicates(),
        forall|ip: IpAddr| #[trigger]
            with_ips(ips, more).contains(ip) <==> ips.contains(ip) || more.contains(ip),
    decreases more.len(),
{
    if more.len() > 0 {
        let front = more.drop_last();
        law_merging_keeps_each_once(ips, front);
        lemma_with_ip_distinct(with_ips(ips, front), more.last());
        assert forall|ip: IpAddr| #[trigger] more.contains(ip) <==> front.contains(ip) || ip
            == more.last() by {
            if more.contains(ip) {
                let k = choose|k: int| 0 <= k < more.len() && more[k] == ip;
                if k < front.len() {
                    assert(front[k] == ip);
                }
            }
            if front.contains(ip) {
                let k = choose|k: int| 0 <= k < front.len() && front[k] == ip;
                assert(more[k] == ip);
            }
            if ip == more.last() {
                assert(more[more.len() - 1] == ip);
            }
        }
    }
}

/// How names are resolved.
pub struct DnsResolver {
    /// The servers to ask, in order.
    pub servers: Vec<IpAddr>,
    /// How long to wait for a server, in milliseconds.
    pub timeout: u64,
    /// Whether to leave it to the operating system.
    pub use_os_resolver: bool,
    /// Whether to ask the servers outside of the tunnel.
    pub local_dns: bool,
    /// Whether there is a tunnel to ask through.
    pub has_stack: bool,
}

/// Which way a lookup goes.
#[derive(Clone, Copy, Debug, PartialEq, Eq, Structural)]
pub enum LookupPath {
    /// To the operating system.
    System,
    /// To the servers, through the tunnel.
    Tunnel,
    /// To the servers, from the host.
    Host,
}

impl DnsResolver {
    /// Chooses the way of a lookup. Without servers there is none, unless the
    /// operating system is asked.
    pub fn lookup_path(&self) -> (r: Result<LookupPath, String>)
        ensures
            match r {
                Ok(LookupPath::System) => self.use_os_resolver,
                Ok(LookupPath::Tunnel) => !self.use_os_resolver && self.servers@.len() > 0
                    && !self.local_dns && self.has_stack,
                Ok(LookupPath::Host) => !self.use_os_resolver && self.servers@.len() > 0 && (
                self.local_dns || !self.has_stack),
                Err(text) => !self.use_os_resolver && self.servers@.len() == 0 && text@
                    == "no DNS servers configured"@,
            },
    {
        if self.use_os_resolver {
            return Ok(LookupPath::System);
        }
        if self.servers.len() == 0 {
            return Err("no DNS servers configured".to_owned());
        }
        if !self.local_dns && self.has_stack {
            Ok(LookupPath::Tunnel)
        } else {
            Ok(LookupPath::Host)
        }
    }
}

/// The message that a host has no address.
pub open spec fn no_address_text(host: Seq<char>) -> Seq<char> {
    "no IP address for "@ + host
}

/// Judges what the operating system found for a host.
pub fn system_lookup(host: &str, found: &Vec<IpAddr>) -> (r: Result<Vec<IpAddr>, String>)
    ensures
        match r {
            Ok(ips) => found@.len() > 0 && ips@ == with_ips(Seq::empty(), found@),
            Err(text) => found@.len() == 0 && text@ == no_address_text(host@),
        },
{
    let mut ips: Vec<IpAddr> = Vec::new();
    assert(ips@ =~= Seq::<IpAddr>::empty());
    push_unique_ips(&mut ips, found);
    proof {
        law_merging_keeps_each_once(Seq::empty(), found@);
        if found@.len() > 0 {
            assert(found@.contains(found@[0]));
            assert(ips@.contains(found@[0]));
        }
    }
    if ips.len() == 0 {
        return Err("no IP address for ".to_owned().concat(host));
    }
    Ok(ips)
}

/// What came of a query.
pub enum QueryOutcome {
    /// The query was not sent in time.
    SendTimedOut,
    /// This came back.
    Reply(Vec<u8>),
    /// Receiving failed, with a reason.
    RecvFailed(String),
    /// Nothing came back in time.
    RecvTimedOut,
}

/// The addresses in the outcome of a query, or what is wrong with it.
pub open spec fn outcome_ips(server: IpAddr, outcome: QueryOutcome) -> Result<
    Seq<IpAddr>,
    Seq<char>,
> {
    match outcome {
        QueryOutcome::SendTimedOut => Err("dns send timed out to "@ + ip_text(server)),
        QueryOutcome::Reply(reply) => if answer_ips(reply@).len() > 0 {
            Ok(answer_ips(reply@))
        } else {
            Err("no records in response from "@ + ip_text(server))
        },
        QueryOutcome::RecvFailed(reason) => Err(reason@),
        QueryOutcome::RecvTimedOut => Err("dns recv timed out from "@ + ip_text(server)),
    }
}

/// The addresses or the text of a result.
pub open spec fn result_texts(r: Result<Vec<IpAddr>, String>) -> Result<Seq<IpAddr>, Seq<char>> {
    match r {
        Ok(ips) => Ok(ips@),
        Err(text) => Err(text@),
    }
}

/// Judges the outcome of a query through the tunnel.
pub fn query_dns_via_tunnel(server: IpAddr, outcome: QueryOutcome) -> (r: Result<
    Vec<IpAddr>,
    String,
>)
    ensures
        result_texts(r) == outcome_ips(server, outcome),
{
    match outcome {
        QueryOutcome::SendTimedOut => Err(
            "dns send timed out to ".to_owned().concat(format_ip(server).as_str()),
        ),
        QueryOutcome::Reply(reply) => {
            let ips = parse_dns_records(reply.as_slice());
            if ips.len() == 0 {
                Err("no records in response from ".to_owned().concat(format_ip(server).as_str()))
            } else {
                Ok(ips)
            }
        },
        QueryOutcome::RecvFailed(reason) => Err(reason),
        QueryOutcome::RecvTimedOut => Err(
            "dns recv timed out from ".to_owned().concat(format_ip(server).as_str()),
        ),
    }
}

/// The addresses that a query from the host gives: those in the reply, if one
/// came.
pub fn query_dns_via_host(outcome: QueryOutcome) -> (ips: Vec<IpAddr>)
    ensures
        ips@ == (match outcome {
            QueryOutcome::Reply(reply) => answer_ips(reply@),
            _ => Seq::empty(),
        }),
{
    match outcome {
        QueryOutcome::Reply(reply) => parse_dns_records(reply.as_slice()),
        _ => {
            let none: Vec<IpAddr> = Vec::new();
            assert(none@ =~= Seq::<IpAddr>::empty());
            none
        },
    }
}

/// What a lookup is doing.
#[derive(Clone, Copy, Debug, PartialEq, Eq, Structural)]
pub enum LookupStage {
    /// Opening a socket for the current server.
    Opening,
    /// Asking the current server for IPv6 addresses.
    AskingV6,
    /// Asking the current server for IPv4 addresses.
    AskingV4,
    /// Nothing more.
    Over,
}

/// What happened to a lookup.
pub enum LookupEvent {
    /// The socket is open.
    Opened,
    /// The socket could not be opened, with a reason.
    OpenFailed(String),
    /// The server answered, or the query came to nothing.
    Answer(Result<Vec<IpAddr>, String>),
}

/// What a lookup does next.
pub enum LookupAction {
    /// Open a socket for a server.
    Open(IpAddr),
    /// Send a server a query of a type.
    Ask(IpAddr, u16),
    /// These are the addresses.
    Found(Vec<IpAddr>),
    /// There are none, with a reason.
    Failed(String),
}

/// A lookup on its way: which server is asked, what it was asked so far, the
/// addresses found and the last reason for a failure.
pub struct LookupState {
    pub server: nat,
    pub stage: LookupStage,
    pub ips: Seq<IpAddr>,
    pub last_err: Option<Seq<char>>,
}

/// An event of a lookup, without the buffers that it comes in.
pub enum LookupInput {
    Opened,
    OpenFailed(Seq<char>),
    Answer(Result<Seq<IpAddr>, Seq<char>>),
}

/// An action of a lookup, without the buffers that it comes in.
pub enum LookupOutput {
    Open(IpAddr),
    Ask(IpAddr, u16),
    Found(Seq<IpAddr>),
    Failed(Seq<char>),
}

impl LookupEvent {
    /// The event without its buffers.
    pub open spec fn input(&self) -> LookupInput {
        match self {
            LookupEvent::Opened => LookupInput::Opened,
            LookupEvent::OpenFailed(reason) => LookupInput::OpenFailed(reason@),
            LookupEvent::Answer(r) => LookupInput::Answer(result_texts(*r)),
        }
    }
}

impl LookupAction {
    /// The action without its buffers.
    pub open spec fn output(&self) -> LookupOutput {
        match self {
            LookupAction::Open(server) => LookupOutput::Open(*server),
            LookupAction::Ask(server, qtype) => LookupOutput::Ask(*server, *qtype),
            LookupAction::Found(ips) => LookupOutput::Found(ips@),
            LookupAction::Failed(text) => LookupOutput::Failed(text@),
        }
    }
}

/// What is looked up, where, and which way.
pub struct LookupPlan {
    pub via_tunnel: bool,
    pub servers: Seq<IpAddr>,
    pub host: Seq<char>,
}

/// Whether an event can come in a stage.
pub open spec fn lookup_fits(stage: LookupStage, input: LookupInput) -> bool {
    match stage {
        LookupStage::Opening => input is Opened || input is OpenFailed,
        LookupStage::AskingV6 => input is Answer,
        LookupStage::AskingV4 => input is Answer,
        LookupStage::Over => false,
    }
}

/// Turning to a server: a socket is opened for it, or the lookup has failed
/// where there is no such server.
pub open spec fn lookup_turn(
    plan: LookupPlan,
    server: nat,
    last_err: Option<Seq<char>>,
) -> (LookupState, LookupOutput) {
    if server < plan.servers.len() {
        (
            LookupState { server, stage: LookupStage::Opening, ips: Seq::empty(), last_err },
            LookupOutput::Open(plan.servers[server as int]),
        )
    } else {
        (
            LookupState { server, stage: LookupStage::Over, ips: Seq::empty(), last_err },
            LookupOutput::Failed(
                match last_err {
                    Some(text) => text,
                    None => "all DNS servers failed for "@ + plan.host,
                },
            ),
        )
    }
}

/// A lookup with the answer to one of its queries. A failure is kept as the
/// reason only through the tunnel.
pub open spec fn lookup_noted(
    plan: LookupPlan,
    s: LookupState,
    answer: Result<Seq<IpAddr>, Seq<char>>,
) -> LookupState {
    match answer {
        Ok(more) => LookupState { ips: with_ips(s.ips, more), ..s },
        Err(text) => if plan.via_tunnel {
            LookupState { last_err: Some(text), ..s }
        } else {
            s
        },
    }
}

/// What a lookup does next, by its state and by what happened. Each server is
/// asked for IPv6 addresses and then for IPv4 addresses; the first that gives
/// any decides.
pub open spec fn lookup_step(plan: LookupPlan, s: LookupState, input: LookupInput) -> (
    LookupState,
    LookupOutput,
) {
    match input {
        LookupInput::Opened => (
            LookupState { stage: LookupStage::AskingV6, ..s },
            LookupOutput::Ask(plan.servers[s.server as int], QTYPE_AAAA),
        ),
        LookupInput::OpenFailed(reason) => if plan.via_tunnel {
            lookup_turn(plan, s.server + 1, Some(reason))
        } else {
            (
                LookupState { stage: LookupStage::Over, ips: Seq::empty(), ..s },
                LookupOutput::Failed(reason),
            )
        },
        LookupInput::Answer(answer) => {
            let t = lookup_noted(plan, s, answer);
            if s.stage == LookupStage::AskingV6 {
                (
                    LookupState { stage: LookupStage::AskingV4, ..t },
                    LookupOutput::Ask(plan.servers[s.server as int], QTYPE_A),
                )
            } else if t.ips.len() > 0 {
                (
                    LookupState { stage: LookupStage::Over, ips: Seq::empty(), ..t },
                    LookupOutput::Found(t.ips),
                )
            } else if plan.via_tunnel {
                lookup_turn(plan, t.server + 1, t.last_err)
            } else {
                lookup_turn(
                    plan,
                    t.server + 1,
                    Some("dns query failed for "@ + ip_text(plan.servers[t.server as int])),
                )
            }
        },
    }
}

/// A lookup with the servers of a resolver.
pub struct NameLookup {
    via_tunnel: bool,
    servers: Vec<IpAddr>,
    host: String,
    server: usize,
    stage: LookupStage,
    ips: Vec<IpAddr>,
    last_err: Option<String>,
}

impl NameLookup {
    /// While the lookup goes on, the current server is one of the servers.
    pub open spec fn wf(&self) -> bool {
        self.state().stage != LookupStage::Over ==> self.state().server
            < self.plan().servers.len()
    }

    /// What is looked up, where, and which way.
    pub closed spec fn plan(&self) -> LookupPlan {
        LookupPlan { via_tunnel: self.via_tunnel, servers: self.servers@, host: self.host@ }
    }

    /// How far the lookup is.
    pub closed spec fn state(&self) -> LookupState {
        LookupState {
            server: self.server as nat,
            stage: self.stage,
            ips: self.ips@,
            last_err: crate::text::opt_text(self.last_err),
        }
    }

    /// Begins a lookup.
    pub fn start(via_tunnel: bool, servers: Vec<IpAddr>, host: String) -> (r: (Self, LookupAction))
        ensures
            r.0.wf(),
            r.0.plan() == (LookupPlan { via_tunnel, servers: servers@, host: host@ }),
            (r.0.state(), r.1.output()) == lookup_turn(r.0.plan(), 0, None),
    {
        let mut lookup = NameLookup {
            via_tunnel,
            servers,
            host,
            server: 0,
            stage: LookupStage::Over,
            ips: Vec::new(),
            last_err: None,
        };
        let action = lookup.turn();
        (lookup, action)
    }

    fn turn(&mut self) -> (r: LookupAction)
        ensures
            final(self).wf(),
            final(self).plan() == old(self).plan(),
            (final(self).state(), r.output()) == lookup_turn(
                old(self).plan(),
                old(self).state().server,
                old(self).state().last_err,
            ),
    {
        self.ips = Vec::new();
        assert(self.ips@ =~= Seq::<IpAddr>::empty());
        if self.server < self.servers.len() {
            self.stage = LookupStage::Opening;
            LookupAction::Open(self.servers[self.server])
        } else {
            self.stage = LookupStage::Over;
            match &self.last_err {
                Some(text) => LookupAction::Failed(text.clone()),
                None => LookupAction::Failed(
                    "all DNS servers failed for ".to_owned().concat(self.host.as_str()),
                ),
            }
        }
    }

    /// Takes what happened and says what the lookup does next.
    pub fn step(&mut self, event: LookupEvent) -> (r: LookupAction)
        requires
            old(self).wf(),
            lookup_fits(old(self).state().stage, event.input()),
        ensures
            final(self).wf(),
            final(self).plan() == old(self).plan(),
            (final(self).state(), r.output()) == lookup_step(
                old(self).plan(),
                old(self).state(),
                event.input(),
            ),
    {
        let count: usize = self.servers.len();
        assert(self.server < count);
        match event {
            LookupEvent::Opened => {
                self.stage = LookupStage::AskingV6;
                LookupAction::Ask(self.servers[self.server], QTYPE_AAAA)
            },
            LookupEvent::OpenFailed(reason) => {
                if self.via_tunnel {
                    self.last_err = Some(reason);
                    self.server = self.server + 1;
                    self.turn()
                } else {
                    self.stage = LookupStage::Over;
                    self.ips = Vec::new();
                    assert(self.ips@ =~= Seq::<IpAddr>::empty());
                    LookupAction::Failed(reason)
                }
            },
            LookupEvent::Answer(answer) => {
                match answer {
                    Ok(more) => push_unique_ips(&mut self.ips, &more),
                    Err(text) => {
                        if self.via_tunnel {
                            self.last_err = Some(text);
                        }
                    },
                }
                let server: IpAddr = self.servers[self.server];
                if self.stage == LookupStage::AskingV6 {
                    self.stage = LookupStage::AskingV4;
                    return LookupAction::Ask(server, QTYPE_A);
                }
                if self.ips.len() > 0 {
                    self.stage = LookupStage::Over;
                    let mut ips: Vec<IpAddr> = Vec::new();
                    std::mem::swap(&mut ips, &mut self.ips);
                    assert(self.ips@ =~= Seq::<IpAddr>::empty());
                    return LookupAction::Found(ips);
                }
                if !self.via_tunnel {
                    self.last_err =
                    Some("dns query failed for ".to_owned().concat(format_ip(server).as_str()));
                }
                self.server = self.server + 1;
                self.turn()
            },
        }
    }
}

/// How a lookup begins.
pub enum LookupBegin {
    /// With a question to the operating system.
    AskSystem,
    /// With the servers of the resolver.
    AskServers(NameLookup, LookupAction),
    /// Not at all, with a reason.
    Failed(String),
}

impl DnsResolver {
    /// Begins the lookup of the addresses of a host.
    pub fn lookup_ips(&self, host: &str) -> (r: LookupBegin)
        ensures
            match r {
                LookupBegin::AskSystem => self.use_os_resolver,
                LookupBegin::AskServers(lookup, action) => {
                    let plan = LookupPlan {
                        via_tunnel: !self.local_dns && self.has_stack,
                        servers: self.servers@,
                        host: host@,
                    };
                    &&& !self.use_os_resolver
                    &&& self.servers@.len() > 0
                    &&& lookup.wf()
                    &&& lookup.plan() == plan
                    &&& (lookup.state(), action.output()) == lookup_turn(plan, 0, None)
                },
                LookupBegin::Failed(text) => !self.use_os_resolver && self.servers@.len() == 0
                    && text@ == "no DNS servers configured"@,
            },
    {
        match self.lookup_path() {
            Ok(LookupPath::System) => LookupBegin::AskSystem,
            Ok(path) => {
                let servers = self.servers.clone();
                assert(servers@ =~= self.servers@);
                let (lookup, action) = NameLookup::start(
                    path == LookupPath::Tunnel,
                    servers,
                    host.to_owned(),
                );
                LookupBegin::AskServers(lookup, action)
            },
            Err(text) => LookupBegin::Failed(text),
        }
    }

    /// The first of the addresses that were found for a host.
    pub fn lookup_ip(host: &str, ips: &Vec<IpAddr>) -> (r: Result<IpAddr, String>)
        ensures
            match r {
                Ok(ip) => ips@.len() > 0 && ip == ips@[0],
                Err(text) => ips@.len() == 0 && text@ == no_address_text(host@),
            },
    {
        if ips.len() == 0 {
            Err("no IP address for ".to_owned().concat(host))
        } else {
            Ok(ips[0])
        }
    }
}

/// A server that has addresses ends the lookup with them: those of its IPv6
/// answer, then those of its IPv4 answer, each once.
pub proof fn law_first_server_with_addresses_decides(
    plan: LookupPlan,
    s: LookupState,
    v6: Seq<IpAddr>,
    v4: Seq<IpAddr>,
)
    requires
        s.stage == LookupStage::Opening,
        s.ips == Seq::<IpAddr>::empty(),
        v6.len() + v4.len() > 0,
    ensures
        ({
            let (s1, out1) = lookup_step(plan, s, LookupInput::Opened);
            let (s2, out2) = lookup_step(plan, s1, LookupInput::Answer(Ok(v6)));
            let (s3, out3) = lookup_step(plan, s2, LookupInput::Answer(Ok(v4)));
            &&& out1 == LookupOutput::Ask(plan.servers[s.server as int], QTYPE_AAAA)
            &&& out2 == LookupOutput::Ask(plan.servers[s.server as int], QTYPE_A)
            &&& out3 == LookupOutput::Found(with_ips(with_ips(Seq::empty(), v6), v4))
            &&& s3.stage == LookupStage::Over
        }),
{
    law_merging_keeps_each_once(Seq::empty(), v6);
    law_merging_keeps_each_once(with_ips(Seq::empty(), v6), v4);
    let all = with_ips(with_ips(Seq::empty(), v6), v4);
    if v6.len() > 0 {
        assert(v6.contains(v6[0]));
        assert(with_ips(Seq::empty(), v6).contains(v6[0]));
        assert(all.contains(v6[0]));
    } else {
        assert(v4.contains(v4[0]));
        assert(all.contains(v4[0]));
    }
}

/// A server that gives nothing is followed by the next one, and the last by
/// the end of the lookup.
pub proof fn law_servers_are_asked_in_order(plan: LookupPlan, s: LookupState, text: Seq<char>)
    requires
        s.stage == LookupStage::AskingV4,
        s.ips == Seq::<IpAddr>::empty(),
        s.server < plan.servers.len(),
    ensures
        ({
            let (t, out) = lookup_step(plan, s, LookupInput::Answer(Err(text)));
            &&& t.server == s.server + 1
            &&& s.server + 1 < plan.servers.len() ==> out == LookupOutput::Open(
                plan.servers[(s.server + 1) as int],
            )
            &&& s.server + 1 == plan.servers.len() ==> out is Failed && t.stage
                == LookupStage::Over
        }),
{
}

/// The bytes of one more character come behind those of the text.
proof fn lemma_encode_push(s: Seq<char>, c: char)
    ensures
        encode_utf8(s.push(c)) == encode_utf8(s) + encode_utf8(seq![c]),
    decreases s.len(),
{
    if s.len() == 0 {
        assert(s.push(c) =~= seq![c]);
        assert(encode_utf8(s) + encode_utf8(seq![c]) =~= encode_utf8(seq![c]));
    } else {
        let rest = s.drop_first();
        lemma_encode_push(rest, c);
        assert(s.push(c).drop_first() =~= rest.push(c));
        assert(encode_utf8(s.push(c)) =~= encode_utf8(s) + encode_utf8(seq![c]));
    }
}

/// The labels of a name take one byte more than the name.
proof fn lemma_labels_len(host: Seq<char>)
    ensures
        label_bytes(split_on(host, '.')).len() == encode_utf8(host).len() + 1,
    decreases host.len(),
{
    if host.len() == 0 {
        assert(split_on(host, '.').drop_last() =~= Seq::<Seq<char>>::empty());
        assert(label_bytes(Seq::<Seq<char>>::empty()).len() == 0);
        assert(encode_utf8(host).len() == 0);
        assert(encode_utf8(Seq::<char>::empty()).len() == 0);
    } else {
        let front = host.drop_last();
        let c = host.last();
        let before = split_on(front, '.');
        lemma_labels_len(front);
        lemma_split_nonempty(front, '.');
        lemma_encode_push(front, c);
        assert(front.push(c) =~= host);
        let labels = split_on(host, '.');
        if c == '.' {
            assert(labels.drop_last() =~= before);
            assert(encode_utf8(Seq::<char>::empty()).len() == 0);
            assert(encode_utf8(seq!['.']).len() == 1) by {
                vstd::utf8::is_ascii_chars_encode_utf8(seq!['.']);
            }
        } else {
            assert(labels.drop_last() =~= before.drop_last());
            lemma_encode_push(before.last(), c);
        }
    }
}

/// Labels of a legal length are passed over one by one.
proof fn lemma_labels_are_passed(b: Seq<u8>, i: int, labels: Seq<Seq<char>>, left: nat)
    requires
        0 <= i,
        i + label_bytes(labels).len() <= b.len(),
        b.subrange(i, i + label_bytes(labels).len()) == label_bytes(labels),
        labels.len() <= left,
        forall|k: int|
            0 <= k < labels.len() ==> 1 <= encode_utf8(#[trigger] labels[k]).len() <= 63,
    ensures
        name_end(b, i, left) == name_end(
            b,
            i + label_bytes(labels).len(),
            (left - labels.len()) as nat,
        ),
    decreases labels.len(),
{
    if labels.len() > 0 {
        let front = labels.drop_last();
        let all = label_bytes(labels);
        let n = label_bytes(front).len() as int;
        let text = encode_utf8(labels.last());
        assert(labels.last() == labels[labels.len() - 1]);
        assert(b.subrange(i, i + n) =~= label_bytes(front)) by {
            assert(all.take(n) =~= label_bytes(front));
            assert(b.subrange(i, i + n) =~= all.take(n));
        }
        lemma_labels_are_passed(b, i, front, left);
        assert(b[i + n] == all[n]);
        assert(all[n] == text.len());
    }
}

/// The name in a query ends right before the type that is asked for, and the
/// query is eighteen bytes longer than the name, where the name has labels of
/// legal lengths and not too many.
pub proof fn law_query_holds_its_name(host: Seq<char>, qtype: u16)
    requires
        split_on(host, '.').len() <= MAX_LABELS,
        forall|i: int|
            0 <= i < split_on(host, '.').len() ==> 1 <= encode_utf8(
                #[trigger] split_on(host, '.')[i],
            ).len() <= 63,
    ensures
        dns_query(host, qtype).len() == encode_utf8(host).len() + 18,
        name_end(dns_query(host, qtype), 12, MAX_LABELS as nat) == Some(
            dns_query(host, qtype).len() - 4,
        ),
{
    let labels = split_on(host, '.');
    let q = dns_query(host, qtype);
    let n = label_bytes(labels).len() as int;
    lemma_labels_len(host);
    assert(q.subrange(12, 12 + n) =~= label_bytes(labels));
    lemma_labels_are_passed(q, 12, labels, MAX_LABELS as nat);
    assert(q[12 + n] == 0);
}

/// Whatever a server answered to the query for IPv6 addresses, an error
/// included, it is the next to be asked for IPv4 addresses.
pub proof fn law_v4_is_asked_after_any_answer(
    plan: LookupPlan,
    s: LookupState,
    answer: Result<Seq<IpAddr>, Seq<char>>,
)
    requires
        s.stage == LookupStage::AskingV6,
    ensures
        ({
            let (t, out) = lookup_step(plan, s, LookupInput::Answer(answer));
            &&& out == LookupOutput::Ask(plan.servers[s.server as int], 1)
            &&& t.stage == LookupStage::AskingV4
            &&& t.server == s.server
        }),
{
}

/// The addresses of an answer; a failed query has none.
pub open spec fn answered_ips(answer: Result<Seq<IpAddr>, Seq<char>>) -> Seq<IpAddr> {
    match answer {
        Ok(ips) => ips,
        Err(_) => Seq::empty(),
    }
}

/// A server is asked twice, for IPv6 addresses (type 28) and then for IPv4
/// addresses (type 1). Whatever comes of the two queries, the addresses of both
/// end the lookup if there are any. Else the next server is turned to, and
/// without one the lookup has failed.
pub proof fn law_a_server_is_asked_for_both(
    plan: LookupPlan,
    s: LookupState,
    v6: Result<Seq<IpAddr>, Seq<char>>,
    v4: Result<Seq<IpAddr>, Seq<char>>,
)
    requires
        s.stage == LookupStage::Opening,
        s.ips == Seq::<IpAddr>::empty(),
        s.server < plan.servers.len(),
    ensures
        ({
            let server = plan.servers[s.server as int];
            let (s1, out1) = lookup_step(plan, s, LookupInput::Opened);
            let (s2, out2) = lookup_step(plan, s1, LookupInput::Answer(v6));
            let (s3, out3) = lookup_step(plan, s2, LookupInput::Answer(v4));
            let found = answered_ips(v6) + answered_ips(v4);
            &&& out1 == LookupOutput::Ask(server, 28)
            &&& out2 == LookupOutput::Ask(server, 1)
            &&& found.len() > 0 ==> {
                &&& s3.stage == LookupStage::Over
                &&& out3 matches LookupOutput::Found(ips) && ips.no_duplicates() && forall|
                    ip: IpAddr,
                | #[trigger] ips.contains(ip) <==> found.contains(ip)
            }
            &&& found.len() > 0 && found.no_duplicates() ==> out3 == LookupOutput::Found(found)
            &&& found.len() == 0 && s.server + 1 < plan.servers.len() ==> out3
                == LookupOutput::Open(plan.servers[s.server as int + 1]) && s3.stage
                == LookupStage::Opening && s3.server == s.server + 1 && s3.ips.len() == 0
            &&& found.len() == 0 && s.server + 1 == plan.servers.len() ==> out3 is Failed
                && s3.stage == LookupStage::Over
        }),
{
    let a = answered_ips(v6);
    let b = answered_ips(v4);
    let none = Seq::<IpAddr>::empty();
    let first = with_ips(none, a);
    let all = with_ips(first, b);
    let found = a + b;
    law_merging_keeps_each_once(none, a);
    law_merging_keeps_each_once(first, b);
    assert forall|ip: IpAddr| #[trigger] all.contains(ip) <==> found.contains(ip) by {
        lemma_concat_contains(a, b, ip);
    }
    if found.len() > 0 {
        assert(found.contains(found[0]));
        assert(all.contains(found[0]));
    }
    if found.no_duplicates() {
        lemma_distinct_are_appended(none, a, b);
    }
    let (s1, _) = lookup_step(plan, s, LookupInput::Opened);
    let (s2, _) = lookup_step(plan, s1, LookupInput::Answer(v6));
    assert(s2.ips =~= first);
}

proof fn lemma_concat_contains(a: Seq<IpAddr>, b: Seq<IpAddr>, ip: IpAddr)
    ensures
        (a + b).contains(ip) <==> a.contains(ip) || b.contains(ip),
{
    let c = a + b;
    if a.contains(ip) {
        let k = choose|k: int| 0 <= k < a.len() && a[k] == ip;
        assert(c[k] == ip);
    }
    if b.contains(ip) {
        let k = choose|k: int| 0 <= k < b.len() && b[k] == ip;
        assert(c[a.len() + k] == ip);
    }
    if c.contains(ip) {
        let k = choose|k: int| 0 <= k < c.len() && c[k] == ip;
        if k < a.len() {
            assert(a[k] == ip);
        } else {
            assert(b[k - a.len()] == ip);
        }
    }
}

/// Addresses that are all different are put behind those at hand as they come.
pub proof fn law_new_addresses_keep_their_order(ips: Seq<IpAddr>, more: Seq<IpAddr>)
    requires
        (ips + more).no_duplicates(),
    ensures
        with_ips(ips, more) == ips + more,
    decreases more.len(),
{
    let all = ips + more;
    if more.len() > 0 {
        let front = more.drop_last();
        let fewer = ips + front;
        assert forall|i: int, j: int| 0 <= i < fewer.len() && 0 <= j < fewer.len() && i
            != j implies fewer[i] != fewer[j] by {
            assert(fewer[i] == all[i] && fewer[j] == all[j]);
        }
        law_new_addresses_keep_their_order(ips, front);
        if fewer.contains(more.last()) {
            let k = choose|k: int| 0 <= k < fewer.len() && fewer[k] == more.last();
            assert(all[k] == all[all.len() - 1]);
        }
        assert(with_ips(ips, more) =~= all);
    } else {
        assert(with_ips(ips, more) =~= all);
    }
}

/// An address that is there already is not put in again, and what is there
/// keeps its place.
pub proof fn law_known_addresses_change_nothing(ips: Seq<IpAddr>, more: Seq<IpAddr>)
    ensures
        with_ips(ips, more).len() >= ips.len(),
        with_ips(ips, more).take(ips.len() as int) == ips,
        (forall|i: int| 0 <= i < more.len() ==> ips.contains(#[trigger] more[i])) ==> with_ips(
            ips,
            more,
        ) == ips,
    decreases more.len(),
{
    if more.len() > 0 {
        law_known_addresses_change_nothing(ips, more.drop_last());
        let before = with_ips(ips, more.drop_last());
        assert(with_ips(ips, more).take(ips.len() as int) =~= before.take(ips.len() as int));
        if forall|i: int| 0 <= i < more.len() ==> ips.contains(#[trigger] more[i]) {
            assert forall|i: int| 0 <= i < more.drop_last().len() implies ips.contains(
                #[trigger] more.drop_last()[i],
            ) by {
                assert(more.drop_last()[i] == more[i]);
            }
            assert(ips.contains(more[more.len() - 1]));
        }
    } else {
        assert(with_ips(ips, more).take(ips.len() as int) =~= ips);
    }
}

proof fn lemma_distinct_are_appended(none: Seq<IpAddr>, a: Seq<IpAddr>, b: Seq<IpAddr>)
    requires
        none.len() == 0,
        (a + b).no_duplicates(),
    ensures
        with_ips(with_ips(none, a), b) == a + b,
{
    let all = a + b;
    assert(none + a =~= a);
    assert forall|i: int, j: int| 0 <= i < a.len() && 0 <= j < a.len() && i != j implies a[i]
        != a[j] by {
        assert(all[i] == a[i] && all[j] == a[j]);
    }
    law_new_addresses_keep_their_order(none, a);
    law_new_addresses_keep_their_order(a, b);
}

/// Why a lookup through the tunnel failed is what the last failure said: that
/// of the last query that failed, or else the one before. Where nothing failed,
/// the host is named.
pub proof fn law_last_failure_is_told(plan: LookupPlan, s: LookupState, text: Seq<char>)
    requires
        plan.via_tunnel,
        s.server + 1 == plan.servers.len(),
        s.ips == Seq::<IpAddr>::empty(),
    ensures
        s.stage == LookupStage::Opening ==> lookup_step(plan, s, LookupInput::OpenFailed(text)).1
            == LookupOutput::Failed(text),
        s.stage == LookupStage::AskingV4 ==> lookup_step(
            plan,
            s,
            LookupInput::Answer(Err(text)),
        ).1 == LookupOutput::Failed(text),
        s.stage == LookupStage::AskingV4 && s.last_err == Some(text) ==> lookup_step(
            plan,
            s,
            LookupInput::Answer(Ok(Seq::empty())),
        ).1 == LookupOutput::Failed(text),
        s.stage == LookupStage::AskingV4 && s.last_err is None ==> lookup_step(
            plan,
            s,
            LookupInput::Answer(Ok(Seq::empty())),
        ).1 == LookupOutput::Failed("all DNS servers failed for "@ + plan.host),
{
    assert(with_ips(s.ips, Seq::empty()) == s.ips);
}

/// A lookup from the host tells which server was the last to give nothing, and
/// ends where a socket cannot be opened.
pub proof fn law_host_lookup_tells_its_server(
    plan: LookupPlan,
    s: LookupState,
    answer: Result<Seq<IpAddr>, Seq<char>>,
    text: Seq<char>,
)
    requires
        !plan.via_tunnel,
        s.server + 1 == plan.servers.len(),
        s.ips == Seq::<IpAddr>::empty(),
        answered_ips(answer).len() == 0,
    ensures
        s.stage == LookupStage::Opening ==> lookup_step(plan, s, LookupInput::OpenFailed(text)).1
            == LookupOutput::Failed(text),
        s.stage == LookupStage::AskingV4 ==> lookup_step(plan, s, LookupInput::Answer(answer)).1
            == LookupOutput::Failed(
            "dns query failed for "@ + ip_text(plan.servers[s.server as int]),
        ),
{
    assert(with_ips(s.ips, answered_ips(answer)) == s.ips);
}

/// A lookup begins with a socket for the first server, and has failed where
/// there is none.
pub proof fn law_lookup_begins_with_the_first_server(plan: LookupPlan)
    ensures
        ({
            let (s, out) = lookup_turn(plan, 0, None);
            if plan.servers.len() > 0 {
                out == LookupOutput::Open(plan.servers[0]) && s.stage == LookupStage::Opening
                    && s.server == 0 && s.ips.len() == 0 && s.last_err is None
            } else {
                out == LookupOutput::Failed("all DNS servers failed for "@ + plan.host) && s.stage
                    == LookupStage::Over
            }
        }),
{
}

/// A query asks for the records of one type in the Internet class, with
/// recursion: it starts with fixed bytes, and ends with a zero byte, the type
/// and the class. In between stands the name; a name without dots is its
/// length and its bytes.
pub proof fn law_query_by_its_bytes(host: Seq<char>, qtype: u16)
    ensures
        ({
            let q = dns_query(host, qtype);
            let n = q.len() as int;
            &&& n >= 17
            &&& q.take(12) == seq![0x12u8, 0x34u8, 1u8, 0u8, 0u8, 1u8, 0u8, 0u8, 0u8, 0u8, 0u8, 0u8]
            &&& q[n - 5] == 0
            &&& q[n - 4] * 256 + q[n - 3] == qtype
            &&& q[n - 2] == 0
            &&& q[n - 1] == 1
            &&& q.len() == encode_utf8(host).len() + 18
            &&& free_of(host, '.') && encode_utf8(host).len() < 256 ==> q[12]
                == encode_utf8(host).len() && q.subrange(13, n - 5) == encode_utf8(host)
        }),
{
    let q = dns_query(host, qtype);
    let n = q.len() as int;
    let labels = split_on(host, '.');
    lemma_labels_len(host);
    assert(q.take(12) =~= query_header());
    if free_of(host, '.') && encode_utf8(host).len() < 256 {
        lemma_split_single(host, '.');
        assert(labels.drop_last() =~= Seq::<Seq<char>>::empty());
        assert(labels.last() == host);
        let b = label_bytes(labels);
        assert(b[0] == encode_utf8(host).len());
        assert(q[12] == b[0]);
        assert(q.subrange(13, n - 5) =~= encode_utf8(host));
    }
}

/// An A record of the Internet class (type 1, class 1, four bytes), of whatever
/// name, gives its address; an AAAA record (type 28, sixteen bytes) as well.
/// Then the next record is read.
pub proof fn law_address_records_are_read(b: Seq<u8>, i: int, at: int, n: nat, found: Seq<IpAddr>)
    requires
        name_end(b, i, 128) == Some(at),
        0 <= at,
        n > 0,
        at + 10 <= b.len(),
        b[at] == 0,
        b[at + 2] == 0,
        b[at + 3] == 1,
        b[at + 8] == 0,
    ensures
        b[at + 1] == 1 && b[at + 9] == 4 && at + 14 <= b.len() ==> record_ips(b, i, n, found)
            == record_ips(
            b,
            at + 14,
            (n - 1) as nat,
            with_ip(
                found,
                IpAddr::V4(
                    (b[at + 10] * 0x100_0000 + b[at + 11] * 0x1_0000 + b[at + 12] * 0x100 + b[at
                        + 13]) as u32,
                ),
            ),
        ),
        b[at + 1] == 28 && b[at + 9] == 16 && at + 26 <= b.len() ==> record_ips(b, i, n, found)
            == record_ips(
            b,
            at + 26,
            (n - 1) as nat,
            with_ip(found, IpAddr::V6(be_value(b.subrange(at + 10, at + 26)) as u128)),
        ),
{
    lemma_be_2(b.subrange(at, at + 2));
    lemma_be_2(b.subrange(at + 2, at + 4));
    lemma_be_2(b.subrange(at + 8, at + 10));
    if b[at + 1] == 1 && b[at + 9] == 4 && at + 14 <= b.len() {
        lemma_be_4(b.subrange(at + 10, at + 14));
    }
}

/// A complete record of another type, of another class or of another length is
/// passed over.
pub proof fn law_other_records_are_passed_over(
    b: Seq<u8>,
    i: int,
    at: int,
    n: nat,
    found: Seq<IpAddr>,
)
    requires
        name_end(b, i, 128) == Some(at),
        0 <= at,
        n > 0,
        at + 10 <= b.len(),
        at + 10 + b[at + 8] * 256 + b[at + 9] <= b.len(),
        !(b[at] == 0 && b[at + 1] == 1 && b[at + 8] == 0 && b[at + 9] == 4) && !(b[at] == 0 && b[at
            + 1] == 28 && b[at + 8] == 0 && b[at + 9] == 16) || b[at + 2] != 0 || b[at + 3] != 1,
    ensures
        record_ips(b, i, n, found) == record_ips(
            b,
            at + 10 + b[at + 8] * 256 + b[at + 9],
            (n - 1) as nat,
            found,
        ),
{
    lemma_be_2(b.subrange(at, at + 2));
    lemma_be_2(b.subrange(at + 2, at + 4));
    lemma_be_2(b.subrange(at + 8, at + 10));
}

/// A record that is cut off ends the answer: what was found before it stays.
/// So does an answer after as many records as it has.
pub proof fn law_cut_records_end_an_answer(
    b: Seq<u8>,
    i: int,
    at: int,
    n: nat,
    found: Seq<IpAddr>,
)
    requires
        n > 0 ==> name_end(b, i, 128) is None || (name_end(b, i, 128) == Some(at) && 0 <= at && (at
            + 10 > b.len() || at + 10 + b[at + 8] * 256 + b[at + 9] > b.len())),
    ensures
        record_ips(b, i, n, found) == found,
{
    if n > 0 && name_end(b, i, 128) == Some(at) && at + 10 <= b.len() {
        lemma_be_2(b.subrange(at + 8, at + 10));
    }
}

/// A name ends behind a zero byte or a pointer of two bytes (192 or more in
/// the first). Before that, each label is passed over by its length. A name
/// that runs over the end of the message, or has too many labels, has no end.
pub proof fn law_names_end(b: Seq<u8>, i: int, labels: nat)
    requires
        0 <= i,
    ensures
        i >= b.len() ==> name_end(b, i, labels) is None,
        i < b.len() && b[i] == 0 ==> name_end(b, i, labels) == Some(i + 1),
        i < b.len() && b[i] >= 192 ==> name_end(b, i, labels) == Some(i + 2),
        i < b.len() && 0 < b[i] < 192 ==> name_end(b, i, labels + 1) == name_end(
            b,
            i + 1 + b[i],
            labels,
        ),
        i < b.len() && 0 < b[i] < 192 ==> name_end(b, i, 0) is None,
{
}

/// A question ends four bytes behind its name, and the next one starts there.
pub proof fn law_questions_end(b: Seq<u8>, i: int, at: int, n: nat)
    requires
        name_end(b, i, 128) == Some(at),
    ensures
        at + 4 <= b.len() ==> questions_end(b, i, n + 1) == questions_end(b, at + 4, n),
        at + 4 > b.len() ==> questions_end(b, i, n + 1) is None,
        questions_end(b, i, 0) == Some(i),
{
}

/// An answer is read from behind its questions. One that has none is read from
/// behind the header of twelve bytes, and a shorter one holds nothing.
pub proof fn law_answers_are_read(m: Seq<u8>)
    ensures
        m.len() < 12 ==> answer_ips(m).len() == 0,
        m.len() >= 12 ==> answer_ips(m) == (match questions_end(
            m,
            12,
            (m[4] * 256 + m[5]) as nat,
        ) {
            Some(i) => record_ips(m, i, (m[6] * 256 + m[7]) as nat, Seq::empty()),
            None => Seq::empty(),
        }),
{
    if m.len() >= 12 {
        lemma_be_2(m.subrange(4, 6));
        lemma_be_2(m.subrange(6, 8));
    }
}

/// A further label is written behind the others: its length and its bytes.
pub proof fn law_labels_are_written(labels: Seq<Seq<char>>, label: Seq<char>)
    requires
        encode_utf8(label).len() < 256,
    ensures
        label_bytes(labels.push(label)) == label_bytes(labels) + seq![
            encode_utf8(label).len() as u8,
        ] + encode_utf8(label),
        label_bytes(Seq::empty()).len() == 0,
{
    assert(labels.push(label).drop_last() =~= labels);
}

/// Every event that can happen in a stage is one that the lookup takes: the
/// outcome of opening a socket, and then an answer to each query.
pub proof fn law_lookup_takes_its_events(
    text: Seq<char>,
    answer: Result<Seq<IpAddr>, Seq<char>>,
)
    ensures
        lookup_fits(LookupStage::Opening, LookupInput::Opened),
        lookup_fits(LookupStage::Opening, LookupInput::OpenFailed(text)),
        lookup_fits(LookupStage::AskingV6, LookupInput::Answer(answer)),
        lookup_fits(LookupStage::AskingV4, LookupInput::Answer(answer)),
{
}

/// An answer that repeats the question is read from behind it: as many records
/// as the header says, in its fourth pair of bytes.
pub proof fn law_answer_to_a_query(host: Seq<char>, qtype: u16, m: Seq<u8>)
    requires
        split_on(host, '.').len() <= MAX_LABELS,
        forall|i: int|
            0 <= i < split_on(host, '.').len() ==> 1 <= encode_utf8(
                #[trigger] split_on(host, '.')[i],
            ).len() <= 63,
        m.len() >= dns_query(host, qtype).len(),
        m.subrange(12, dns_query(host, qtype).len() as int) == dns_query(host, qtype).skip(12),
        m[4] == 0,
        m[5] == 1,
    ensures
        answer_ips(m) == record_ips(
            m,
            dns_query(host, qtype).len() as int,
            (m[6] * 256 + m[7]) as nat,
            Seq::empty(),
        ),
{
    let q = dns_query(host, qtype);
    let labels = split_on(host, '.');
    let n = label_bytes(labels).len() as int;
    let c = q.skip(12);
    let d = m.subrange(12, q.len() as int);
    assert forall|k: int| 12 <= k < q.len() implies m[k] == q[k] by {
        assert(c[k - 12] == d[k - 12]);
    }
    assert(m.subrange(12, 12 + n) =~= label_bytes(labels)) by {
        assert(q.subrange(12, 12 + n) =~= label_bytes(labels));
        assert(m.subrange(12, 12 + n) =~= q.subrange(12, 12 + n));
    }
    lemma_labels_are_passed(m, 12, labels, MAX_LABELS as nat);
    assert(q[12 + n] == 0);
    assert(m[12 + n] == 0);
    assert(name_end(m, 12, MAX_LABELS as nat) == Some(q.len() - 4));
    lemma_be_2(m.subrange(4, 6));
    lemma_be_2(m.subrange(6, 8));
    assert(questions_end(m, q.len() as int, 0) == Some(q.len() as int));
    assert(questions_end(m, 12, 1) == Some(q.len() as int));
}

/// A query has an outcome exactly where addresses came; else it says what went
/// wrong and with which server.
pub proof fn law_outcome_of_a_query(server: IpAddr, reply: Vec<u8>, reason: String)
    ensures
        answer_ips(reply@).len() > 0 ==> outcome_ips(server, QueryOutcome::Reply(reply)) == Ok::<
            Seq<IpAddr>,
            Seq<char>,
        >(answer_ips(reply@)),
        answer_ips(reply@).len() == 0 ==> outcome_ips(server, QueryOutcome::Reply(reply)) == Err::<
            Seq<IpAddr>,
            Seq<char>,
        >("no records in response from "@ + ip_text(server)),
        outcome_ips(server, QueryOutcome::SendTimedOut) == Err::<Seq<IpAddr>, Seq<char>>(
            "dns send timed out to "@ + ip_text(server),
        ),
        outcome_ips(server, QueryOutcome::RecvTimedOut) == Err::<Seq<IpAddr>, Seq<char>>(
            "dns recv timed out from "@ + ip_text(server),
        ),
        outcome_ips(server, QueryOutcome::RecvFailed(reason)) == Err::<Seq<IpAddr>, Seq<char>>(
            reason@,
        ),
{
}

/// Through the tunnel the last failure is kept as the reason, whatever failed,
/// and a server whose socket does not open is followed by the next one.
pub proof fn law_failures_are_kept(
    plan: LookupPlan,
    s: LookupState,
    text: Seq<char>,
    ips: Seq<IpAddr>,
)
    requires
        plan.via_tunnel,
        s.server + 1 < plan.servers.len(),
    ensures
        ({
            let failed = lookup_step(plan, s, LookupInput::Answer(Err(text))).0;
            let answered = lookup_step(plan, s, LookupInput::Answer(Ok(ips))).0;
            &&& s.stage == LookupStage::AskingV6 || s.stage == LookupStage::AskingV4
                ==> failed.last_err == Some(text) && answered.last_err == s.last_err
            &&& s.stage == LookupStage::AskingV6 ==> failed.ips == s.ips
        }),
        ({
            let (t, out) = lookup_step(plan, s, LookupInput::OpenFailed(text));
            &&& out == LookupOutput::Open(plan.servers[s.server as int + 1])
            &&& t.server == s.server + 1
            &&& t.stage == LookupStage::Opening
            &&& t.ips.len() == 0
            &&& t.last_err == Some(text)
        }),
{
}

/// From the host, a socket that does not open ends the lookup, whatever servers
/// are left.
pub proof fn law_host_lookup_needs_a_socket(plan: LookupPlan, s: LookupState, text: Seq<char>)
    requires
        !plan.via_tunnel,
    ensures
        lookup_step(plan, s, LookupInput::OpenFailed(text)).1 == LookupOutput::Failed(text),
        lookup_step(plan, s, LookupInput::OpenFailed(text)).0.stage == LookupStage::Over,
{
}

/// A host without an address is named.
pub proof fn law_host_without_address_is_named(host: Seq<char>)
    ensures
        no_address_text(host) == "no IP address for "@ + host,
        no_address_text(host).skip(18) == host,
{
    reveal_strlit("no IP address for ");
    assert(no_address_text(host).skip(18) =~= host);
}

/// A lookup is told what happened and says what it does: nothing is lost or
/// turned into something else with the buffers.
pub proof fn law_lookup_events_and_actions(
    reason: String,
    ips: Vec<IpAddr>,
    server: IpAddr,
    qtype: u16,
)
    ensures
        LookupEvent::Opened.input() == LookupInput::Opened,
        LookupEvent::OpenFailed(reason).input() == LookupInput::OpenFailed(reason@),
        LookupEvent::Answer(Ok(ips)).input() == LookupInput::Answer(Ok(ips@)),
        LookupEvent::Answer(Err(reason)).input() == LookupInput::Answer(Err(reason@)),
        LookupAction::Open(server).output() == LookupOutput::Open(server),
        LookupAction::Ask(server, qtype).output() == LookupOutput::Ask(server, qtype),
        LookupAction::Found(ips).output() == LookupOutput::Found(ips@),
        LookupAction::Failed(reason).output() == LookupOutput::Failed(reason@),
{
}

} // verus!
