use usque::dns::{
    build_dns_query, parse_dns_records, push_unique_ip, push_unique_ips, query_dns_via_host,
    query_dns_via_tunnel, skip_dns_name, system_lookup, DnsResolver, LookupAction, LookupBegin,
    LookupEvent, LookupPath, NameLookup, QueryOutcome, QTYPE_A, QTYPE_AAAA,
};
use usque::ip::IpAddr;

const V4: IpAddr = IpAddr::V4(0x0102_0304);
const V6: IpAddr = IpAddr::V6(0x2620_00fe_0000_0000_0000_0000_0000_00fe);

fn record(name: &[u8], rr_type: u16, class: u16, data: &[u8]) -> Vec<u8> {
    let mut out = name.to_vec();
    out.extend_from_slice(&rr_type.to_be_bytes());
    out.extend_from_slice(&class.to_be_bytes());
    out.extend_from_slice(&[0, 0, 0, 60]);
    out.extend_from_slice(&(data.len() as u16).to_be_bytes());
    out.extend_from_slice(data);
    out
}

fn answer(records: &[Vec<u8>]) -> Vec<u8> {
    let mut msg = build_dns_query("example.com", QTYPE_A);
    msg[2] = 0x81;
    msg[7] = records.len() as u8;
    for r in records {
        msg.extend_from_slice(r);
    }
    msg
}

fn resolver(servers: Vec<IpAddr>, os: bool, local: bool, stack: bool) -> DnsResolver {
    DnsResolver { servers, timeout: 2000, use_os_resolver: os, local_dns: local, has_stack: stack }
}

#[test]
fn query_bytes() {
    let mut expected = vec![0x12, 0x34, 1, 0, 0, 1, 0, 0, 0, 0, 0, 0];
    expected.extend_from_slice(b"\x07example\x03com\x00");
    expected.extend_from_slice(&[0, 28, 0, 1]);
    assert_eq!(build_dns_query("example.com", QTYPE_AAAA), expected);
}

#[test]
fn query_for_odd_names() {
    let q = build_dns_query("", QTYPE_A);
    assert_eq!(&q[12..], &[0, 0, 0, 1, 0, 1]);
    let q = build_dns_query("a..\u{e9}", QTYPE_A);
    assert_eq!(&q[12..], &[1, b'a', 0, 2, 0xc3, 0xa9, 0, 0, 1, 0, 1]);
    let long = "x".repeat(258);
    assert_eq!(build_dns_query(&long, QTYPE_A)[12], 2);
}

#[test]
fn name_of_a_query_is_skipped() {
    let longest = "x".repeat(63);
    let many = vec!["a"; 128].join(".");
    for host in ["example.com", "a", "b\u{e9}.c", longest.as_str(), many.as_str()] {
        let q = build_dns_query(host, QTYPE_A);
        assert_eq!(q.len(), host.len() + 18);
        assert_eq!(skip_dns_name(&q, 12), Some(q.len() - 4));
    }
    let too_many = vec!["a"; 129].join(".");
    assert_eq!(skip_dns_name(&build_dns_query(&too_many, QTYPE_A), 12), None);
}

#[test]
fn pointers_take_two_bytes() {
    assert_eq!(skip_dns_name(&[0xc0, 12, 7], 0), Some(2));
    assert_eq!(skip_dns_name(&[1, b'a', 0xc0], 0), Some(4));
    assert_eq!(skip_dns_name(&[1, b'a'], 0), None);
    assert_eq!(skip_dns_name(&[], 0), None);
    // An answer that is cut inside a pointer has no further records.
    let good = record(&[0xc0, 12], 1, 1, &[1, 2, 3, 4]);
    let msg = answer(&[good.clone(), good]);
    assert_eq!(parse_dns_records(&msg[..msg.len() - 15]), vec![V4]);
}

#[test]
fn answers_are_read_each_once() {
    let pointer = [0xc0, 12];
    let v4 = record(&pointer, 1, 1, &[1, 2, 3, 4]);
    let v6 = record(b"\x01a\x00", 28, 1, &[
        0x26, 0x20, 0, 0xfe, 0, 0, 0, 0, 0, 0, 0, 0, 0, 0, 0, 0xfe,
    ]);
    let cname = record(&pointer, 5, 1, &[1, b'b', 0]);
    let chaos = record(&pointer, 1, 3, &[9, 9, 9, 9]);
    let short = record(&pointer, 1, 1, &[9, 9, 9]);
    let msg = answer(&[cname, v6.clone(), v4.clone(), chaos, short, v6, v4]);
    assert_eq!(parse_dns_records(&msg), vec![V6, V4]);
}

#[test]
fn broken_answers() {
    assert!(parse_dns_records(&[]).is_empty());
    assert!(parse_dns_records(&[0; 11]).is_empty());
    assert!(parse_dns_records(&[0; 12]).is_empty());
    let pointer = [0xc0, 12];
    let good = record(&pointer, 1, 1, &[1, 2, 3, 4]);
    let msg = answer(&[good.clone(), good]);
    // What is complete is kept.
    assert_eq!(parse_dns_records(&msg[..msg.len() - 1]), vec![V4]);
    assert_eq!(parse_dns_records(&msg[..msg.len() - 16]), vec![V4]);
    // A question that is cut off leaves nothing.
    assert!(parse_dns_records(&msg[..20]).is_empty());
    let mut endless = vec![0u8; 12];
    endless[7] = 1;
    endless.extend_from_slice(&[1u8, b'x'].repeat(129));
    endless.push(0);
    endless.extend_from_slice(&[0, 1, 0, 1, 0, 0, 0, 0, 0, 4, 1, 2, 3, 4]);
    assert!(parse_dns_records(&endless).is_empty());
    // One label fewer is still a name.
    endless.drain(12..14);
    assert_eq!(parse_dns_records(&endless), vec![V4]);
}

#[test]
fn merging_keeps_each_once() {
    let mut ips = vec![V4];
    push_unique_ip(&mut ips, V4);
    push_unique_ip(&mut ips, V6);
    assert_eq!(ips, vec![V4, V6]);
    push_unique_ips(&mut ips, &vec![V6, IpAddr::V4(7), V4, IpAddr::V4(7)]);
    assert_eq!(ips, vec![V4, V6, IpAddr::V4(7)]);
}

#[test]
fn system_answers() {
    assert_eq!(system_lookup("h", &vec![V4, V4, V6]), Ok(vec![V4, V6]));
    assert_eq!(system_lookup("h", &vec![]), Err("no IP address for h".to_string()));
}

#[test]
fn ways_of_a_lookup() {
    assert_eq!(resolver(vec![], true, true, false).lookup_path(), Ok(LookupPath::System));
    assert_eq!(resolver(vec![V4], false, false, true).lookup_path(), Ok(LookupPath::Tunnel));
    assert_eq!(resolver(vec![V4], false, true, true).lookup_path(), Ok(LookupPath::Host));
    assert_eq!(resolver(vec![V4], false, false, false).lookup_path(), Ok(LookupPath::Host));
    assert_eq!(
        resolver(vec![], false, false, true).lookup_path(),
        Err("no DNS servers configured".to_string())
    );
    assert!(matches!(resolver(vec![], true, true, false).lookup_ips("h"), LookupBegin::AskSystem));
    match resolver(vec![], false, true, false).lookup_ips("h") {
        LookupBegin::Failed(text) => assert_eq!(text, "no DNS servers configured"),
        _ => panic!("expected a failure"),
    }
    match resolver(vec![V6, V4], false, false, true).lookup_ips("h") {
        LookupBegin::AskServers(_, LookupAction::Open(server)) => assert_eq!(server, V6),
        _ => panic!("expected a server"),
    }
}

#[test]
fn outcomes_of_a_query() {
    let text = |outcome: QueryOutcome| query_dns_via_tunnel(V4, outcome).err().unwrap();
    assert_eq!(text(QueryOutcome::SendTimedOut), "dns send timed out to 1.2.3.4");
    assert_eq!(text(QueryOutcome::RecvTimedOut), "dns recv timed out from 1.2.3.4");
    assert_eq!(text(QueryOutcome::RecvFailed("x".to_string())), "x");
    assert_eq!(
        text(QueryOutcome::Reply(answer(&[]))),
        "no records in response from 1.2.3.4"
    );
    let reply = answer(&[record(&[0xc0, 12], 1, 1, &[1, 2, 3, 4])]);
    assert_eq!(query_dns_via_tunnel(V6, QueryOutcome::Reply(reply)), Ok(vec![V4]));
    assert_eq!(
        query_dns_via_tunnel(V6, QueryOutcome::SendTimedOut),
        Err("dns send timed out to 2620:fe::fe".to_string())
    );
}

#[test]
fn outcomes_of_a_query_from_the_host() {
    assert!(query_dns_via_host(QueryOutcome::SendTimedOut).is_empty());
    assert!(query_dns_via_host(QueryOutcome::RecvTimedOut).is_empty());
    assert!(query_dns_via_host(QueryOutcome::RecvFailed("x".to_string())).is_empty());
    assert!(query_dns_via_host(QueryOutcome::Reply(answer(&[]))).is_empty());
    let reply = answer(&[record(&[0xc0, 12], 1, 1, &[1, 2, 3, 4])]);
    assert_eq!(query_dns_via_host(QueryOutcome::Reply(reply)), vec![V4]);
}

#[test]
fn first_server_with_addresses_decides() {
    let (mut lookup, action) = NameLookup::start(true, vec![V4, V6], "h".to_string());
    assert!(matches!(action, LookupAction::Open(ip) if ip == V4));
    let action = lookup.step(LookupEvent::OpenFailed("no socket".to_string()));
    assert!(matches!(action, LookupAction::Open(ip) if ip == V6));
    let action = lookup.step(LookupEvent::Opened);
    assert!(matches!(action, LookupAction::Ask(ip, QTYPE_AAAA) if ip == V6));
    let action = lookup.step(LookupEvent::Answer(Ok(vec![V6, V6])));
    assert!(matches!(action, LookupAction::Ask(ip, QTYPE_A) if ip == V6));
    match lookup.step(LookupEvent::Answer(Ok(vec![V4, V6]))) {
        LookupAction::Found(ips) => assert_eq!(ips, vec![V6, V4]),
        _ => panic!("expected addresses"),
    }
}

#[test]
fn servers_are_asked_in_order_through_the_tunnel() {
    let (mut lookup, _) = NameLookup::start(true, vec![V4, V6], "h".to_string());
    lookup.step(LookupEvent::Opened);
    lookup.step(LookupEvent::Answer(Err("first".to_string())));
    let action = lookup.step(LookupEvent::Answer(Err("second".to_string())));
    assert!(matches!(action, LookupAction::Open(ip) if ip == V6));
    match lookup.step(LookupEvent::OpenFailed("third".to_string())) {
        LookupAction::Failed(text) => assert_eq!(text, "third"),
        _ => panic!("expected a failure"),
    }
}

#[test]
fn lookup_from_the_host() {
    let (mut lookup, _) = NameLookup::start(false, vec![V4, V6], "h".to_string());
    lookup.step(LookupEvent::Opened);
    lookup.step(LookupEvent::Answer(Err("ignored".to_string())));
    let action = lookup.step(LookupEvent::Answer(Ok(vec![])));
    assert!(matches!(action, LookupAction::Open(ip) if ip == V6));
    lookup.step(LookupEvent::Opened);
    lookup.step(LookupEvent::Answer(Ok(vec![])));
    match lookup.step(LookupEvent::Answer(Err("ignored".to_string()))) {
        LookupAction::Failed(text) => assert_eq!(text, "dns query failed for 2620:fe::fe"),
        _ => panic!("expected a failure"),
    }
    // A socket that cannot be opened ends the lookup.
    let (mut lookup, _) = NameLookup::start(false, vec![V4, V6], "h".to_string());
    match lookup.step(LookupEvent::OpenFailed("no socket".to_string())) {
        LookupAction::Failed(text) => assert_eq!(text, "no socket"),
        _ => panic!("expected a failure"),
    }
}

#[test]
fn lookup_without_servers() {
    match NameLookup::start(true, vec![], "h".to_string()).1 {
        LookupAction::Failed(text) => assert_eq!(text, "all DNS servers failed for h"),
        _ => panic!("expected a failure"),
    }
}

#[test]
fn first_address_of_a_host() {
    assert_eq!(DnsResolver::lookup_ip("h", &vec![V6, V4]), Ok(V6));
    assert_eq!(
        DnsResolver::lookup_ip("h", &vec![]),
        Err("no IP address for h".to_string())
    );
}
