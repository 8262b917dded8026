use dns_resolver::engine::{Action, ResolveError, Resolver, ROOT_SERVER};
use dns_resolver::message::{
    build_query, check_labels, get_additional, get_answer, get_ns, parse_response, Record,
    Response,
};

fn ip(a: u8, b: u8, c: u8, d: u8) -> u32 {
    u32::from_be_bytes([a, b, c, d])
}

fn push_name(out: &mut Vec<u8>, name: &str) {
    for label in name.split('.').filter(|l| !l.is_empty()) {
        out.push(label.len() as u8);
        out.extend_from_slice(label.as_bytes());
    }
    out.push(0);
}

enum Rr<'a> {
    A(u32),
    Ns(&'a str),
    Cname(&'a str),
}

fn push_record(out: &mut Vec<u8>, owner: &str, rr: &Rr) {
    push_name(out, owner);
    let (typ, data) = match rr {
        Rr::A(addr) => (1u16, addr.to_be_bytes().to_vec()),
        Rr::Ns(n) => {
            let mut d = Vec::new();
            push_name(&mut d, n);
            (2u16, d)
        }
        Rr::Cname(n) => {
            let mut d = Vec::new();
            push_name(&mut d, n);
            (5u16, d)
        }
    };
    out.extend_from_slice(&typ.to_be_bytes());
    out.extend_from_slice(&1u16.to_be_bytes());
    out.extend_from_slice(&3600u32.to_be_bytes());
    out.extend_from_slice(&(data.len() as u16).to_be_bytes());
    out.extend_from_slice(&data);
}

/// A response to a query for `qname` with the given code and sections.
fn reply(qname: &str, rcode: u8, answers: &[(&str, Rr)], authority: &[(&str, Rr)], additional: &[(&str, Rr)]) -> Vec<u8> {
    let mut out = vec![0, 1, 0x81, 0x80 | rcode];
    for n in [1usize, answers.len(), authority.len(), additional.len()] {
        out.extend_from_slice(&(n as u16).to_be_bytes());
    }
    push_name(&mut out, qname);
    out.extend_from_slice(&[0, 1, 0, 1]);
    for section in [answers, authority, additional] {
        for (owner, rr) in section {
            push_record(&mut out, owner, rr);
        }
    }
    out
}

fn expect_query(action: &Action, server: u32, name: &str) {
    match action {
        Action::Query { server: s, name: n, message } => {
            assert_eq!(*s, server);
            assert_eq!(n, name);
            assert_eq!(Some(message.clone()), build_query(name));
        }
        other => panic!("expected a query, got {:?}", other),
    }
}

#[test]
fn query_bytes_for_example_com() {
    let m = build_query("example.com").unwrap();
    let expected: Vec<u8> = vec![
        0, 1, 1, 0, 0, 1, 0, 0, 0, 0, 0, 0, 7, b'e', b'x', b'a', b'm', b'p', b'l', b'e', 3, b'c',
        b'o', b'm', 0, 0, 1, 0, 1,
    ];
    assert_eq!(m, expected);
}

#[test]
fn query_bytes_keep_trailing_dot_and_empty_name() {
    assert_eq!(build_query("a.").unwrap()[12..], [1, b'a', 0, 0, 0, 1, 0, 1]);
    assert_eq!(build_query("").unwrap()[12..], [0, 0, 0, 1, 0, 1]);
}

#[test]
fn label_of_63_bytes_is_refused() {
    let long = "a".repeat(63);
    assert_eq!(build_query(&long), None);
    assert!(!check_labels(&long.as_bytes().to_vec()));
    let ok = "a".repeat(62);
    assert!(check_labels(&ok.as_bytes().to_vec()));
    assert_eq!(build_query(&ok).unwrap().len(), 12 + 64 + 4);
}

#[test]
fn message_over_512_bytes_is_refused() {
    let label = "a".repeat(60);
    let name_494 = vec![label.as_str(); 8].join(".") + "." + &"b".repeat(6);
    assert_eq!(name_494.len(), 494);
    assert_eq!(build_query(&name_494).unwrap().len(), 512);
    let name_495 = name_494.clone() + "b";
    assert_eq!(build_query(&name_495), None);
}

#[test]
fn parse_reads_sections() {
    let bytes = reply(
        "example.com",
        0,
        &[("example.com", Rr::A(ip(93, 184, 216, 34)))],
        &[("com", Rr::Ns("a.gtld-servers.net")), ("com", Rr::Cname("x.y"))],
        &[("a.gtld-servers.net", Rr::A(ip(192, 5, 6, 30)))],
    );
    let r = parse_response(&bytes).unwrap();
    assert_eq!(r.rcode, 0);
    assert_eq!(r.answers, vec![Record::Address(ip(93, 184, 216, 34))]);
    assert_eq!(r.nameservers, vec![Record::NameServer("a.gtld-servers.net".to_string()), Record::Other]);
    assert_eq!(r.additional, vec![Record::Address(ip(192, 5, 6, 30))]);
}

#[test]
fn parse_reads_response_code() {
    let r = parse_response(&reply("bad.invalid", 3, &[], &[], &[])).unwrap();
    assert_eq!(r.rcode, 3);
}

#[test]
fn parse_refuses_short_packet() {
    assert_eq!(parse_response(&[0, 1, 0x81]), None);
    assert_eq!(parse_response(&[]), None);
}

fn response(answers: Vec<Record>, nameservers: Vec<Record>, additional: Vec<Record>) -> Response {
    Response { rcode: 0, answers, nameservers, additional }
}

#[test]
fn answer_is_first_record_only() {
    let r = response(vec![Record::Other, Record::Address(7)], vec![], vec![]);
    assert_eq!(get_answer(&r), None);
    let r = response(vec![Record::Address(7), Record::Address(8)], vec![], vec![]);
    assert_eq!(get_answer(&r), Some(7));
    assert_eq!(get_answer(&response(vec![], vec![], vec![])), None);
}

#[test]
fn glue_skips_other_records() {
    let r = response(vec![], vec![], vec![Record::Other, Record::NameServer("x".to_string()), Record::Address(9), Record::Address(10)]);
    assert_eq!(get_additional(&r), Some(9));
    assert_eq!(get_additional(&response(vec![], vec![], vec![Record::Other])), None);
}

#[test]
fn delegation_skips_other_records() {
    let r = response(vec![], vec![Record::Address(1), Record::NameServer("ns1.example".to_string()), Record::NameServer("ns2.example".to_string())], vec![]);
    assert_eq!(get_ns(&r), Some("ns1.example".to_string()));
    assert_eq!(get_ns(&response(vec![], vec![Record::Other], vec![])), None);
}

#[test]
fn address_answer_resolves() {
    let mut r = Resolver::new("example.com");
    let a = r.query();
    expect_query(&a, ROOT_SERVER, "example.com");
    assert_eq!(ROOT_SERVER, ip(198, 41, 0, 4));
    let b = reply("example.com", 0, &[("example.com", Rr::A(ip(93, 184, 216, 34)))], &[("com", Rr::Ns("a.gtld-servers.net"))], &[("x", Rr::A(ip(1, 1, 1, 1)))]);
    assert_eq!(r.handle_reply(&b), Action::Resolved(ip(93, 184, 216, 34)));
    assert!(r.is_finished());
}

#[test]
fn non_address_first_answer_falls_through() {
    let mut r = Resolver::new("www.example.com");
    r.query();
    let b = reply("www.example.com", 0, &[("www.example.com", Rr::Cname("example.com")), ("example.com", Rr::A(ip(1, 2, 3, 4)))], &[], &[]);
    assert_eq!(r.handle_reply(&b), Action::Failed(ResolveError::Exhausted));
}

#[test]
fn glue_gives_next_server() {
    let mut r = Resolver::new("example.com");
    r.query();
    let b = reply("example.com", 0, &[], &[], &[("x.example", Rr::Cname("y")), ("a.example", Rr::A(ip(192, 0, 2, 1))), ("b.example", Rr::A(ip(192, 0, 2, 2)))]);
    let a = r.handle_reply(&b);
    expect_query(&a, ip(192, 0, 2, 1), "example.com");
    assert_eq!(r.depth(), 1);
}

#[test]
fn delegation_resolves_nameserver_from_root() {
    let mut r = Resolver::new("example.com");
    r.query();
    let b = reply("example.com", 0, &[], &[("example.com", Rr::Ns("a.iana-servers.net")), ("example.com", Rr::Ns("b.iana-servers.net"))], &[]);
    let a = r.handle_reply(&b);
    expect_query(&a, ROOT_SERVER, "a.iana-servers.net");
    assert_eq!(r.depth(), 2);
    let b = reply("a.iana-servers.net", 0, &[("a.iana-servers.net", Rr::A(ip(199, 43, 135, 53)))], &[], &[]);
    let a = r.handle_reply(&b);
    expect_query(&a, ip(199, 43, 135, 53), "example.com");
    assert_eq!(r.depth(), 1);
    let b = reply("example.com", 0, &[("example.com", Rr::A(ip(93, 184, 216, 34)))], &[], &[]);
    assert_eq!(r.handle_reply(&b), Action::Resolved(ip(93, 184, 216, 34)));
}

#[test]
fn error_status_fails_at_once() {
    let mut r = Resolver::new("example.com");
    r.query();
    let b = reply("example.com", 2, &[("example.com", Rr::A(ip(1, 2, 3, 4)))], &[], &[]);
    assert_eq!(r.handle_reply(&b), Action::Failed(ResolveError::Status(2)));
    assert!(r.is_finished());
}

#[test]
fn empty_response_is_exhausted() {
    let mut r = Resolver::new("example.com");
    r.query();
    let b = reply("example.com", 0, &[], &[], &[]);
    assert_eq!(r.handle_reply(&b), Action::Failed(ResolveError::Exhausted));
    assert!(r.is_finished());
}

#[test]
fn malformed_reply_fails() {
    let mut r = Resolver::new("example.com");
    r.query();
    assert_eq!(r.handle_reply(&[1, 2, 3]), Action::Failed(ResolveError::Decode));
    assert!(r.is_finished());
}

#[test]
fn unencodable_name_fails() {
    let mut r = Resolver::new(&"x".repeat(70));
    assert_eq!(r.query(), Action::Failed(ResolveError::Encode));
    assert!(r.is_finished());
}

#[test]
fn nested_failure_ends_whole_resolution() {
    let mut r = Resolver::new("example.com");
    r.query();
    r.handle_reply(&reply("example.com", 0, &[], &[("example.com", Rr::Ns("ns.broken"))], &[]));
    assert_eq!(r.depth(), 2);
    let a = r.handle_reply(&reply("ns.broken", 3, &[], &[], &[]));
    assert_eq!(a, Action::Failed(ResolveError::Status(3)));
    assert!(r.is_finished());
}

/// A deterministic server: the root delegates everything to a nameserver
/// without glue, which the root answers for; that server answers the name.
fn mock_server(server: u32, name: &str) -> Vec<u8> {
    if server == ROOT_SERVER && name == "ns.example.net" {
        reply(name, 0, &[(name, Rr::A(ip(203, 0, 113, 7)))], &[], &[])
    } else if server == ROOT_SERVER {
        reply(name, 0, &[], &[("net", Rr::Ns("ns.example.net"))], &[])
    } else if server == ip(203, 0, 113, 7) {
        reply(name, 0, &[], &[], &[("glue", Rr::A(ip(198, 51, 100, 9)))])
    } else {
        reply(name, 0, &[(name, Rr::A(ip(192, 0, 2, 80)))], &[], &[])
    }
}

fn run(name: &str) -> (Vec<(u32, String)>, Action) {
    let mut r = Resolver::new(name);
    let mut asked = Vec::new();
    let mut action = r.query();
    while let Action::Query { server, name, .. } = &action {
        asked.push((*server, name.clone()));
        let b = mock_server(*server, name);
        action = r.handle_reply(&b);
    }
    (asked, action)
}

#[test]
fn resolving_twice_repeats_every_query() {
    let first = run("www.example.org");
    let second = run("www.example.org");
    assert_eq!(first.1, Action::Resolved(ip(192, 0, 2, 80)));
    assert_eq!(first, second);
    assert_eq!(
        first.0,
        vec![
            (ROOT_SERVER, "www.example.org".to_string()),
            (ROOT_SERVER, "ns.example.net".to_string()),
            (ip(203, 0, 113, 7), "www.example.org".to_string()),
            (ip(198, 51, 100, 9), "www.example.org".to_string()),
        ]
    );
}

#[test]
fn glue_takes_precedence_over_delegation() {
    let mut r = Resolver::new("example.com");
    expect_query(&r.query(), ROOT_SERVER, "example.com");
    let b = reply("example.com", 0, &[], &[("example.com", Rr::Ns("a.example.net"))], &[("a.example.net", Rr::A(ip(203, 0, 113, 1)))]);
    let a = r.handle_reply(&b);
    expect_query(&a, ip(203, 0, 113, 1), "example.com");
    assert_eq!(r.depth(), 1);
}

#[test]
fn name_error_fails_resolution() {
    let mut r = Resolver::new("bad.invalid");
    expect_query(&r.query(), ROOT_SERVER, "bad.invalid");
    let a = r.handle_reply(&reply("bad.invalid", 3, &[], &[], &[]));
    assert_eq!(a, Action::Failed(ResolveError::Status(3)));
}
