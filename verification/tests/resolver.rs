use toy_dns_server::buffer::BytePacketBuffer;
use toy_dns_server::header::ResultCode;
use toy_dns_server::packet::{str_ends_with, DnsPacket};
use toy_dns_server::question::{DnsQuestion, QueryType};
use toy_dns_server::record::{DnsRecord, Ipv4Address};
use toy_dns_server::resolver::{
    lookup_request, root_server, Lookup, Progress, Resolver, Suspended,
};
use toy_dns_server::server::{accept_query, finish_query, Handling};

fn ip(a: u8, b: u8, c: u8, d: u8) -> Ipv4Address {
    Ipv4Address { octets: [a, b, c, d] }
}

fn a(domain: &str, addr: Ipv4Address) -> DnsRecord {
    DnsRecord::A { domain: domain.to_string(), addr, ttl: 60 }
}

fn ns(domain: &str, host: &str) -> DnsRecord {
    DnsRecord::Ns { domain: domain.to_string(), host: host.to_string(), ttl: 60 }
}

fn answer(domain: &str, addr: Ipv4Address) -> DnsPacket {
    let mut packet = DnsPacket::new();
    packet.header.response = true;
    packet.answers.push(a(domain, addr));
    packet
}

fn referral(authorities: Vec<DnsRecord>, resources: Vec<DnsRecord>) -> DnsPacket {
    let mut packet = DnsPacket::new();
    packet.header.response = true;
    packet.authorities = authorities;
    packet.resources = resources;
    packet
}

fn asking(progress: Progress) -> Resolver {
    match progress {
        Progress::Ask(resolver) => resolver,
        Progress::Done(packet) => panic!("done with {:?}", packet),
    }
}

fn done(progress: Progress) -> DnsPacket {
    match progress {
        Progress::Done(packet) => packet,
        Progress::Ask(resolver) => panic!("asking {:?}", resolver),
    }
}

/// Runs a resolution against canned responses and tells each exchange.
fn resolve(
    qname: &str,
    qtype: QueryType,
    upstream: &dyn Fn(Ipv4Address, &str, QueryType) -> DnsPacket,
) -> (DnsPacket, Vec<(Ipv4Address, String, QueryType)>) {
    let mut resolver = Resolver::new(qname, qtype);
    let mut exchanges = Vec::new();
    loop {
        assert!(exchanges.len() < 50);
        let request = resolver.request();
        assert_eq!(request.questions.len(), 1);
        let question = request.questions[0].clone();
        exchanges.push((resolver.server(), question.name.clone(), question.qtype));
        let response = upstream(resolver.server(), &question.name, question.qtype);
        match resolver.advance(response) {
            Progress::Done(packet) => return (packet, exchanges),
            Progress::Ask(next) => resolver = next,
        }
    }
}

// ---- what a message offers ----

#[test]
fn first_a_answer_is_selected() {
    let mut packet = DnsPacket::new();
    assert_eq!(packet.get_random_a(), None);
    packet.answers.push(DnsRecord::Cname {
        domain: "www.example.com".to_string(),
        host: "example.com".to_string(),
        ttl: 60,
    });
    assert_eq!(packet.get_random_a(), None);
    packet.answers.push(a("example.com", ip(1, 2, 3, 4)));
    packet.answers.push(a("example.com", ip(5, 6, 7, 8)));
    assert_eq!(packet.get_random_a(), Some(ip(1, 2, 3, 4)));
    packet.resources.push(a("example.com", ip(9, 9, 9, 9)));
    assert_eq!(packet.get_random_a(), Some(ip(1, 2, 3, 4)));
}

#[test]
fn name_servers_are_those_whose_zone_ends_the_name() {
    let packet = referral(
        vec![
            ns("org", "a.org-servers.net"),
            ns("com", "a.gtld-servers.net"),
            a("com", ip(1, 1, 1, 1)),
            ns("google.com", "ns1.google.com"),
            ns("", "a.root-servers.net"),
            ns("oogle.com", "evil.example"),
            ns("www.google.com", "too.long.example"),
        ],
        vec![],
    );
    let found = packet.get_ns("google.com");
    let found: Vec<(&str, &str)> = found.iter().map(|(d, h)| (d.as_str(), h.as_str())).collect();
    assert_eq!(
        found,
        vec![
            ("com", "a.gtld-servers.net"),
            ("google.com", "ns1.google.com"),
            ("", "a.root-servers.net"),
            ("oogle.com", "evil.example"),
        ]
    );
    assert_eq!(packet.get_unresolved_ns("google.com"), Some("a.gtld-servers.net"));
    assert_eq!(packet.get_unresolved_ns("example.org"), Some("a.org-servers.net"));
    assert_eq!(packet.get_unresolved_ns("example.net"), Some("a.root-servers.net"));
    assert!(DnsPacket::new().get_ns("google.com").is_empty());
    assert_eq!(DnsPacket::new().get_unresolved_ns("google.com"), None);
}

#[test]
fn suffix_is_matched_byte_for_byte() {
    assert!(str_ends_with("google.com", "com"));
    assert!(str_ends_with("google.com", "google.com"));
    assert!(str_ends_with("google.com", ""));
    assert!(str_ends_with("", ""));
    assert!(str_ends_with("evilgoogle.com", "google.com"));
    assert!(!str_ends_with("google.com", "goo"));
    assert!(!str_ends_with("com", "google.com"));
    assert!(!str_ends_with("google.com", "Com"));
    assert!(str_ends_with("münchen.de", "nchen.de"));
}

#[test]
fn glue_is_taken_from_the_first_server_that_has_some() {
    let packet = referral(
        vec![
            ns("com", "a.gtld-servers.net"),
            ns("com", "b.gtld-servers.net"),
            ns("com", "c.gtld-servers.net"),
        ],
        vec![
            a("c.gtld-servers.net", ip(3, 3, 3, 3)),
            DnsRecord::Ns { domain: "b.gtld-servers.net".to_string(), host: "x".to_string(), ttl: 1 },
            a("b.gtld-servers.net", ip(2, 2, 2, 2)),
            a("b.gtld-servers.net", ip(2, 2, 2, 3)),
            a("elsewhere.net", ip(4, 4, 4, 4)),
        ],
    );
    assert_eq!(packet.get_resolved_ns("google.com"), Some(ip(2, 2, 2, 2)));
    assert_eq!(packet.get_resolved_ns("google.org"), None);

    let packet = referral(
        vec![ns("com", "a.gtld-servers.net")],
        vec![a("b.gtld-servers.net", ip(2, 2, 2, 2))],
    );
    assert_eq!(packet.get_resolved_ns("google.com"), None);
    assert_eq!(packet.get_unresolved_ns("google.com"), Some("a.gtld-servers.net"));
}

// ---- the resolver ----

#[test]
fn root_server_address() {
    assert_eq!(root_server(), ip(198, 41, 0, 4));
}

#[test]
fn lookup_request_asks_one_question() {
    let mut request = lookup_request("google.com", QueryType::A);
    assert_eq!(request.header.id, 6666);
    assert!(request.header.recursion_desired);
    assert!(!request.header.response);
    assert_eq!(request.header.questions, 1);
    assert_eq!(
        request.questions,
        vec![DnsQuestion::new("google.com".to_string(), QueryType::A)]
    );
    assert!(request.answers.is_empty());
    assert!(request.authorities.is_empty());
    assert!(request.resources.is_empty());

    let mut buffer = BytePacketBuffer::new();
    request.write(&mut buffer).unwrap();
    assert_eq!(buffer.position, 28);
    assert_eq!(&buffer.buffer[..3], &[0x1a, 0x0a, 0x01]);
}

#[test]
fn resolver_starts_at_the_root() {
    let resolver = Resolver::new("google.com", QueryType::Mx);
    assert_eq!(
        resolver,
        Resolver {
            current: Lookup {
                qname: "google.com".to_string(),
                qtype: QueryType::Mx,
                ns: ip(198, 41, 0, 4)
            },
            waiting: vec![],
        }
    );
    assert_eq!(resolver.server(), ip(198, 41, 0, 4));
    assert_eq!(resolver.request(), lookup_request("google.com", QueryType::Mx));
}

#[test]
fn answer_ends_the_lookup_after_one_exchange() {
    let response = answer("google.com", ip(142, 250, 1, 1));
    let (result, exchanges) = resolve("google.com", QueryType::A, &|_, _, _| {
        answer("google.com", ip(142, 250, 1, 1))
    });
    assert_eq!(result, response);
    assert_eq!(
        exchanges,
        vec![(ip(198, 41, 0, 4), "google.com".to_string(), QueryType::A)]
    );
}

#[test]
fn answer_with_an_error_code_does_not_end_the_lookup() {
    let mut response = answer("google.com", ip(1, 1, 1, 1));
    response.header.rescode = ResultCode::ServFail;
    response.authorities.push(ns("com", "a.gtld-servers.net"));
    response.resources.push(a("a.gtld-servers.net", ip(192, 5, 6, 30)));
    let next = asking(Resolver::new("google.com", QueryType::A).advance(response));
    assert_eq!(next.server(), ip(192, 5, 6, 30));
}

#[test]
fn missing_name_ends_the_lookup() {
    let mut response = referral(
        vec![ns("com", "a.gtld-servers.net")],
        vec![a("a.gtld-servers.net", ip(192, 5, 6, 30))],
    );
    response.header.rescode = ResultCode::NxDomain;
    let result = done(Resolver::new("nothing.com", QueryType::A).advance(response.clone()));
    assert_eq!(result, response);
}

#[test]
fn response_without_name_servers_ends_the_lookup() {
    let response = referral(vec![ns("org", "a.org-servers.net")], vec![]);
    let result = done(Resolver::new("google.com", QueryType::A).advance(response.clone()));
    assert_eq!(result, response);

    let mut empty = DnsPacket::new();
    empty.header.rescode = ResultCode::Refused;
    let result = done(Resolver::new("google.com", QueryType::A).advance(empty.clone()));
    assert_eq!(result, empty);
}

#[test]
fn glued_referral_is_followed_without_a_lookup_of_its_own() {
    let response = referral(
        vec![ns("com", "a.gtld-servers.net")],
        vec![a("a.gtld-servers.net", ip(192, 5, 6, 30))],
    );
    let next = asking(Resolver::new("google.com", QueryType::A).advance(response));
    assert_eq!(
        next,
        Resolver {
            current: Lookup {
                qname: "google.com".to_string(),
                qtype: QueryType::A,
                ns: ip(192, 5, 6, 30)
            },
            waiting: vec![],
        }
    );
    assert_eq!(next.request(), lookup_request("google.com", QueryType::A));
}

#[test]
fn referral_without_glue_begins_a_lookup_of_the_name_server() {
    let response = referral(vec![ns("example.com", "ns1.example.com")], vec![]);
    let first = Resolver::new("www.example.com", QueryType::Aaaa);
    let next = asking(first.clone().advance(response.clone()));
    assert_eq!(
        next,
        Resolver {
            current: Lookup {
                qname: "ns1.example.com".to_string(),
                qtype: QueryType::A,
                ns: ip(198, 41, 0, 4)
            },
            waiting: vec![Suspended { lookup: first.current.clone(), referral: response }],
        }
    );
    assert_eq!(next.request(), lookup_request("ns1.example.com", QueryType::A));
    assert_eq!(next.server(), ip(198, 41, 0, 4));
}

#[test]
fn lookup_goes_on_at_the_address_found_for_the_name_server() {
    let response = referral(vec![ns("example.com", "ns1.example.com")], vec![]);
    let waiting = asking(Resolver::new("www.example.com", QueryType::Aaaa).advance(response));
    let next = asking(waiting.advance(answer("ns1.example.com", ip(10, 1, 2, 3))));
    assert_eq!(
        next,
        Resolver {
            current: Lookup {
                qname: "www.example.com".to_string(),
                qtype: QueryType::Aaaa,
                ns: ip(10, 1, 2, 3)
            },
            waiting: vec![],
        }
    );
}

#[test]
fn lookup_ends_with_the_referral_when_the_name_server_has_no_address() {
    let response = referral(vec![ns("example.com", "ns1.example.com")], vec![]);
    let waiting =
        asking(Resolver::new("www.example.com", QueryType::A).advance(response.clone()));
    let mut missing = DnsPacket::new();
    missing.header.rescode = ResultCode::NxDomain;
    assert_eq!(done(waiting.advance(missing)), response);
}

#[test]
fn lookups_of_name_servers_nest() {
    let outer = referral(vec![ns("example.com", "ns.example.net")], vec![]);
    let inner = referral(vec![ns("example.net", "ns.example.org")], vec![]);
    let r1 = asking(Resolver::new("www.example.com", QueryType::A).advance(outer.clone()));
    let r2 = asking(r1.advance(inner.clone()));
    assert_eq!(r2.waiting.len(), 2);
    assert_eq!(r2.current.qname, "ns.example.org");

    let r3 = asking(r2.clone().advance(answer("ns.example.org", ip(7, 7, 7, 7))));
    assert_eq!(r3.waiting.len(), 1);
    assert_eq!(r3.current.qname, "ns.example.net");
    assert_eq!(r3.current.ns, ip(7, 7, 7, 7));

    let mut nothing = DnsPacket::new();
    nothing.header.rescode = ResultCode::NxDomain;
    assert_eq!(done(r2.advance(nothing)), outer);
}

#[test]
fn delegation_chain_is_walked_to_the_answer() {
    let upstream = |server: Ipv4Address, qname: &str, qtype: QueryType| -> DnsPacket {
        if server == ip(198, 41, 0, 4) && qname == "www.example.com" {
            referral(
                vec![ns("com", "a.gtld-servers.net")],
                vec![a("a.gtld-servers.net", ip(192, 5, 6, 30))],
            )
        } else if server == ip(192, 5, 6, 30) {
            referral(vec![ns("example.com", "ns1.example.net")], vec![])
        } else if server == ip(198, 41, 0, 4) && qname == "ns1.example.net" {
            assert_eq!(qtype, QueryType::A);
            answer("ns1.example.net", ip(203, 0, 113, 53))
        } else if server == ip(203, 0, 113, 53) {
            answer("www.example.com", ip(93, 184, 216, 34))
        } else {
            panic!("unexpected query of {:?} for {}", server, qname)
        }
    };
    let (result, exchanges) = resolve("www.example.com", QueryType::A, &upstream);
    assert_eq!(result, answer("www.example.com", ip(93, 184, 216, 34)));
    assert_eq!(
        exchanges,
        vec![
            (ip(198, 41, 0, 4), "www.example.com".to_string(), QueryType::A),
            (ip(192, 5, 6, 30), "www.example.com".to_string(), QueryType::A),
            (ip(198, 41, 0, 4), "ns1.example.net".to_string(), QueryType::A),
            (ip(203, 0, 113, 53), "www.example.com".to_string(), QueryType::A),
        ]
    );
}

// ---- the query handler ----

#[test]
fn request_without_a_question_is_a_format_error() {
    let mut request = DnsPacket::new();
    request.header.id = 0x4242;
    request.answers.push(a("x", ip(1, 1, 1, 1)));
    let response = match accept_query(request) {
        Handling::Reply(response) => response,
        other => panic!("{:?}", other),
    };
    assert_eq!(response.header.id, 0x4242);
    assert!(response.header.response);
    assert!(response.header.recursion_desired);
    assert!(response.header.recursion_available);
    assert_eq!(response.header.rescode, ResultCode::FormErr);
    assert!(response.questions.is_empty());
    assert!(response.answers.is_empty());
    assert!(response.authorities.is_empty());
    assert!(response.resources.is_empty());

    let mut response = response;
    let mut buffer = BytePacketBuffer::new();
    response.write(&mut buffer).unwrap();
    assert_eq!(buffer.position, 12);
    assert_eq!(
        &buffer.buffer[..12],
        &[0x42, 0x42, 0x81, 0x81, 0, 0, 0, 0, 0, 0, 0, 0]
    );
}

#[test]
fn last_question_of_a_request_is_resolved() {
    let mut request = DnsPacket::new();
    request.header.id = 7;
    request.header.opcode = 5;
    request.questions.push(DnsQuestion::new("first.example".to_string(), QueryType::A));
    request.questions.push(DnsQuestion::new("last.example".to_string(), QueryType::Mx));
    match accept_query(request) {
        Handling::Resolve(response, question) => {
            assert_eq!(question, DnsQuestion::new("last.example".to_string(), QueryType::Mx));
            let mut seed = DnsPacket::new();
            seed.header.id = 7;
            seed.header.response = true;
            seed.header.recursion_desired = true;
            seed.header.recursion_available = true;
            assert_eq!(response, seed);
        }
        other => panic!("{:?}", other),
    }
}

#[test]
fn response_takes_over_what_was_resolved() {
    let mut request = DnsPacket::new();
    request.header.id = 9;
    request.questions.push(DnsQuestion::new("google.com".to_string(), QueryType::A));
    let (seed, question) = match accept_query(request) {
        Handling::Resolve(response, question) => (response, question),
        other => panic!("{:?}", other),
    };
    let mut found = answer("google.com", ip(1, 2, 3, 4));
    found.header.id = 6666;
    found.header.rescode = ResultCode::NotImp;
    found.header.authoritative_answer = true;
    found.questions.push(DnsQuestion::new("other".to_string(), QueryType::A));
    found.authorities.push(ns("google.com", "ns1.google.com"));
    found.resources.push(a("ns1.google.com", ip(5, 6, 7, 8)));
    found.resources.push(a("ns2.google.com", ip(5, 6, 7, 9)));

    let response = finish_query(seed.clone(), question.clone(), Some(found.clone()));
    assert_eq!(response.header.id, 9);
    assert_eq!(response.header.rescode, ResultCode::NotImp);
    assert!(!response.header.authoritative_answer);
    assert!(response.header.response);
    assert_eq!(response.questions, vec![question.clone()]);
    assert_eq!(response.answers, found.answers);
    assert_eq!(response.authorities, found.authorities);
    assert_eq!(response.resources, found.resources);

    let failed = finish_query(seed.clone(), question, None);
    let mut expected = seed;
    expected.header.rescode = ResultCode::ServFail;
    assert_eq!(failed, expected);
    assert!(failed.questions.is_empty());
}
