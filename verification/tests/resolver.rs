use simpledns::dns_server::{make_reply, DnsServer, Lookup, QueryStep};
use simpledns::error::DnsError;
use simpledns::name::DnsName;
use simpledns::packet::DnsPacket;
use simpledns::question::DnsQuestion;
use simpledns::record::{DnsRecord, RecordData};
use simpledns::types::{DnsQueryType, DnsResponseCode};

fn name(labels: &[&str]) -> DnsName {
    DnsName::new(labels.iter().map(|l| l.as_bytes().to_vec()).collect())
}

fn query(id: u16, labels: &[&str], query_type: DnsQueryType) -> Vec<u8> {
    let mut p = DnsPacket::new();
    p.header.id = id;
    p.header.recurse_desired = true;
    p.add_question(DnsQuestion::new(name(labels), query_type));
    p.to_bytes().unwrap()
}

fn table() -> Vec<DnsRecord> {
    vec![
        DnsRecord::new(name(&["example", "com"]), 300, RecordData::A([93, 184, 216, 34])),
        DnsRecord::new(name(&["example", "com"]), 300, RecordData::NS(name(&["ns", "example", "com"]))),
        DnsRecord::new(name(&["other", "com"]), 60, RecordData::A([10, 0, 0, 1])),
        DnsRecord::new(name(&["example", "com"]), 30, RecordData::A([93, 184, 216, 35])),
    ]
}

fn server(servers: &[&str], records: Vec<DnsRecord>) -> DnsServer {
    assert!(DnsServer::accepts(&records));
    DnsServer::new(53, 42069, servers.iter().map(|s| s.to_string()).collect(), records)
}

#[test]
fn new_keeps_the_ports() {
    let s = server(&["1.1.1.1"], Vec::new());
    assert_eq!(s.listen_port(), 53);
    assert_eq!(s.backup_port(), 42069);
    let t = DnsServer::new(5300, 5301, Vec::new(), Vec::new());
    assert_eq!(t.listen_port(), 5300);
    assert_eq!(t.backup_port(), 5301);
}

#[test]
fn table_with_an_invalid_name_is_not_accepted() {
    let bad = vec![DnsRecord::new(DnsName::new(vec![Vec::new()]), 1, RecordData::A([1, 1, 1, 1]))];
    assert!(!DnsServer::accepts(&bad));
    assert!(DnsServer::accepts(&table()));
}

#[test]
fn local_hit_scenario() {
    let records =
        vec![DnsRecord::new(name(&["example", "com"]), 300, RecordData::A([93, 184, 216, 34]))];
    let s = server(&["1.1.1.1"], records);
    let step = s.handle_query(&query(0xBEEF, &["example", "com"], DnsQueryType::A));
    let bytes = match step {
        QueryStep::Reply(bytes) => bytes,
        _ => panic!("a reply was expected"),
    };
    let reply = DnsPacket::from_bytes(&bytes).unwrap();
    assert_eq!(reply.header.id, 0xBEEF);
    assert_eq!(reply.header.response_code, DnsResponseCode::NOERROR);
    assert!(reply.header.query_response);
    assert!(reply.header.recurse_desired);
    assert!(reply.header.recurse_available);
    assert_eq!(reply.question_section, vec![DnsQuestion::new(name(&["example", "com"]), DnsQueryType::A)]);
    assert_eq!(reply.answer_section.len(), 1);
    assert_eq!(reply.answer_section[0].data, RecordData::A([93, 184, 216, 34]));
    assert_eq!(reply.answer_section[0].name, name(&["example", "com"]));
    assert_eq!(reply.answer_section[0].ttl, 300);
    assert!(reply.authority_section.is_empty());
    assert!(reply.additional_section.is_empty());
}

#[test]
fn local_answers_are_all_matching_records_in_table_order() {
    let s = server(&[], table());
    let found = s.find_local(&name(&["example", "com"]), DnsQueryType::A);
    assert_eq!(found.len(), 2);
    assert_eq!(found[0].data, RecordData::A([93, 184, 216, 34]));
    assert_eq!(found[1].data, RecordData::A([93, 184, 216, 35]));
    assert_eq!(s.find_local(&name(&["example", "com"]), DnsQueryType::NS).len(), 1);
    assert!(s.find_local(&name(&["example", "com"]), DnsQueryType::AAAA).is_empty());
    assert!(s.find_local(&name(&["example", "org"]), DnsQueryType::A).is_empty());
    assert!(s.find_local(&name(&["com"]), DnsQueryType::A).is_empty());
}

#[test]
fn missing_question_scenario() {
    let s = server(&["1.1.1.1"], table());
    let mut p = DnsPacket::new();
    p.header.id = 77;
    let step = s.handle_query(&p.to_bytes().unwrap());
    let bytes = match step {
        QueryStep::Reply(bytes) => bytes,
        _ => panic!("a reply was expected"),
    };
    let reply = DnsPacket::from_bytes(&bytes).unwrap();
    assert_eq!(reply.header.id, 77);
    assert_eq!(reply.header.response_code, DnsResponseCode::FORMERR);
    assert!(reply.header.query_response);
    assert!(reply.question_section.is_empty());
    assert!(reply.answer_section.is_empty());
    assert!(reply.authority_section.is_empty());
    assert!(reply.additional_section.is_empty());
}

#[test]
fn forwarding_scenario() {
    let s = server(&["9.9.9.9"], table());
    let step = s.handle_query(&query(0x1111, &["nowhere", "net"], DnsQueryType::A));
    let pending = match step {
        QueryStep::Forward(pending) => pending,
        _ => panic!("a forward was expected"),
    };
    assert_eq!(pending.server(), "9.9.9.9");
    assert_eq!(pending.port(), 53);
    assert_eq!(pending.request_id(), 0x1111);
    let outbound = DnsPacket::from_bytes(pending.query()).unwrap();
    assert!(outbound.header.recurse_desired);
    assert!(!outbound.header.query_response);
    assert_eq!(outbound.header.id, 0);
    assert_eq!(outbound.question_section, vec![DnsQuestion::new(name(&["nowhere", "net"]), DnsQueryType::A)]);
    assert!(outbound.answer_section.is_empty());

    let mut upstream = DnsPacket::new();
    upstream.header.id = 0x2222;
    upstream.header.query_response = true;
    upstream.header.response_code = DnsResponseCode::NOERROR;
    upstream.add_question(DnsQuestion::new(name(&["nowhere", "net"]), DnsQueryType::A));
    upstream.add_answer(DnsRecord::new(name(&["nowhere", "net"]), 120, RecordData::A([192, 0, 2, 1])));
    let mut response = upstream.to_bytes().unwrap();
    response.resize(512, 0);

    let reply = DnsPacket::from_bytes(&pending.finish(Some(&response))).unwrap();
    assert_eq!(reply.header.id, 0x1111);
    assert_eq!(reply.header.response_code, DnsResponseCode::NOERROR);
    assert!(reply.header.query_response);
    assert!(reply.header.recurse_desired);
    assert!(reply.header.recurse_available);
    assert_eq!(reply.answer_section, vec![DnsRecord::new(name(&["nowhere", "net"]), 120, RecordData::A([192, 0, 2, 1]))]);
    assert_eq!(reply.question_section.len(), 1);
}

#[test]
fn upstream_code_and_sections_are_relayed() {
    let s = server(&["9.9.9.9"], Vec::new());
    let pending = match s.handle_query(&query(5, &["gone", "net"], DnsQueryType::MX)) {
        QueryStep::Forward(pending) => pending,
        _ => panic!("a forward was expected"),
    };
    let mut upstream = DnsPacket::new();
    upstream.header.response_code = DnsResponseCode::NXDOMAIN;
    upstream.add_authority(DnsRecord::new(name(&["net"]), 1, RecordData::NS(name(&["a", "net"]))));
    upstream.add_additional(DnsRecord::new(name(&["a", "net"]), 2, RecordData::A([1, 2, 3, 4])));
    let reply = DnsPacket::from_bytes(&pending.finish(Some(&upstream.to_bytes().unwrap()))).unwrap();
    assert_eq!(reply.header.id, 5);
    assert_eq!(reply.header.response_code, DnsResponseCode::NXDOMAIN);
    assert!(reply.answer_section.is_empty());
    assert_eq!(reply.authority_section, upstream.authority_section);
    assert_eq!(reply.additional_section, upstream.additional_section);
}

#[test]
fn failed_exchange_gives_servfail() {
    let s = server(&["9.9.9.9"], Vec::new());
    let pending = match s.handle_query(&query(9, &["x"], DnsQueryType::A)) {
        QueryStep::Forward(pending) => pending,
        _ => panic!("a forward was expected"),
    };
    for response in [None, Some(&[1u8, 2, 3][..]), Some(&[0u8, 0, 0, 0, 0, 0, 0, 1, 0, 0, 0, 0][..])] {
        let reply = DnsPacket::from_bytes(&pending.finish(response)).unwrap();
        assert_eq!(reply.header.id, 9);
        assert_eq!(reply.header.response_code, DnsResponseCode::SERVFAIL);
        assert!(reply.header.query_response);
        assert!(reply.question_section.is_empty());
        assert!(reply.answer_section.is_empty());
    }
}

#[test]
fn malformed_input_scenario() {
    let s = server(&["1.1.1.1"], table());
    assert!(matches!(s.handle_query(&[]), QueryStep::Drop(DnsError::TruncatedMessage)));
    assert!(matches!(s.handle_query(&[1, 2, 3]), QueryStep::Drop(DnsError::TruncatedMessage)));
    let mut truncated = query(1, &["example", "com"], DnsQueryType::A);
    truncated.pop();
    assert!(matches!(s.handle_query(&truncated), QueryStep::Drop(DnsError::TruncatedMessage)));
    let mut looping = vec![0u8; 12];
    looping[5] = 1;
    looping.extend([0xC0, 12, 0, 1, 0, 1]);
    assert!(matches!(s.handle_query(&looping), QueryStep::Drop(DnsError::CompressionLoop)));
    let mut garbage = vec![0xFFu8; 12];
    garbage.extend([0x55, 1, 2, 3]);
    assert!(matches!(s.handle_query(&garbage), QueryStep::Drop(DnsError::InvalidLabel)));
}

#[test]
fn only_the_first_question_is_answered() {
    let s = server(&[], table());
    let mut p = DnsPacket::new();
    p.header.id = 3;
    p.add_question(DnsQuestion::new(name(&["other", "com"]), DnsQueryType::A));
    p.add_question(DnsQuestion::new(name(&["example", "com"]), DnsQueryType::A));
    let bytes = match s.handle_query(&p.to_bytes().unwrap()) {
        QueryStep::Reply(bytes) => bytes,
        _ => panic!("a reply was expected"),
    };
    let reply = DnsPacket::from_bytes(&bytes).unwrap();
    assert_eq!(reply.question_section, vec![DnsQuestion::new(name(&["other", "com"]), DnsQueryType::A)]);
    assert_eq!(reply.answer_section.len(), 1);
    assert_eq!(reply.answer_section[0].data, RecordData::A([10, 0, 0, 1]));
}

#[test]
fn upstream_is_one_of_the_configured_servers() {
    let hosts = ["1.1.1.1", "8.8.4.4", "9.9.9.9"];
    let s = server(&hosts, Vec::new());
    let mut seen = [false; 3];
    for _ in 0..200 {
        match s.lookup(1, &name(&["q"]), DnsQueryType::A) {
            Ok(Lookup::Forward { server, port, query }) => {
                let i = hosts.iter().position(|h| *h == server).expect("a configured server");
                seen[i] = true;
                assert_eq!(port, 53);
                assert!(!query.is_empty());
            },
            _ => panic!("a forward was expected"),
        }
    }
    assert!(seen.iter().any(|s| *s));
}

#[test]
fn without_servers_the_public_resolver_is_asked() {
    let s = server(&[], Vec::new());
    match s.lookup(1, &name(&["q"]), DnsQueryType::A) {
        Ok(Lookup::Forward { server, port, query }) => {
            assert_eq!(server, "8.8.8.8");
            assert_eq!(port, 53);
            assert_eq!(query, vec![0, 0, 1, 0, 0, 1, 0, 0, 0, 0, 0, 0, 1, b'q', 0, 0, 1, 0, 1]);
        },
        _ => panic!("a forward was expected"),
    }
}

#[test]
fn lookup_answers_locally_with_the_request_id() {
    let s = server(&["1.1.1.1"], table());
    match s.lookup(0x4242, &name(&["other", "com"]), DnsQueryType::A) {
        Ok(Lookup::Local(p)) => {
            assert_eq!(p.header.id, 0x4242);
            assert_eq!(p.header.response_code, DnsResponseCode::NOERROR);
            assert_eq!(p.header.answer_count, 1);
            assert_eq!(p.answer_section[0].data, RecordData::A([10, 0, 0, 1]));
        },
        _ => panic!("a local answer was expected"),
    }
}

#[test]
fn lookup_of_a_name_that_cannot_be_written_fails() {
    let s = server(&["1.1.1.1"], Vec::new());
    let bad = DnsName::new(vec![vec![b'a'; 64]]);
    assert!(matches!(s.lookup(1, &bad, DnsQueryType::A), Err(DnsError::ResolutionFailed)));
}

#[test]
fn reply_models() {
    let mut request = DnsPacket::new();
    request.header.id = 12;
    let formerr = make_reply(&request, Err(DnsError::ResolutionFailed));
    assert_eq!(formerr.header.response_code, DnsResponseCode::FORMERR);
    request.add_question(DnsQuestion::new(name(&["a"]), DnsQueryType::A));
    let servfail = make_reply(&request, Err(DnsError::ResolutionFailed));
    assert_eq!(servfail.header.response_code, DnsResponseCode::SERVFAIL);
    assert_eq!(servfail.header.id, 12);
    assert!(servfail.question_section.is_empty());
    let mut result = DnsPacket::new();
    result.header.id = 99;
    result.header.response_code = DnsResponseCode::REFUSED;
    result.add_answer(DnsRecord::new(name(&["a"]), 1, RecordData::A([1, 1, 1, 1])));
    let reply = make_reply(&request, Ok(result));
    assert_eq!(reply.header.id, 12);
    assert_eq!(reply.header.response_code, DnsResponseCode::REFUSED);
    assert_eq!(reply.header.question_count, 1);
    assert_eq!(reply.header.answer_count, 1);
    assert_eq!(reply.question_section.len(), 1);
    assert_eq!(reply.answer_section.len(), 1);
}
