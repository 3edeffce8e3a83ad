use veex::dns::wire::{
    build_a_query, parse_query_domain, parse_query_info, parse_response_ips,
    parse_response_min_ttl, rewrite_message_id, DnsQueryInfo, DNS_TYPE_A, DNS_TYPE_AAAA,
};
use veex::error::{ErrorKind, ProxyError};
use veex::time::Duration;
use veex::types::IpAddr;

fn protocol(message: &str) -> ProxyError {
    ProxyError::Protocol(message.to_string())
}

fn header(id: u16, flags: [u8; 2], questions: u16, answers: u16) -> Vec<u8> {
    let mut bytes = Vec::new();
    bytes.extend_from_slice(&id.to_be_bytes());
    bytes.extend_from_slice(&flags);
    bytes.extend_from_slice(&questions.to_be_bytes());
    bytes.extend_from_slice(&answers.to_be_bytes());
    bytes.extend_from_slice(&[0, 0, 0, 0]);
    bytes
}

fn record(kind: u16, class: u16, ttl: u32, data: &[u8]) -> Vec<u8> {
    let mut bytes = vec![0xc0, 0x0c];
    bytes.extend_from_slice(&kind.to_be_bytes());
    bytes.extend_from_slice(&class.to_be_bytes());
    bytes.extend_from_slice(&ttl.to_be_bytes());
    bytes.extend_from_slice(&(data.len() as u16).to_be_bytes());
    bytes.extend_from_slice(data);
    bytes
}

fn response(records: &[Vec<u8>]) -> Vec<u8> {
    let query = build_a_query("example.com", 0x1234).expect("query should build");
    let mut bytes = header(0x1234, [0x81, 0x80], 1, records.len() as u16);
    bytes.extend_from_slice(&query[12..]);
    for record in records {
        bytes.extend_from_slice(record);
    }
    bytes
}

#[test]
fn parses_single_question_query_name() {
    let query = vec![
        0x12, 0x34, 0x01, 0x00, 0x00, 0x01, 0x00, 0x00, 0x00, 0x00, 0x00, 0x00, 0x03, b'w', b'w',
        b'w', 0x07, b'e', b'x', b'a', b'm', b'p', b'l', b'e', 0x03, b'c', b'o', b'm', 0x00, 0x00,
        0x01, 0x00, 0x01,
    ];

    let domain = parse_query_domain(&query).expect("query domain should parse");
    assert_eq!(domain, "www.example.com");
}

#[test]
fn builds_a_query_with_requested_domain() {
    let query = build_a_query("Example.COM", 0x1234).expect("query should build");
    assert_eq!(
        parse_query_domain(&query).expect("query domain should parse"),
        "example.com"
    );
    assert_eq!(&query[..2], &[0x12, 0x34]);
    assert_eq!(
        parse_query_info(&query)
            .expect("query info should parse")
            .qtype,
        DNS_TYPE_A
    );
}

#[test]
fn parses_ipv4_answers_from_response() {
    let query = build_a_query("example.com", 0x1234).expect("query should build");
    let mut response = Vec::new();
    response.extend_from_slice(&query[..2]);
    response.extend_from_slice(&[0x81, 0x80]);
    response.extend_from_slice(&1u16.to_be_bytes());
    response.extend_from_slice(&1u16.to_be_bytes());
    response.extend_from_slice(&0u16.to_be_bytes());
    response.extend_from_slice(&0u16.to_be_bytes());
    response.extend_from_slice(&query[12..]);
    response.extend_from_slice(&[0xc0, 0x0c]);
    response.extend_from_slice(&1u16.to_be_bytes());
    response.extend_from_slice(&1u16.to_be_bytes());
    response.extend_from_slice(&60u32.to_be_bytes());
    response.extend_from_slice(&4u16.to_be_bytes());
    response.extend_from_slice(&[203, 0, 113, 5]);

    let addresses = parse_response_ips(&response).expect("response should parse");
    assert_eq!(addresses, vec![IpAddr::V4([203, 0, 113, 5])]);
    assert_eq!(
        parse_response_min_ttl(&response, DNS_TYPE_A).expect("ttl should parse"),
        Some(Duration::from_secs(60))
    );
}

#[test]
fn rewrite_message_id_updates_transaction_id_only() {
    let query = build_a_query("example.com", 0x1234).expect("query should build");
    let rewritten = rewrite_message_id(&query, 0xbeef).expect("query id should rewrite");

    assert_eq!(&rewritten[..2], &[0xbe, 0xef]);
    assert_eq!(&rewritten[2..], &query[2..]);
}

#[test]
fn a_query_has_the_exact_wire_form() {
    let query = build_a_query("a.Bc.", 0x0102).expect("query should build");
    assert_eq!(
        query,
        vec![
            1, 2, 1, 0, 0, 1, 0, 0, 0, 0, 0, 0, 1, b'a', 2, b'b', b'c', 0, 0, 1, 0, 1
        ]
    );
}

#[test]
fn a_built_query_parses_back() {
    for domain in ["example.com", "A.B.C", "trailing.dot..", "b\u{fc}cher.example"] {
        let query = build_a_query(domain, 7).expect("query should build");
        assert_eq!(
            parse_query_info(&query).expect("query should parse"),
            DnsQueryInfo {
                id: 7,
                name: domain.trim_end_matches('.').to_ascii_lowercase(),
                qtype: DNS_TYPE_A,
            }
        );
    }
}

#[test]
fn queries_that_cannot_be_built_are_refused() {
    assert_eq!(
        build_a_query("...", 1),
        Err(protocol("dns query domain must not be empty"))
    );
    assert_eq!(
        build_a_query("a..b", 1),
        Err(protocol("dns label length is invalid"))
    );
    let long = "x".repeat(64);
    assert_eq!(
        build_a_query(&long, 1),
        Err(protocol("dns label length is invalid"))
    );
    assert!(build_a_query(&"x".repeat(63), 1).is_ok());
    // Thirty-two characters of two bytes each.
    assert_eq!(
        build_a_query(&"\u{fc}".repeat(32), 1),
        Err(protocol("dns label length is invalid"))
    );
}

#[test]
fn faults_in_a_query_are_told_apart() {
    assert_eq!(
        parse_query_info(&[0; 11]),
        Err(protocol("dns message is shorter than the header"))
    );
    assert_eq!(
        parse_query_info(&header(1, [1, 0], 0, 0)),
        Err(protocol("dns query must contain at least one question"))
    );
    assert_eq!(
        parse_query_info(&header(1, [1, 0], 1, 0)),
        Err(protocol("dns name truncated"))
    );

    let with = |rest: &[u8]| {
        let mut bytes = header(1, [1, 0], 1, 0);
        bytes.extend_from_slice(rest);
        parse_query_info(&bytes)
    };
    assert_eq!(
        with(&[1, b'a', 0, 0, 1, 0]),
        Err(protocol("dns question is missing qtype or qclass"))
    );
    assert_eq!(with(&[5, b'a']), Err(protocol("dns label truncated")));
    assert_eq!(
        with(&[1, 0xff, 0]),
        Err(protocol("dns label is not valid utf-8"))
    );
    assert_eq!(
        with(&[0xc0]),
        Err(protocol("dns compression pointer truncated"))
    );
    assert_eq!(
        with(&[0xff, 0xff]),
        Err(protocol("dns compression pointer out of range"))
    );
    // A pointer to itself.
    assert_eq!(
        with(&[0xc0, 0x0c]),
        Err(protocol("dns name compression depth exceeded"))
    );
    assert!(parse_query_domain(&[]).is_err());
}

#[test]
fn compression_pointers_are_followed() {
    let mut message = header(9, [1, 0], 1, 0);
    // The question's name is "www" and a pointer to offset 24, where "example" stands.
    message.extend_from_slice(&[3, b'W', b'w', b'w', 0xc0, 24, 0, 28, 0, 1]);
    message.extend_from_slice(&[0, 0]);
    assert_eq!(message.len(), 24);
    message.extend_from_slice(&[7, b'e', b'x', b'a', b'm', b'p', b'l', b'e', 0]);
    let info = parse_query_info(&message).expect("query should parse");
    assert_eq!(info.name, "www.example");
    assert_eq!(info.qtype, DNS_TYPE_AAAA);
    assert_eq!(info.id, 9);
}

#[test]
fn responses_give_usable_addresses_in_order() {
    let v6: Vec<u8> = (0..16).collect();
    let message = response(&[
        record(DNS_TYPE_AAAA, 1, 30, &v6),
        record(5, 1, 10, &[1, b'x', 0]),
        record(DNS_TYPE_A, 3, 10, &[9, 9, 9, 9]),
        record(DNS_TYPE_A, 1, 90, &[192, 0, 2, 1]),
        record(DNS_TYPE_A, 1, 90, &[1, 2, 3]),
    ]);
    let mut octets = [0u8; 16];
    octets.copy_from_slice(&v6);
    assert_eq!(
        parse_response_ips(&message),
        Ok(vec![IpAddr::V6(octets), IpAddr::V4([192, 0, 2, 1])])
    );
}

#[test]
fn responses_without_addresses_are_resolve_errors() {
    let err = parse_response_ips(&response(&[])).expect_err("no answer");
    assert_eq!(err.kind(), ErrorKind::Resolve);
    assert_eq!(
        err.message(),
        "dns response did not contain usable A/AAAA answers"
    );
}

#[test]
fn faults_in_a_response_are_told_apart() {
    assert_eq!(
        parse_response_ips(&[0; 5]),
        Err(protocol("dns response is shorter than the header"))
    );
    let mut question = header(1, [0x81, 0x80], 1, 0);
    question.extend_from_slice(&[0, 0, 1]);
    assert_eq!(
        parse_response_ips(&question),
        Err(protocol("dns question is truncated"))
    );

    let whole = response(&[record(DNS_TYPE_A, 1, 60, &[1, 2, 3, 4])]);
    assert_eq!(
        parse_response_ips(&whole[..whole.len() - 1]),
        Err(protocol("dns answer data is truncated"))
    );
    assert_eq!(
        parse_response_ips(&whole[..whole.len() - 5]),
        Err(protocol("dns answer header is truncated"))
    );
    assert_eq!(
        parse_response_min_ttl(&whole[..whole.len() - 1], DNS_TYPE_A),
        Err(protocol("dns answer data is truncated"))
    );
}

#[test]
fn the_least_positive_matching_ttl_counts() {
    let message = response(&[
        record(DNS_TYPE_A, 1, 300, &[1, 2, 3, 4]),
        record(DNS_TYPE_A, 1, 0, &[1, 2, 3, 4]),
        record(5, 1, 7, &[0]),
        record(DNS_TYPE_A, 3, 8, &[1, 2, 3, 4]),
        record(DNS_TYPE_A, 1, 120, &[1, 2, 3, 5]),
        record(DNS_TYPE_A, 1, 200, &[1, 2, 3, 6]),
    ]);
    assert_eq!(
        parse_response_min_ttl(&message, DNS_TYPE_A),
        Ok(Some(Duration::from_secs(120)))
    );
    assert_eq!(
        parse_response_min_ttl(&message, 5),
        Ok(Some(Duration::from_secs(7)))
    );
    assert_eq!(parse_response_min_ttl(&message, DNS_TYPE_AAAA), Ok(None));
}

#[test]
fn only_successful_responses_have_a_ttl() {
    let mut message = response(&[record(DNS_TYPE_A, 1, 300, &[1, 2, 3, 4])]);
    message[3] = 0x83;
    assert_eq!(parse_response_min_ttl(&message, DNS_TYPE_A), Ok(None));
    message[2] = 0x01;
    assert_eq!(
        parse_response_min_ttl(&message, DNS_TYPE_A),
        Err(protocol("dns message is not a response"))
    );
    assert_eq!(
        parse_response_min_ttl(&[0; 3], DNS_TYPE_A),
        Err(protocol("dns response is shorter than the header"))
    );
}

#[test]
fn a_rewritten_response_stays_usable() {
    let message = response(&[record(DNS_TYPE_A, 1, 300, &[1, 2, 3, 4])]);
    let rewritten = rewrite_message_id(&message, 1).expect("id should rewrite");
    assert_eq!(parse_response_ips(&rewritten), parse_response_ips(&message));
    assert_eq!(
        parse_response_min_ttl(&rewritten, DNS_TYPE_A),
        parse_response_min_ttl(&message, DNS_TYPE_A)
    );
    assert_eq!(parse_query_info(&rewritten).expect("question").id, 1);
    assert_eq!(
        rewrite_message_id(&[1], 1),
        Err(protocol("dns message is shorter than the transaction id"))
    );
    assert_eq!(rewrite_message_id(&[1, 2], 0x0304), Ok(vec![3, 4]));
}
