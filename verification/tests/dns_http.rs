use veex::dns::headers::{is_before, HeaderMap, HttpHeader};
use veex::dns::http::{
    parse_http1_head, read_body, read_doh_http1_response, write_doh_http1_request,
    DEFAULT_DOH_PATH, MAX_HTTP_HEADER_BYTES,
};
use veex::error::ProxyError;

fn header(name: &str, value: &str) -> HttpHeader {
    HttpHeader {
        name: name.to_string(),
        value: value.to_string(),
    }
}

fn header_map(fields: &[(&str, &str)]) -> HeaderMap {
    let mut headers = HeaderMap::new();
    for (name, value) in fields {
        headers.insert(name.to_string(), value.to_string());
    }
    headers
}

fn refused(response: &[u8]) -> String {
    match read_doh_http1_response(response, true) {
        Err(ProxyError::Protocol(message)) => message,
        other => panic!("unexpected outcome {other:?}"),
    }
}

#[test]
fn writes_doh_http1_post_request_with_required_headers() {
    let body = b"\x12\x34query".to_vec();

    let request = write_doh_http1_request(
        "dns.example.com",
        "/dns-query",
        &header_map(&[("X-Test", "true")]),
        &body,
    );

    let request = String::from_utf8_lossy(&request);
    assert!(request.contains("POST /dns-query HTTP/1.1\r\n"));
    assert!(request.contains("Host: dns.example.com\r\n"));
    assert!(request.contains("Content-Type: application/dns-message\r\n"));
    assert!(request.contains("Accept: application/dns-message\r\n"));
    assert!(request.contains("X-Test: true\r\n"));
}

#[test]
fn reads_doh_http1_response_body_from_content_length() {
    let expected = b"\x12\x34response".to_vec();
    let mut response = format!(
        "HTTP/1.1 200 OK\r\nContent-Length: {}\r\nConnection: close\r\n\r\n",
        expected.len()
    )
    .into_bytes();
    response.extend_from_slice(&expected);

    let body = read_doh_http1_response(&response, false)
        .expect("response should parse")
        .expect("response should be complete");

    assert_eq!(body, b"\x12\x34response");
}

#[test]
fn the_request_has_the_exact_form() {
    let request = write_doh_http1_request(
        "h",
        DEFAULT_DOH_PATH,
        &header_map(&[
            ("z", "late"),
            ("CONTENT-length", "7"),
            ("Connection", "keep-alive"),
            ("accept", "*/*"),
            ("A", "1"),
            ("Host", "other"),
            ("content-TYPE", "text/plain"),
            ("z", ""),
        ]),
        b"ab",
    );
    assert_eq!(
        String::from_utf8(request).expect("request is text"),
        "POST /dns-query HTTP/1.1\r\nA: 1\r\nz: \r\nHost: h\r\n\
         Accept: application/dns-message\r\nContent-Type: application/dns-message\r\n\
         Content-Length: 2\r\nConnection: close\r\n\r\nab"
    );
}

#[test]
fn a_response_is_read_in_any_pieces() {
    let response = b"HTTP/1.1 204 No\r\ncontent-length: 3\r\n\r\nabcdef";
    for length in 0..response.len() - 3 {
        assert_eq!(read_doh_http1_response(&response[..length], false), Ok(None));
        assert_eq!(read_doh_http1_response(&response[..length], true), Ok(None));
    }
    for length in response.len() - 3..response.len() {
        assert_eq!(
            read_doh_http1_response(&response[..length], false),
            Ok(Some(b"abc".to_vec()))
        );
    }
}

#[test]
fn without_a_length_the_body_lasts_to_the_end() {
    let response = b"HTTP/1.0 200\r\n\r\nbody";
    assert_eq!(read_doh_http1_response(response, false), Ok(None));
    assert_eq!(
        read_doh_http1_response(response, true),
        Ok(Some(b"body".to_vec()))
    );
    assert_eq!(
        refused(b"HTTP/1.0 200\r\n\r\n"),
        "dns over https upstream returned an empty response body"
    );
    assert_eq!(
        refused(b"HTTP/1.0 200\r\ncontent-length:0\r\n\r\nbody"),
        "dns over https upstream returned an empty response body"
    );
}

#[test]
fn faults_in_a_response_are_refused() {
    assert_eq!(
        refused(b"HTTP/1.1 404 Not Found\r\n\r\n"),
        "dns over https upstream returned HTTP status 404"
    );
    assert_eq!(
        refused(b"HTTP/1.1 199\r\n\r\n"),
        "dns over https upstream returned HTTP status 199"
    );
    assert_eq!(
        refused(b"HTTP/1.1 200\r\nTransfer-Encoding: CHUNKED\r\n\r\n"),
        "dns over https chunked responses are not supported yet"
    );
    assert_eq!(
        refused(b"\r\n\r\n"),
        "dns over https response status line is empty"
    );
    assert_eq!(
        refused(b"HTTQ/1.1 200\r\n\r\n"),
        "dns over https response status line is invalid: HTTQ/1.1 200"
    );
    assert_eq!(
        refused(b"HTTP/1.1 \r\n\r\n"),
        "dns over https response is missing a status code"
    );
    assert_eq!(
        refused(b"HTTP/1.1 200\r\nnocolon\r\n\r\n"),
        "dns over https response header is malformed: nocolon"
    );
}

#[test]
fn numbers_are_read_as_the_standard_library_reads_them() {
    for text in ["", "+", "-1", "2x0", "65536", "99999999999999999999", "+200", "0200", "65535"] {
        let mut head = "HTTP/1.1 ".to_string();
        head.push_str(text);
        let status = parse_http1_head(&head);
        if text.is_empty() {
            assert!(status.is_err());
            continue;
        }
        match text.parse::<u16>() {
            Ok(code) => assert_eq!(status.expect("status should parse").0, code),
            Err(err) => assert_eq!(
                status.expect_err("status should not parse").message(),
                format!("dns over https response status code is invalid: {err}")
            ),
        }

        let headers = vec![header("content-length", text)];
        let body = read_body(200, &headers, &[], true);
        match text.parse::<usize>() {
            Ok(_) => assert_eq!(body, Ok(None)),
            Err(err) => assert_eq!(
                body.expect_err("length should not parse").message(),
                format!("dns over https response content-length is invalid: {err}")
            ),
        }
    }
    let empty = read_body(200, &vec![header("content-length", "")], &[], true);
    assert_eq!(
        empty.expect_err("length should not parse").message(),
        format!(
            "dns over https response content-length is invalid: {}",
            "".parse::<usize>().expect_err("empty")
        )
    );
}

#[test]
fn a_head_that_is_no_text_is_refused_with_the_cause() {
    for head in [&b"HTTP/1.1 200\xff"[..], b"a\xe2\x82", b"\xf0\x9f\x92\x96\xc0\x80"] {
        let mut response = head.to_vec();
        response.extend_from_slice(b"\r\n\r\n");
        let cause = std::str::from_utf8(head).expect_err("not text");
        assert_eq!(
            refused(&response),
            format!("dns over https response is not UTF-8: {cause}")
        );
    }
}

#[test]
fn headers_are_trimmed_lowered_and_the_last_one_counts() {
    let (status, headers) =
        parse_http1_head("HTTP/2 299 x\r\n\r\n X-Upper \t: \u{a0}Value \r\na:b:c")
            .expect("head should parse");
    assert_eq!(status, 299);
    assert_eq!(
        headers,
        vec![header("x-upper", "Value"), header("a", "b:c")]
    );
    let twice = vec![header("content-length", "9"), header("content-length", "1")];
    assert_eq!(read_body(200, &twice, b"xy", false), Ok(Some(b"x".to_vec())));
}

#[test]
fn a_head_has_a_largest_length() {
    let mut response = b"HTTP/1.1 200\r\nx: ".to_vec();
    response.resize(MAX_HTTP_HEADER_BYTES - 4, b'y');
    response.extend_from_slice(b"\r\n\r\n");
    assert_eq!(response.len(), 16384);
    response.push(b'!');
    assert_eq!(
        read_doh_http1_response(&response, true),
        Ok(Some(b"!".to_vec()))
    );

    response.insert(20, b'y');
    assert_eq!(
        refused(&response),
        "dns over https response headers exceed 16384 bytes"
    );
    assert_eq!(
        read_doh_http1_response(&response[..MAX_HTTP_HEADER_BYTES - 1], true),
        Ok(None)
    );
}

#[test]
fn headers_are_kept_like_a_sorted_map() {
    let names = ["b", "a", "", "ab", "B", "b", "\u{e9}", "z", "\u{10000}", "\u{ffff}", "a"];
    let mut headers = HeaderMap::new();
    let mut expected = std::collections::BTreeMap::new();
    for (position, name) in names.iter().enumerate() {
        headers.insert(name.to_string(), position.to_string());
        expected.insert(name.to_string(), position.to_string());
        let kept: Vec<_> = headers
            .entries()
            .iter()
            .map(|h| (h.name.clone(), h.value.clone()))
            .collect();
        assert_eq!(kept, expected.clone().into_iter().collect::<Vec<_>>());
        assert_eq!(headers.clone(), headers);
    }
    for a in names {
        for b in names {
            assert_eq!(is_before(a, b), a < b);
        }
    }
}
