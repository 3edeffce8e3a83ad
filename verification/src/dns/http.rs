//! DNS over HTTPS: the HTTP/1.1 request and the response to it.

use vstd::prelude::*;
use vstd::string::*;
use vstd::utf8::*;

use crate::dns::headers::{ascending, header_view, header_views, HeaderMap, HttpHeader};
use crate::error::{protocol_error, ErrorKind, ErrorView, ProxyError, Result};
use crate::text::{
    clone_bytes, decimal, decimal_text, digits_value, fault_text, is_white,
    law_decimal_appends_digits, law_decimal_is_read_back, law_lines_are_what_line_ends_separate,
    law_split_at_first_separator, law_words_are_what_white_space_separates, lines, lower,
    number_value, parse_number, same_text, same_text_ignoring_case, split_at_first, split_lines,
    split_once, split_words, starts_with, texts, to_lower, trim_text, trimmed, utf8_error_text,
    utf8_text, words, NumberFault,
};

verus! {

/// The path of a DNS-over-HTTPS server unless configured otherwise.
pub const DEFAULT_DOH_PATH: &'static str = "/dns-query";

/// The largest response head that is accepted, with the empty line that ends it.
pub const MAX_HTTP_HEADER_BYTES: usize = 16384;

/// Whether the request sets this header itself.
pub open spec fn is_reserved(name: Seq<char>) -> bool {
    let n = lower(name);
    n == "host"@ || n == "accept"@ || n == "content-type"@ || n == "content-length"@ || n
        == "connection"@
}

/// The lines of the configured headers, without those that the request sets itself.
pub open spec fn header_lines(headers: Seq<(Seq<char>, Seq<char>)>) -> Seq<char>
    decreases headers.len(),
{
    if headers.len() == 0 {
        seq![]
    } else {
        let front = header_lines(headers.drop_last());
        let (name, value) = headers.last();
        if is_reserved(name) {
            front
        } else {
            front + name + ": "@ + value + "\r\n"@
        }
    }
}

/// The head of a request with a body of `length` bytes.
pub open spec fn request_head(
    host: Seq<char>,
    path: Seq<char>,
    headers: Seq<(Seq<char>, Seq<char>)>,
    length: nat,
) -> Seq<char> {
    "POST "@ + path + " HTTP/1.1\r\n"@ + header_lines(headers) + "Host: "@ + host + "\r\n"@
        + "Accept: application/dns-message\r\n"@ + "Content-Type: application/dns-message\r\n"@
        + "Content-Length: "@ + decimal(length) + "\r\n"@ + "Connection: close\r\n"@ + "\r\n"@
}

fn is_reserved_header(name: &str) -> (r: bool)
    ensures
        r == is_reserved(name@),
{
    let lowered = to_lower(name);
    let name = lowered.as_str();
    same_text(name, "host") || same_text(name, "accept") || same_text(name, "content-type")
        || same_text(name, "content-length") || same_text(name, "connection")
}

/// The request that posts `body` to a DNS-over-HTTPS server. The configured headers come in
/// ascending order of their names.
pub fn write_doh_http1_request(
    host_header: &str,
    path: &str,
    headers: &HeaderMap,
    body: &[u8],
) -> (r: Vec<u8>)
    ensures
        ascending(headers@),
        r@ == encode_utf8(request_head(host_header@, path@, headers@, body@.len())) + body@,
{
    let ghost all = headers@;
    let headers = headers.entries();
    let mut request = "POST ".to_owned();
    request.append(path);
    request.append(" HTTP/1.1\r\n");
    let ghost start = request@;
    let mut i: usize = 0;
    assert(all.take(0) =~= seq![]);
    assert(start + header_lines(all.take(0)) =~= start);
    while i < headers.len()
        invariant
            i <= headers@.len(),
            all == header_views(headers@),
            request@ == start + header_lines(all.take(i as int)),
        decreases headers@.len() - i,
    {
        let header = &headers[i];
        proof {
            assert(all.take(i + 1).drop_last() =~= all.take(i as int));
            assert(all.take(i + 1).last() == header_view(*header));
        }
        if !is_reserved_header(header.name.as_str()) {
            request.append(header.name.as_str());
            request.append(": ");
            request.append(header.value.as_str());
            request.append("\r\n");
        }
        assert(request@ =~= start + header_lines(all.take(i + 1)));
        i += 1;
    }
    assert(all.take(i as int) =~= all);
    request.append("Host: ");
    request.append(host_header);
    request.append("\r\n");
    request.append("Accept: application/dns-message\r\n");
    request.append("Content-Type: application/dns-message\r\n");
    request.append("Content-Length: ");
    request.append(decimal_text(body.len() as u128).as_str());
    request.append("\r\n");
    request.append("Connection: close\r\n");
    request.append("\r\n");
    let mut bytes = clone_bytes(request.as_str().as_bytes());
    bytes.extend_from_slice(body);
    bytes
}

/// Whether the bytes before `n` end with an empty line.
pub open spec fn ends_head(bytes: Seq<u8>, n: int) -> bool {
    4 <= n <= bytes.len() && bytes[n - 4] == 13 && bytes[n - 3] == 10 && bytes[n - 2] == 13
        && bytes[n - 1] == 10
}

/// The length of the response head at or beyond `from`, with the empty line that ends it.
pub open spec fn head_length(bytes: Seq<u8>, from: int) -> Option<int>
    decreases MAX_HTTP_HEADER_BYTES + 1 - from,
{
    if from > bytes.len() || from > MAX_HTTP_HEADER_BYTES {
        None
    } else if ends_head(bytes, from) {
        Some(from)
    } else {
        head_length(bytes, from + 1)
    }
}

/// The status code of a status line.
pub open spec fn status_of(line: Seq<char>) -> core::result::Result<u16, ErrorView> {
    let parts = words(line);
    if parts.len() == 0 {
        Err(protocol_error("dns over https response status line is empty"@))
    } else if !"HTTP/"@.is_prefix_of(parts[0]) {
        Err(protocol_error("dns over https response status line is invalid: "@ + line))
    } else if parts.len() == 1 {
        Err(protocol_error("dns over https response is missing a status code"@))
    } else {
        match number_value(parts[1], u16::MAX as nat) {
            Ok(code) => Ok(code as u16),
            Err(fault) => Err(
                protocol_error(
                    "dns over https response status code is invalid: "@ + fault_text(fault),
                ),
            ),
        }
    }
}

/// The headers that header lines spell, names in lower case. Empty lines are passed over.
pub open spec fn headers_of(rest: Seq<Seq<char>>) -> core::result::Result<
    Seq<(Seq<char>, Seq<char>)>,
    ErrorView,
>
    decreases rest.len(),
{
    if rest.len() == 0 {
        Ok(seq![])
    } else if rest[0].len() == 0 {
        headers_of(rest.drop_first())
    } else {
        match split_at_first(rest[0], ':') {
            None => Err(
                protocol_error("dns over https response header is malformed: "@ + rest[0]),
            ),
            Some((name, value)) => match headers_of(rest.drop_first()) {
                Err(e) => Err(e),
                Ok(more) => Ok(seq![(lower(trimmed(name)), trimmed(value))] + more),
            },
        }
    }
}

/// The status code and the headers of a response head.
pub open spec fn head_of(text: Seq<char>) -> core::result::Result<
    (u16, Seq<(Seq<char>, Seq<char>)>),
    ErrorView,
> {
    match status_of(lines(text)[0]) {
        Err(e) => Err(e),
        Ok(status) => match headers_of(lines(text).drop_first()) {
            Err(e) => Err(e),
            Ok(headers) => Ok((status, headers)),
        },
    }
}

/// The value of a header; where it is given twice the later one counts.
pub open spec fn header_value(headers: Seq<(Seq<char>, Seq<char>)>, name: Seq<char>) -> Option<
    Seq<char>,
>
    decreases headers.len(),
{
    if headers.len() == 0 {
        None
    } else if headers.last().0 == name {
        Some(headers.last().1)
    } else {
        header_value(headers.drop_last(), name)
    }
}

/// The body of a response, of which `rest` has come so far and nothing more comes where `ended`.
/// There is none yet where more has to come.
pub open spec fn body_of(
    status: u16,
    headers: Seq<(Seq<char>, Seq<char>)>,
    rest: Seq<u8>,
    ended: bool,
) -> core::result::Result<Option<Seq<u8>>, ErrorView> {
    let empty = protocol_error("dns over https upstream returned an empty response body"@);
    if !(200 <= status < 300) {
        Err(
            protocol_error(
                "dns over https upstream returned HTTP status "@ + decimal(status as nat),
            ),
        )
    } else if header_value(headers, "transfer-encoding"@) matches Some(v) && lower(v) == lower(
        "chunked"@,
    ) {
        Err(protocol_error("dns over https chunked responses are not supported yet"@))
    } else {
        match header_value(headers, "content-length"@) {
            Some(text) => match number_value(text, usize::MAX as nat) {
                Err(fault) => Err(
                    protocol_error(
                        "dns over https response content-length is invalid: "@ + fault_text(fault),
                    ),
                ),
                Ok(length) => if rest.len() < length {
                    Ok(None)
                } else if length == 0 {
                    Err(empty)
                } else {
                    Ok(Some(rest.take(length as int)))
                },
            },
            None => if !ended {
                Ok(None)
            } else if rest.len() == 0 {
                Err(empty)
            } else {
                Ok(Some(rest))
            },
        }
    }
}

/// The status code and the headers of the bytes of a response head.
pub open spec fn head_of_bytes(head: Seq<u8>) -> core::result::Result<
    (u16, Seq<(Seq<char>, Seq<char>)>),
    ErrorView,
> {
    if valid_utf8(head) {
        head_of(decode_utf8(head))
    } else {
        Err(protocol_error("dns over https response is not UTF-8: "@ + utf8_error_text(head)))
    }
}

/// The body of the response that starts with the bytes `received`; nothing more comes where
/// `ended`. There is none yet where more has to come.
pub open spec fn response_body(received: Seq<u8>, ended: bool) -> core::result::Result<
    Option<Seq<u8>>,
    ErrorView,
> {
    match head_length(received, 0) {
        None => if received.len() >= MAX_HTTP_HEADER_BYTES {
            Err(
                protocol_error(
                    "dns over https response headers exceed "@ + decimal(
                        MAX_HTTP_HEADER_BYTES as nat,
                    ) + " bytes"@,
                ),
            )
        } else {
            Ok(None)
        },
        Some(n) => match head_of_bytes(received.take(n - 4)) {
            Err(e) => Err(e),
            Ok((status, headers)) => body_of(status, headers, received.skip(n), ended),
        },
    }
}

/// Reads the body of a response from the bytes that have come so far.
///
/// `None` means that more bytes are needed; where `ended` says that none come, the response broke
/// off.
pub fn read_doh_http1_response(received: &[u8], ended: bool) -> (r: Result<Option<Vec<u8>>>)
    ensures
        match response_body(received@, ended) {
            Ok(Some(body)) => r matches Ok(Some(b)) && b@ == body,
            Ok(None) => r matches Ok(None),
            Err(e) => r matches Err(err) && err@ == e,
        },
{
    let end: usize = match find_head(received) {
        Some(end) => end,
        None => {
            if received.len() >= MAX_HTTP_HEADER_BYTES {
                return Err(
                    ProxyError::protocol(
                        "dns over https response headers exceed ".to_owned().concat(
                            decimal_text(MAX_HTTP_HEADER_BYTES as u128).as_str(),
                        ).concat(" bytes").as_str(),
                    ),
                );
            }
            return Ok(None);
        },
    };
    let head = vstd::slice::slice_subrange(received, 0, end - 4);
    assert(head@ =~= received@.take(end - 4));
    let text = match utf8_text(head) {
        Ok(text) => text,
        Err(err) => {
            return Err(
                ProxyError::protocol(
                    "dns over https response is not UTF-8: ".to_owned().concat(
                        err.as_str(),
                    ).as_str(),
                ),
            );
        },
    };
    let (status, headers) = match parse_http1_head(text.as_str()) {
        Ok(head) => head,
        Err(err) => {
            return Err(err);
        },
    };
    let rest = vstd::slice::slice_subrange(received, end, received.len());
    assert(rest@ =~= received@.skip(end as int));
    read_body(status, &headers, rest, ended)
}

fn find_head(received: &[u8]) -> (r: Option<usize>)
    ensures
        match head_length(received@, 0) {
            Some(n) => r matches Some(end) && end == n && 4 <= end <= received@.len(),
            None => r is None,
        },
{
    let mut n: usize = 0;
    while n <= received.len() && n <= MAX_HTTP_HEADER_BYTES
        invariant
            n <= MAX_HTTP_HEADER_BYTES + 1,
            head_length(received@, 0) == head_length(received@, n as int),
        decreases MAX_HTTP_HEADER_BYTES + 1 - n,
    {
        if n >= 4 && received[n - 4] == 13 && received[n - 3] == 10 && received[n - 2] == 13
            && received[n - 1] == 10 {
            return Some(n);
        }
        n += 1;
    }
    None
}

/// Reads the body that follows the head of a response.
pub fn read_body(
    status: u16,
    headers: &Vec<HttpHeader>,
    rest: &[u8],
    ended: bool,
) -> (r: Result<Option<Vec<u8>>>)
    ensures
        match body_of(status, header_views(headers@), rest@, ended) {
            Ok(Some(body)) => r matches Ok(Some(b)) && b@ == body,
            Ok(None) => r matches Ok(None),
            Err(e) => r matches Err(err) && err@ == e,
        },
{
    if status < 200 || status >= 300 {
        return Err(
            ProxyError::protocol(
                "dns over https upstream returned HTTP status ".to_owned().concat(
                    decimal_text(status as u128).as_str(),
                ).as_str(),
            ),
        );
    }
    if let Some(value) = find_header(headers, "transfer-encoding") {
        if same_text_ignoring_case(value, "chunked") {
            return Err(
                ProxyError::protocol("dns over https chunked responses are not supported yet"),
            );
        }
    }
    match find_header(headers, "content-length") {
        Some(text) => {
            let length: usize = match parse_number(text, usize::MAX as u64) {
                Ok(length) => length as usize,
                Err(fault) => {
                    return Err(
                        ProxyError::protocol(
                            "dns over https response content-length is invalid: ".to_owned().concat(
                                fault.as_str(),
                            ).as_str(),
                        ),
                    );
                },
            };
            if rest.len() < length {
                return Ok(None);
            }
            if length == 0 {
                return Err(
                    ProxyError::protocol("dns over https upstream returned an empty response body"),
                );
            }
            let body = clone_bytes(vstd::slice::slice_subrange(rest, 0, length));
            assert(body@ =~= rest@.take(length as int));
            Ok(Some(body))
        },
        None => {
            if !ended {
                return Ok(None);
            }
            if rest.len() == 0 {
                return Err(
                    ProxyError::protocol("dns over https upstream returned an empty response body"),
                );
            }
            Ok(Some(clone_bytes(rest)))
        },
    }
}

fn find_header<'a>(headers: &'a Vec<HttpHeader>, name: &str) -> (r: Option<&'a str>)
    ensures
        match header_value(header_views(headers@), name@) {
            Some(value) => r matches Some(v) && v@ == value,
            None => r is None,
        },
{
    let ghost all = header_views(headers@);
    let mut i: usize = headers.len();
    assert(all.take(i as int) =~= all);
    while i > 0
        invariant
            i <= headers@.len(),
            all == header_views(headers@),
            header_value(all, name@) == header_value(all.take(i as int), name@),
        decreases i,
    {
        assert(all.take(i as int).drop_last() =~= all.take(i - 1));
        assert(all.take(i as int).last() == header_view(headers@[i - 1]));
        i -= 1;
        if same_text(headers[i].name.as_str(), name) {
            return Some(headers[i].value.as_str());
        }
    }
    None
}

/// Reads the status code and the headers of a response head.
pub fn parse_http1_head(head: &str) -> (r: Result<(u16, Vec<HttpHeader>)>)
    ensures
        match head_of(head@) {
            Ok((status, headers)) => r matches Ok((s, h)) && s == status && header_views(h@)
                == headers,
            Err(e) => r matches Err(err) && err@ == e,
        },
{
    let all = split_lines(head);
    let ghost views = lines(head@);
    assert(views[0] == all@[0]@);
    let status: u16 = match parse_http_status_line(all[0].as_str()) {
        Ok(status) => status,
        Err(err) => {
            return Err(err);
        },
    };
    let mut headers: Vec<HttpHeader> = Vec::new();
    let ghost whole = headers_of(views.skip(1));
    let mut i: usize = 1;
    proof {
        assert(views.drop_first() =~= views.skip(1));
        if let Ok(more) = whole {
            assert(header_views(headers@) + more =~= more);
        }
    }
    while i < all.len()
        invariant
            1 <= i <= all@.len(),
            views == texts(all@),
            views == lines(head@),
            whole == headers_of(views.drop_first()),
            status_of(views[0]) == Ok::<u16, ErrorView>(status),
            match headers_of(views.skip(i as int)) {
                Err(e) => whole == Err::<Seq<(Seq<char>, Seq<char>)>, ErrorView>(e),
                Ok(more) => whole == Ok::<Seq<(Seq<char>, Seq<char>)>, ErrorView>(
                    header_views(headers@) + more,
                ),
            },
        decreases all@.len() - i,
    {
        let line = all[i].as_str();
        let ghost before = header_views(headers@);
        proof {
            assert(views.skip(i as int)[0] == line@);
            assert(views.skip(i as int).drop_first() =~= views.skip(i + 1));
        }
        if !line.is_empty() {
            let (name, value) = match split_once(line, ':') {
                Some(parts) => parts,
                None => {
                    return Err(
                        ProxyError::protocol(
                            "dns over https response header is malformed: ".to_owned().concat(
                                line,
                            ).as_str(),
                        ),
                    );
                },
            };
            let trimmed_name = trim_text(name.as_str());
            let header = HttpHeader {
                name: to_lower(trimmed_name.as_str()),
                value: trim_text(value.as_str()),
            };
            let ghost view = header_view(header);
            headers.push(header);
            proof {
                assert(header_views(headers@) =~= before.push(view));
                if let Ok(more) = headers_of(views.skip(i + 1)) {
                    assert(before + (seq![view] + more) =~= before.push(view) + more);
                }
            }
        }
        i += 1;
    }
    proof {
        assert(views.skip(i as int) =~= seq![]);
        assert(header_views(headers@) + Seq::<(Seq<char>, Seq<char>)>::empty() =~= header_views(
            headers@,
        ));
    }
    Ok((status, headers))
}

fn parse_http_status_line(status_line: &str) -> (r: Result<u16>)
    ensures
        match status_of(status_line@) {
            Ok(status) => r matches Ok(s) && s == status,
            Err(e) => r matches Err(err) && err@ == e,
        },
{
    let parts = split_words(status_line);
    let ghost views = words(status_line@);
    if parts.len() == 0 {
        return Err(ProxyError::protocol("dns over https response status line is empty"));
    }
    assert(views[0] == parts@[0]@);
    if !starts_with(parts[0].as_str(), "HTTP/") {
        return Err(
            ProxyError::protocol(
                "dns over https response status line is invalid: ".to_owned().concat(
                    status_line,
                ).as_str(),
            ),
        );
    }
    if parts.len() == 1 {
        return Err(ProxyError::protocol("dns over https response is missing a status code"));
    }
    assert(views[1] == parts@[1]@);
    match parse_number(parts[1].as_str(), u16::MAX as u64) {
        Ok(code) => Ok(code as u16),
        Err(fault) => Err(
            ProxyError::protocol(
                "dns over https response status code is invalid: ".to_owned().concat(
                    fault.as_str(),
                ).as_str(),
            ),
        ),
    }
}

proof fn lemma_head_stays(received: Seq<u8>, more: Seq<u8>, from: int)
    requires
        0 <= from,
        head_length(received, from) is Some || received.len() >= MAX_HTTP_HEADER_BYTES,
    ensures
        head_length(received + more, from) == head_length(received, from),
        head_length(received, from) matches Some(n) ==> ends_head(received, n),
    decreases MAX_HTTP_HEADER_BYTES + 1 - from,
{
    if from <= received.len() && from <= MAX_HTTP_HEADER_BYTES {
        assert(ends_head(received + more, from) == ends_head(received, from));
        if !ends_head(received, from) {
            lemma_head_stays(received, more, from + 1);
        }
    }
}

/// Once the bytes that have come decide the response, whatever comes after them changes nothing: it
/// does not matter in which pieces a response is read.
pub proof fn law_response_is_decided_once(received: Seq<u8>, more: Seq<u8>, ended: bool)
    requires
        response_body(received, false) != Ok::<Option<Seq<u8>>, ErrorView>(None),
    ensures
        response_body(received + more, ended) == response_body(received, false),
{
    lemma_head_stays(received, more, 0);
    if let Some(n) = head_length(received, 0) {
        let all = received + more;
        assert(all.take(n - 4) =~= received.take(n - 4));
        assert(all.skip(n) =~= received.skip(n) + more);
        if let Ok((status, headers)) = head_of_bytes(received.take(n - 4)) {
            if let Some(text) = header_value(headers, "content-length"@) {
                if let Ok(length) = number_value(text, usize::MAX as nat) {
                    if length <= received.skip(n).len() {
                        assert(all.skip(n).take(length as int) =~= received.skip(n).take(
                            length as int,
                        ));
                    }
                }
            }
        }
    }
}

/// A body is taken under a status of the two hundreds only: where a response has a body, its head
/// was read and says such a status, and the body is not empty and is the start of what follows the
/// head. A whole head with any other status is an error, whatever follows it, and so is a head that
/// is not UTF-8.
pub proof fn law_body_needs_a_success_status(received: Seq<u8>, ended: bool)
    ensures
        response_body(received, ended) matches Ok(Some(body)) ==> {
            &&& head_length(received, 0) matches Some(n)
            &&& head_of_bytes(received.take(n - 4)) matches Ok((status, _))
            &&& status >= 200
            &&& status < 300
            &&& 0 < body.len() <= received.skip(n).len()
            &&& body == received.skip(n).take(body.len() as int)
        },
        head_length(received, 0) matches Some(n) ==> (head_of_bytes(received.take(n - 4)) matches Ok(
            (status, _),
        ) ==> (status < 200 || status >= 300 ==> (response_body(received, ended) matches Err(e)
            && e.kind == ErrorKind::Protocol && e.message
            == "dns over https upstream returned HTTP status "@ + decimal(status as nat)))),
        head_length(received, 0) matches Some(n) ==> (!valid_utf8(received.take(n - 4)) ==> (
        response_body(received, ended) matches Err(e) && e.kind == ErrorKind::Protocol)),
{
    if let Some(n) = head_length(received, 0) {
        let rest = received.skip(n);
        assert(rest.take(rest.len() as int) =~= rest);
    }
}

/// What is read off a body depends on the status only through whether it is one of the two hundreds.
pub proof fn law_success_statuses_are_alike(
    first: u16,
    second: u16,
    headers: Seq<(Seq<char>, Seq<char>)>,
    rest: Seq<u8>,
    ended: bool,
)
    requires
        200 <= first < 300,
    ensures
        200 <= second < 300 ==> body_of(first, headers, rest, ended) == body_of(
            second,
            headers,
            rest,
            ended,
        ),
        !(200 <= second < 300) ==> (body_of(second, headers, rest, ended) matches Err(e) && e.kind
            == ErrorKind::Protocol),
{
}

/// The head ends with the first empty line, which must come within the first 16384 bytes: there is
/// none before it, and there is no head exactly where those bytes hold none. As long as a head can
/// still come nothing is decided; once it no longer can, the response is an error.
pub proof fn law_head_ends_with_the_first_empty_line(received: Seq<u8>, ended: bool)
    ensures
        match head_length(received, 0) {
            Some(n) => {
                &&& 4 <= n <= received.len()
                &&& n <= 16384
                &&& received.subrange(n - 4, n) == seq![13u8, 10u8, 13u8, 10u8]
                &&& forall|k: int|
                    4 <= k < n ==> #[trigger] received.subrange(k - 4, k) != seq![
                        13u8,
                        10u8,
                        13u8,
                        10u8,
                    ]
            },
            None => {
                &&& forall|k: int|
                    4 <= k <= received.len() && k <= 16384 ==> #[trigger] received.subrange(k - 4, k)
                        != seq![13u8, 10u8, 13u8, 10u8]
                &&& received.len() < 16384 ==> response_body(received, ended) == Ok::<
                    Option<Seq<u8>>,
                    ErrorView,
                >(None)
                &&& received.len() >= 16384 ==> (response_body(received, ended) matches Err(e)
                    && e.kind == ErrorKind::Protocol)
            },
        },
{
    lemma_first_head(received, 0);
    let mark = seq![13u8, 10u8, 13u8, 10u8];
    assert forall|k: int| 4 <= k <= received.len() implies ends_head(received, k) == (
    #[trigger] received.subrange(k - 4, k) == mark) by {
        let four = received.subrange(k - 4, k);
        if ends_head(received, k) {
            assert(four =~= mark);
        }
        if four == mark {
            assert(four[0] == received[k - 4]);
            assert(four[1] == received[k - 3]);
            assert(four[2] == received[k - 2]);
            assert(four[3] == received[k - 1]);
        }
    }
}

proof fn lemma_first_head(bytes: Seq<u8>, from: int)
    requires
        0 <= from,
    ensures
        match head_length(bytes, from) {
            Some(n) => from <= n <= MAX_HTTP_HEADER_BYTES && ends_head(bytes, n) && forall|k: int|
                from <= k < n ==> !ends_head(bytes, k),
            None => forall|k: int|
                from <= k <= MAX_HTTP_HEADER_BYTES ==> !ends_head(bytes, k),
        },
    decreases MAX_HTTP_HEADER_BYTES + 1 - from,
{
    if from <= bytes.len() && from <= MAX_HTTP_HEADER_BYTES && !ends_head(bytes, from) {
        lemma_first_head(bytes, from + 1);
    }
}

/// A response of which the whole head has come is read as its head says: the status and the headers
/// are those of the bytes in front of the empty line, and the body is what follows it.
pub proof fn law_response_is_its_head_and_its_body(
    head: Seq<char>,
    rest: Seq<u8>,
    ended: bool,
    n: int,
)
    requires
        head_length(encode_utf8(head) + seq![13u8, 10u8, 13u8, 10u8] + rest, 0) == Some(n),
        n == encode_utf8(head).len() + 4,
    ensures
        match head_of(head) {
            Err(e) => response_body(
                encode_utf8(head) + seq![13u8, 10u8, 13u8, 10u8] + rest,
                ended,
            ) == Err::<Option<Seq<u8>>, ErrorView>(e),
            Ok((status, headers)) => response_body(
                encode_utf8(head) + seq![13u8, 10u8, 13u8, 10u8] + rest,
                ended,
            ) == body_of(status, headers, rest, ended),
        },
{
    let all = encode_utf8(head) + seq![13u8, 10u8, 13u8, 10u8] + rest;
    assert(all.take(n - 4) =~= encode_utf8(head));
    assert(all.skip(n) =~= rest);
    encode_utf8_valid_utf8(head);
    encode_utf8_decode_utf8(head);
}

/// A body whose length is declared is just as long as declared: more is waited for while less has
/// come, what comes beyond it does not belong to it, and a declared length of nothing is an error,
/// as is a length that is no number.
pub proof fn law_declared_length_is_kept(
    status: u16,
    headers: Seq<(Seq<char>, Seq<char>)>,
    length: usize,
    rest: Seq<u8>,
    ended: bool,
)
    requires
        200 <= status < 300,
        !(header_value(headers, "transfer-encoding"@) matches Some(v) && lower(v) == lower(
            "chunked"@,
        )),
    ensures
        header_value(headers, "content-length"@) == Some(decimal(length as nat)) ==> {
            &&& length == 0 ==> (body_of(status, headers, rest, ended) matches Err(e) && e.kind
                == ErrorKind::Protocol)
            &&& length > 0 && rest.len() < length ==> body_of(status, headers, rest, ended) == Ok::<
                Option<Seq<u8>>,
                ErrorView,
            >(None)
            &&& length > 0 && rest.len() >= length ==> body_of(status, headers, rest, ended) == Ok::<
                Option<Seq<u8>>,
                ErrorView,
            >(Some(rest.take(length as int)))
        },
        header_value(headers, "content-length"@) matches Some(text) ==> (number_value(
            text,
            usize::MAX as nat,
        ) is Err ==> (body_of(status, headers, rest, ended) matches Err(e) && e.kind
            == ErrorKind::Protocol)),
{
    law_decimal_is_read_back(length as nat, usize::MAX as nat);
}

/// A body whose length is not declared goes up to the end of the stream: nothing is decided before
/// that, it is then all that came, and it is an error where nothing did.
pub proof fn law_undeclared_body_goes_to_the_end(
    status: u16,
    headers: Seq<(Seq<char>, Seq<char>)>,
    rest: Seq<u8>,
)
    requires
        200 <= status < 300,
        header_value(headers, "transfer-encoding"@) is None,
        header_value(headers, "content-length"@) is None,
    ensures
        body_of(status, headers, rest, false) == Ok::<Option<Seq<u8>>, ErrorView>(None),
        rest.len() > 0 ==> body_of(status, headers, rest, true) == Ok::<Option<Seq<u8>>, ErrorView>(
            Some(rest),
        ),
        rest.len() == 0 ==> (body_of(status, headers, rest, true) matches Err(e) && e.kind
            == ErrorKind::Protocol),
{
}

/// A chunked body is an error, in whatever case the word is written; any other transfer encoding
/// changes nothing.
pub proof fn law_chunked_bodies_are_refused(
    status: u16,
    headers: Seq<(Seq<char>, Seq<char>)>,
    value: Seq<char>,
    rest: Seq<u8>,
    ended: bool,
)
    requires
        200 <= status < 300,
        value.len() > 0,
    ensures
        header_value(headers, "transfer-encoding"@) == Some(value) && lower(value) == lower(
            "chunked"@,
        ) ==> (body_of(status, headers, rest, ended) matches Err(e) && e.kind
            == ErrorKind::Protocol),
        header_value(headers, "transfer-encoding"@) == Some(value) && lower(value) != lower(
            "chunked"@,
        ) && header_value(headers, "content-length"@) is None && ended && rest.len() > 0 ==> body_of(
            status,
            headers,
            rest,
            ended,
        ) == Ok::<Option<Seq<u8>>, ErrorView>(Some(rest)),
{
}

/// Of a header that is given more than once the last one counts, and there is none exactly where it
/// is not given.
pub proof fn law_last_header_counts(headers: Seq<(Seq<char>, Seq<char>)>, name: Seq<char>)
    ensures
        match header_value(headers, name) {
            Some(value) => exists|i: int|
                0 <= i < headers.len() && #[trigger] headers[i] == (name, value) && forall|j: int|
                    i < j < headers.len() ==> (#[trigger] headers[j]).0 != name,
            None => forall|i: int| 0 <= i < headers.len() ==> (#[trigger] headers[i]).0 != name,
        },
    decreases headers.len(),
{
    if headers.len() > 0 {
        let last = headers.len() - 1;
        assert(headers[last] == headers.last());
        if headers.last().0 == name {
            assert(headers[last] == (name, headers.last().1));
        } else {
            let front = headers.drop_last();
            law_last_header_counts(front, name);
            match header_value(front, name) {
                Some(value) => {
                    let k = choose|i: int|
                        0 <= i < front.len() && #[trigger] front[i] == (name, value) && forall|
                            j: int,
                        |
                            i < j < front.len() ==> (#[trigger] front[j]).0 != name;
                    assert(headers[k] == (name, value));
                    assert forall|j: int| k < j < headers.len() implies (#[trigger] headers[j]).0
                        != name by {
                        if j < last {
                            assert(front[j] == headers[j]);
                        }
                    }
                },
                None => {
                    assert forall|i: int| 0 <= i < headers.len() implies (#[trigger] headers[i]).0
                        != name by {
                        if i < last {
                            assert(front[i] == headers[i]);
                        }
                    }
                },
            }
        }
    }
}

/// The status is the number that the second word of the status line spells, whatever follows it,
/// where the first word starts with the name of the protocol. Every other line is an error.
pub proof fn law_status_is_the_second_word(line: Seq<char>)
    ensures
        status_of(line) is Ok <==> words(line).len() >= 2 && "HTTP/"@.is_prefix_of(words(line)[0])
            && number_value(words(line)[1], 65535) is Ok,
        status_of(line) matches Ok(status) ==> number_value(words(line)[1], 65535) == Ok::<
            nat,
            NumberFault,
        >(status as nat),
        status_of(line) matches Err(e) ==> e.kind == ErrorKind::Protocol,
{
    if words(line).len() >= 2 {
        lemma_number_within(words(line)[1], 65535);
    }
}

proof fn lemma_number_within(s: Seq<char>, max: nat)
    ensures
        number_value(s, max) matches Ok(v) ==> v <= max,
{
    if s.len() > 0 {
        lemma_digits_within(s, max);
        if s.len() > 1 {
            lemma_digits_within(s.drop_first(), max);
        }
    }
}

proof fn lemma_digits_within(s: Seq<char>, max: nat)
    ensures
        digits_value(s, max) matches Ok(v) ==> v <= max,
    decreases s.len(),
{
    if s.len() > 0 {
        lemma_digits_within(s.drop_last(), max);
    }
}

/// A status line that a server writes is read as the status it was written with.
pub proof fn law_written_status_is_read_back(version: Seq<char>, status: u16, reason: Seq<char>)
    requires
        "HTTP/"@.is_prefix_of(version),
        version.len() > 0,
        forall|i: int| 0 <= i < version.len() ==> !is_white(#[trigger] version[i]),
    ensures
        status_of(version + seq![' '] + decimal(status as nat)) == Ok::<u16, ErrorView>(status),
        status_of(version + seq![' '] + (decimal(status as nat) + seq![' '] + reason)) == Ok::<
            u16,
            ErrorView,
        >(status),
{
    let number = decimal(status as nat);
    lemma_decimal_is_a_word(status as nat);
    assert(is_white(' '));
    law_words_are_what_white_space_separates(' ', version, number);
    law_words_are_what_white_space_separates(' ', number, reason);
    law_words_are_what_white_space_separates(' ', version, number + seq![' '] + reason);
    law_decimal_is_read_back(status as nat, 65535);
    let short = words(version + seq![' '] + number);
    assert(short =~= seq![version, number]);
    let long = words(version + seq![' '] + (number + seq![' '] + reason));
    assert(long[0] == version);
    assert(long[1] == number);
}

proof fn lemma_decimal_is_a_word(n: nat)
    ensures
        decimal(n).len() > 0,
        forall|i: int| 0 <= i < decimal(n).len() ==> !is_white(#[trigger] decimal(n)[i]),
    decreases n,
{
    if n < 10 {
        law_decimal_appends_digits(0, n);
    } else {
        lemma_decimal_is_a_word(n / 10);
        law_decimal_appends_digits(n / 10, n % 10);
        assert(n == (n / 10) * 10 + n % 10);
        let front = decimal(n / 10);
        let last = decimal(n % 10);
        assert(decimal(n) == front + last);
        assert forall|i: int| 0 <= i < decimal(n).len() implies !is_white(
            #[trigger] decimal(n)[i],
        ) by {
            if i < front.len() {
                assert(decimal(n)[i] == front[i]);
            } else {
                assert(decimal(n)[i] == last[0]);
            }
        }
    }
}

/// Header lines are read one by one: the headers of two lists of lines are those of the first
/// followed by those of the second, an empty line has none, a line is split at its first colon into
/// a name in lower case and a value, both trimmed, and a line without a colon is an error.
pub proof fn law_headers_are_read_line_by_line(
    first: Seq<Seq<char>>,
    second: Seq<Seq<char>>,
    name: Seq<char>,
    value: Seq<char>,
    line: Seq<char>,
)
    requires
        !name.contains(':'),
    ensures
        match headers_of(first) {
            Err(e) => headers_of(first + second) == Err::<Seq<(Seq<char>, Seq<char>)>, ErrorView>(e),
            Ok(a) => match headers_of(second) {
                Err(e) => headers_of(first + second) == Err::<
                    Seq<(Seq<char>, Seq<char>)>,
                    ErrorView,
                >(e),
                Ok(b) => headers_of(first + second) == Ok::<
                    Seq<(Seq<char>, Seq<char>)>,
                    ErrorView,
                >(a + b),
            },
        },
        headers_of(seq![Seq::empty()]) == Ok::<Seq<(Seq<char>, Seq<char>)>, ErrorView>(Seq::empty()),
        headers_of(seq![name + seq![':'] + value]) == Ok::<
            Seq<(Seq<char>, Seq<char>)>,
            ErrorView,
        >(seq![(lower(trimmed(name)), trimmed(value))]),
        line.len() > 0 && !line.contains(':') ==> (headers_of(seq![line]) matches Err(e) && e.kind
            == ErrorKind::Protocol),
    decreases first.len(),
{
    let none = Seq::<Seq<char>>::empty();
    assert(headers_of(none) == Ok::<Seq<(Seq<char>, Seq<char>)>, ErrorView>(Seq::empty()));
    let blank = seq![Seq::<char>::empty()];
    assert(blank.drop_first() =~= none);
    let text = name + seq![':'] + value;
    let one = seq![text];
    assert(one.drop_first() =~= none);
    lemma_split_at(name, ':', value);
    assert(seq![(lower(trimmed(name)), trimmed(value))] + Seq::<(Seq<char>, Seq<char>)>::empty()
        =~= seq![(lower(trimmed(name)), trimmed(value))]);
    law_split_at_first_separator(line, ':');
    if line.len() > 0 && !line.contains(':') {
        if let Some((before, after)) = split_at_first(line, ':') {
            assert(line[before.len() as int] == ':');
        }
    }
    if first.len() == 0 {
        assert(first + second =~= second);
        if let Ok(b) = headers_of(second) {
            assert(Seq::<(Seq<char>, Seq<char>)>::empty() + b =~= b);
        }
    } else {
        let rest = first.drop_first();
        assert((first + second).drop_first() =~= rest + second);
        assert((first + second)[0] == first[0]);
        law_headers_are_read_line_by_line(rest, second, name, value, line);
        if let Some((n, v)) = split_at_first(first[0], ':') {
            let field = (lower(trimmed(n)), trimmed(v));
            if let Ok(a) = headers_of(rest) {
                if let Ok(b) = headers_of(second) {
                    assert(seq![field] + (a + b) =~= seq![field] + a + b);
                }
            }
        }
    }
}

proof fn lemma_split_at(before: Seq<char>, sep: char, after: Seq<char>)
    requires
        !before.contains(sep),
    ensures
        split_at_first(before + seq![sep] + after, sep) == Some((before, after)),
    decreases before.len(),
{
    let s = before + seq![sep] + after;
    if before.len() == 0 {
        assert(s[0] == sep);
        assert(s.drop_first() =~= after);
        assert(before =~= seq![]);
    } else {
        let less = before.drop_first();
        assert(before.contains(before[0]));
        if less.contains(sep) {
            let i = choose|i: int| 0 <= i < less.len() && less[i] == sep;
            assert(before[i + 1] == sep);
        }
        lemma_split_at(less, sep, after);
        assert(s.drop_first() =~= less + seq![sep] + after);
        assert(seq![before[0]] + less =~= before);
    }
}

/// A head is its status line and the header lines behind it.
pub proof fn law_head_is_status_line_and_headers(first: Seq<char>, rest: Seq<char>)
    requires
        forall|i: int|
            0 < i < first.len() ==> !(first[i - 1] == '\r' && #[trigger] first[i] == '\n'),
    ensures
        match status_of(first) {
            Err(e) => head_of(first + seq!['\r', '\n'] + rest) == Err::<
                (u16, Seq<(Seq<char>, Seq<char>)>),
                ErrorView,
            >(e),
            Ok(status) => match headers_of(lines(rest)) {
                Err(e) => head_of(first + seq!['\r', '\n'] + rest) == Err::<
                    (u16, Seq<(Seq<char>, Seq<char>)>),
                    ErrorView,
                >(e),
                Ok(headers) => head_of(first + seq!['\r', '\n'] + rest) == Ok::<
                    (u16, Seq<(Seq<char>, Seq<char>)>),
                    ErrorView,
                >((status, headers)),
            },
        },
        status_of(first) matches Ok(status) ==> head_of(first) == Ok::<
            (u16, Seq<(Seq<char>, Seq<char>)>),
            ErrorView,
        >((status, Seq::empty())),
{
    law_lines_are_what_line_ends_separate(first, rest);
    let all = lines(first + seq!['\r', '\n'] + rest);
    assert(all[0] == first);
    assert(all.drop_first() =~= lines(rest));
    assert(lines(first)[0] == first);
    assert(lines(first).drop_first() =~= Seq::<Seq<char>>::empty());
}

/// The configured headers are written one by one, each on a line of its own; a header that the
/// request sets itself, in whatever case its name is written, is left out.
pub proof fn law_configured_headers_are_written_one_by_one(
    first: Seq<(Seq<char>, Seq<char>)>,
    second: Seq<(Seq<char>, Seq<char>)>,
    name: Seq<char>,
    value: Seq<char>,
)
    ensures
        header_lines(first + second) == header_lines(first) + header_lines(second),
        header_lines(seq![(name, value)]) == if lower(name) == "host"@ || lower(name) == "accept"@
            || lower(name) == "content-type"@ || lower(name) == "content-length"@ || lower(name)
            == "connection"@ {
            Seq::empty()
        } else {
            name + ": "@ + value + "\r\n"@
        },
    decreases second.len(),
{
    let one = seq![(name, value)];
    assert(one.drop_last() =~= seq![]);
    assert(header_lines(one.drop_last()) =~= seq![]);
    assert(one.last() == (name, value));
    assert(Seq::<char>::empty() + name + ": "@ + value + "\r\n"@ =~= name + ": "@ + value
        + "\r\n"@);
    if second.len() == 0 {
        assert(first + second =~= first);
        assert(header_lines(first) + Seq::<char>::empty() =~= header_lines(first));
    } else {
        let front = second.drop_last();
        law_configured_headers_are_written_one_by_one(first, front, name, value);
        assert((first + second).drop_last() =~= first + front);
        assert((first + second).last() == second.last());
        assert(header_lines(first + second) =~= header_lines(first) + header_lines(second));
    }
}

/// The head of a request is its first line, the configured headers, and then what the request sets
/// itself: the host, the message type it accepts and sends, the length of the body, and that the
/// connection is closed. It ends with an empty line.
pub proof fn law_request_head_layout(
    host: Seq<char>,
    path: Seq<char>,
    headers: Seq<(Seq<char>, Seq<char>)>,
    length: nat,
)
    ensures
        request_head(host, path, headers, length) == "POST "@ + path + " HTTP/1.1\r\n"@
            + header_lines(headers) + ("Host: "@ + host
            + "\r\nAccept: application/dns-message\r\nContent-Type: application/dns-message\r\nContent-Length: "@
            + decimal(length) + "\r\nConnection: close\r\n\r\n"@),
{
    reveal_strlit("\r\n");
    reveal_strlit("Accept: application/dns-message\r\n");
    reveal_strlit("Content-Type: application/dns-message\r\n");
    reveal_strlit("Content-Length: ");
    reveal_strlit(
        "\r\nAccept: application/dns-message\r\nContent-Type: application/dns-message\r\nContent-Length: ",
    );
    reveal_strlit("Connection: close\r\n");
    reveal_strlit("\r\nConnection: close\r\n\r\n");
    let middle = "\r\n"@ + "Accept: application/dns-message\r\n"@
        + "Content-Type: application/dns-message\r\n"@ + "Content-Length: "@;
    assert(middle
        =~= "\r\nAccept: application/dns-message\r\nContent-Type: application/dns-message\r\nContent-Length: "@);
    let tail = "\r\n"@ + "Connection: close\r\n"@ + "\r\n"@;
    assert(tail =~= "\r\nConnection: close\r\n\r\n"@);
    let start = "POST "@ + path + " HTTP/1.1\r\n"@ + header_lines(headers);
    assert(request_head(host, path, headers, length) =~= start + ("Host: "@ + host + middle
        + decimal(length) + tail));
}

} // verus!
