//! The DNS wire format: queries are parsed and built, responses are read for addresses and
//! lifetimes.

use vstd::prelude::*;
use vstd::utf8::*;

use crate::error::{protocol_error, resolve_error, ErrorKind, ErrorView, ProxyError, Result};
use crate::text::{
    clone_bytes, join, joined, lemma_normalized_idempotent, lemma_split_join, normalize_domain,
    normalized, split, split_text, texts, utf8_text,
};
use crate::time::Duration;
use crate::types::{IpAddr, IpView};

verus! {

/// The length of a message header.
pub const DNS_HEADER_LEN: usize = 12;

/// The record type of an IPv4 address.
pub const DNS_TYPE_A: u16 = 1;

/// The record type of an IPv6 address.
pub const DNS_TYPE_AAAA: u16 = 28;

/// The Internet class.
pub const DNS_CLASS_IN: u16 = 1;

/// Compression pointers are followed at most this deep.
pub const MAX_NAME_DEPTH: u8 = 8;

/// What a query asks.
#[derive(Debug, PartialEq, Eq)]
pub struct DnsQueryInfo {
    pub id: u16,
    pub name: String,
    pub qtype: u16,
}

/// What a query asks, as mathematical values.
#[verifier::ext_equal]
pub struct QueryView {
    pub id: u16,
    pub name: Seq<char>,
    pub qtype: u16,
}

impl View for DnsQueryInfo {
    type V = QueryView;

    open spec fn view(&self) -> QueryView {
        QueryView { id: self.id, name: self.name@, qtype: self.qtype }
    }
}

/// The 16-bit number at `i` in network order.
pub open spec fn be16(m: Seq<u8>, i: int) -> u16 {
    (m[i] * 256 + m[i + 1]) as u16
}

/// The 32-bit number at `i` in network order.
pub open spec fn be32(m: Seq<u8>, i: int) -> u32 {
    (m[i] * 0x100_0000 + m[i + 1] * 0x1_0000 + m[i + 2] * 0x100 + m[i + 3]) as u32
}

/// The two bytes of a 16-bit number in network order.
pub open spec fn be16_bytes(v: u16) -> Seq<u8> {
    seq![(v / 256) as u8, (v % 256) as u8]
}

fn read_be16(m: &[u8], i: usize) -> (r: u16)
    requires
        i + 1 < m@.len(),
    ensures
        r == be16(m@, i as int),
{
    (m[i] as u16) * 256 + (m[i + 1] as u16)
}

fn read_be32(m: &[u8], i: usize) -> (r: u32)
    requires
        i + 3 < m@.len(),
    ensures
        r == be32(m@, i as int),
{
    (m[i] as u32) * 0x100_0000 + (m[i + 1] as u32) * 0x1_0000 + (m[i + 2] as u32) * 0x100 + (m[i
        + 3] as u32)
}

fn push_be16(out: &mut Vec<u8>, v: u16)
    ensures
        final(out)@ == old(out)@ + be16_bytes(v),
{
    let high: u8 = (v / 256) as u8;
    let low: u8 = (v % 256) as u8;
    out.push(high);
    out.push(low);
    assert(out@ =~= old(out)@ + be16_bytes(v));
}

/// The labels of the name at `cursor` and the offset after it.
///
/// A label is a length byte and that many bytes of UTF-8; a zero byte ends the name. A length byte
/// with both high bits set starts a pointer instead, which ends the name with the name it points
/// to; that name, where it is not empty, counts as one label.
pub open spec fn name_labels(m: Seq<u8>, cursor: int, depth: nat) -> core::result::Result<
    (Seq<Seq<char>>, int),
    ErrorView,
>
    decreases MAX_NAME_DEPTH + 1 - depth, m.len() - cursor,
{
    if depth > MAX_NAME_DEPTH {
        Err(protocol_error("dns name compression depth exceeded"@))
    } else if !(0 <= cursor < m.len()) {
        Err(protocol_error("dns name truncated"@))
    } else {
        let len = m[cursor] as int;
        if len == 0 {
            Ok((seq![], cursor + 1))
        } else if len >= 0xc0 {
            if cursor + 1 >= m.len() {
                Err(protocol_error("dns compression pointer truncated"@))
            } else {
                let target = (len - 0xc0) * 256 + m[cursor + 1];
                if target >= m.len() {
                    Err(protocol_error("dns compression pointer out of range"@))
                } else {
                    match name_labels(m, target, depth + 1) {
                        Err(e) => Err(e),
                        Ok((nested, _)) => {
                            let name = joined(nested, seq!['.']);
                            Ok(
                                (
                                    if name.len() == 0 {
                                        seq![]
                                    } else {
                                        seq![name]
                                    },
                                    cursor + 2,
                                ),
                            )
                        },
                    }
                }
            }
        } else if cursor + 1 + len > m.len() {
            Err(protocol_error("dns label truncated"@))
        } else {
            let label = m.subrange(cursor + 1, cursor + 1 + len);
            if !valid_utf8(label) {
                Err(protocol_error("dns label is not valid utf-8"@))
            } else {
                match name_labels(m, cursor + 1 + len, depth) {
                    Err(e) => Err(e),
                    Ok((rest, end)) => Ok((seq![decode_utf8(label)] + rest, end)),
                }
            }
        }
    }
}

/// The name at `offset`, with dots between its labels, and the offset after it.
pub open spec fn name_at(m: Seq<u8>, offset: int, depth: nat) -> core::result::Result<
    (Seq<char>, int),
    ErrorView,
> {
    match name_labels(m, offset, depth) {
        Err(e) => Err(e),
        Ok((labels, end)) => Ok((joined(labels, seq!['.']), end)),
    }
}

/// What `found` gives once the labels in front of it are added.
spec fn with_labels(
    labels: Seq<Seq<char>>,
    found: core::result::Result<(Seq<Seq<char>>, int), ErrorView>,
) -> core::result::Result<(Seq<Seq<char>>, int), ErrorView> {
    match found {
        Err(e) => Err(e),
        Ok((rest, end)) => Ok((labels + rest, end)),
    }
}

/// Reads the name at `offset` and returns it with the offset after it.
fn parse_name(message: &[u8], offset: usize, depth: u8) -> (r: Result<(String, usize)>)
    requires
        depth <= MAX_NAME_DEPTH + 1,
    ensures
        match name_at(message@, offset as int, depth as nat) {
            Ok((name, end)) => r matches Ok((n, e)) && n@ == name && e == end && e
                <= message@.len(),
            Err(e) => r matches Err(err) && err@ == e,
        },
    decreases MAX_NAME_DEPTH + 1 - depth,
{
    if depth > MAX_NAME_DEPTH {
        return Err(ProxyError::protocol("dns name compression depth exceeded"));
    }
    let mut labels: Vec<String> = Vec::new();
    let mut cursor: usize = offset;
    let end: usize;
    let ghost whole = name_labels(message@, offset as int, depth as nat);
    proof {
        reveal_strlit(".");
        assert("."@ =~= seq!['.']);
        if let Ok((rest, _)) = whole {
            assert(texts(labels@) + rest =~= rest);
        }
    }
    loop
        invariant_except_break
            whole == with_labels(
                texts(labels@),
                name_labels(message@, cursor as int, depth as nat),
            ),
        invariant
            depth <= MAX_NAME_DEPTH,
            "."@ == seq!['.'],
            whole == name_labels(message@, offset as int, depth as nat),
        ensures
            whole == Ok::<(Seq<Seq<char>>, int), ErrorView>((texts(labels@), end as int)),
            end <= message@.len(),
        decreases message@.len() - cursor,
    {
        let ghost before = texts(labels@);
        if cursor >= message.len() {
            return Err(ProxyError::protocol("dns name truncated"));
        }
        let len: usize = message[cursor] as usize;
        if len == 0 {
            end = cursor + 1;
            proof {
                assert(before + Seq::<Seq<char>>::empty() =~= before);
            }
            break;
        }
        if len >= 0xc0 {
            if message.len() - cursor < 2 {
                return Err(ProxyError::protocol("dns compression pointer truncated"));
            }
            let target: usize = (len - 0xc0) * 256 + message[cursor + 1] as usize;
            if target >= message.len() {
                return Err(ProxyError::protocol("dns compression pointer out of range"));
            }
            end = cursor + 2;
            let nested = match parse_name(message, target, depth + 1) {
                Ok((name, _)) => name,
                Err(err) => {
                    return Err(err);
                },
            };
            let ghost name = nested@;
            if !nested.as_str().is_empty() {
                labels.push(nested);
                assert(texts(labels@) =~= before + seq![name]);
            } else {
                assert(before + Seq::<Seq<char>>::empty() =~= before);
            }
            break;
        }
        if message.len() - cursor - 1 < len {
            return Err(ProxyError::protocol("dns label truncated"));
        }
        let label = vstd::slice::slice_subrange(message, cursor + 1, cursor + 1 + len);
        let label = match utf8_text(label) {
            Ok(text) => text,
            Err(_) => {
                return Err(ProxyError::protocol("dns label is not valid utf-8"));
            },
        };
        let ghost text = label@;
        labels.push(label);
        proof {
            assert(texts(labels@) =~= before.push(text));
            if let Ok((rest, _)) = name_labels(message@, cursor + 1 + len, depth as nat) {
                assert(before + (seq![text] + rest) =~= before.push(text) + rest);
            }
        }
        cursor = cursor + 1 + len;
    }
    Ok((join(&labels, "."), end))
}

/// What the first question of `m` asks.
pub open spec fn query_of(m: Seq<u8>) -> core::result::Result<QueryView, ErrorView> {
    if m.len() < DNS_HEADER_LEN {
        Err(protocol_error("dns message is shorter than the header"@))
    } else if be16(m, 4) == 0 {
        Err(protocol_error("dns query must contain at least one question"@))
    } else {
        match name_at(m, DNS_HEADER_LEN as int, 0) {
            Err(e) => Err(e),
            Ok((name, end)) => if end + 4 > m.len() {
                Err(protocol_error("dns question is missing qtype or qclass"@))
            } else {
                Ok(QueryView { id: be16(m, 0), name: normalized(name), qtype: be16(m, end) })
            },
        }
    }
}

/// The name that the first question asks about.
pub fn parse_query_domain(message: &[u8]) -> (r: Result<String>)
    ensures
        match query_of(message@) {
            Ok(q) => r matches Ok(name) && name@ == q.name,
            Err(e) => r matches Err(err) && err@ == e,
        },
{
    match parse_query_info(message) {
        Ok(info) => Ok(info.name),
        Err(err) => Err(err),
    }
}

/// The id, name and type of the first question.
pub fn parse_query_info(message: &[u8]) -> (r: Result<DnsQueryInfo>)
    ensures
        match query_of(message@) {
            Ok(q) => r matches Ok(info) && info@ == q,
            Err(e) => r matches Err(err) && err@ == e,
        },
{
    if message.len() < DNS_HEADER_LEN {
        return Err(ProxyError::protocol("dns message is shorter than the header"));
    }
    let question_count: u16 = read_be16(message, 4);
    if question_count == 0 {
        return Err(ProxyError::protocol("dns query must contain at least one question"));
    }
    let (name, offset) = match parse_name(message, DNS_HEADER_LEN, 0) {
        Ok(found) => found,
        Err(err) => {
            return Err(err);
        },
    };
    if message.len() - offset < 4 {
        return Err(ProxyError::protocol("dns question is missing qtype or qclass"));
    }
    Ok(
        DnsQueryInfo {
            id: read_be16(message, 0),
            name: normalize_domain(name.as_str()),
            qtype: read_be16(message, offset),
        },
    )
}

/// Whether a label can be encoded.
pub open spec fn label_fits(label: Seq<char>) -> bool {
    0 < encode_utf8(label).len() <= 63
}

/// Labels in wire form, without the byte that ends the name.
pub open spec fn encoded_labels(labels: Seq<Seq<char>>) -> Seq<u8>
    decreases labels.len(),
{
    if labels.len() == 0 {
        seq![]
    } else {
        let last = encode_utf8(labels.last());
        encoded_labels(labels.drop_last()) + (seq![last.len() as u8] + last)
    }
}

/// The header of a query with one question that asks for recursion.
pub open spec fn query_header(id: u16) -> Seq<u8> {
    be16_bytes(id) + seq![1u8, 0u8, 0u8, 1u8, 0u8, 0u8, 0u8, 0u8, 0u8, 0u8]
}

/// The query for the IPv4 addresses of `domain`.
pub open spec fn a_query(domain: Seq<char>, id: u16) -> core::result::Result<Seq<u8>, ErrorView> {
    let name = normalized(domain);
    let labels = split(name, '.');
    if name.len() == 0 {
        Err(protocol_error("dns query domain must not be empty"@))
    } else if exists|i: int| 0 <= i < labels.len() && !label_fits(#[trigger] labels[i]) {
        Err(protocol_error("dns label length is invalid"@))
    } else {
        Ok(query_header(id) + encoded_labels(labels) + seq![0u8, 0u8, 1u8, 0u8, 1u8])
    }
}

/// Builds the query for the IPv4 addresses of `domain`.
pub fn build_a_query(domain: &str, query_id: u16) -> (r: Result<Vec<u8>>)
    ensures
        match a_query(domain@, query_id) {
            Ok(q) => r matches Ok(query) && query@ == q,
            Err(e) => r matches Err(err) && err@ == e,
        },
{
    let normalized_name = normalize_domain(domain);
    if normalized_name.as_str().is_empty() {
        return Err(ProxyError::protocol("dns query domain must not be empty"));
    }
    let mut query: Vec<u8> = Vec::new();
    push_be16(&mut query, query_id);
    push_be16(&mut query, 0x0100);
    push_be16(&mut query, 1);
    push_be16(&mut query, 0);
    push_be16(&mut query, 0);
    push_be16(&mut query, 0);
    let ghost header = query_header(query_id);
    assert(query@ =~= header);
    let labels = split_text(normalized_name.as_str(), '.');
    let ghost all = split(normalized_name@, '.');
    let mut i: usize = 0;
    assert(all.take(0) =~= seq![]);
    assert(query@ =~= header + encoded_labels(all.take(0)));
    while i < labels.len()
        invariant
            i <= labels@.len(),
            all == texts(labels@),
            all == split(normalized(domain@), '.'),
            normalized(domain@).len() > 0,
            forall|j: int| 0 <= j < i ==> label_fits(#[trigger] all[j]),
            query@ == header + encoded_labels(all.take(i as int)),
        decreases labels@.len() - i,
    {
        let bytes = labels[i].as_str().as_bytes();
        assert(all[i as int] == labels@[i as int]@);
        if bytes.len() == 0 || bytes.len() > 63 {
            assert(!label_fits(all[i as int]));
            return Err(ProxyError::protocol("dns label length is invalid"));
        }
        query.push(bytes.len() as u8);
        query.extend_from_slice(bytes);
        proof {
            let next = all.take(i + 1);
            assert(next.drop_last() =~= all.take(i as int));
            assert(next.last() == all[i as int]);
            assert(query@ =~= header + encoded_labels(next));
        }
        i += 1;
    }
    assert(all.take(i as int) =~= all);
    query.push(0);
    push_be16(&mut query, DNS_TYPE_A);
    push_be16(&mut query, DNS_CLASS_IN);
    proof {
        assert(query@ =~= header + encoded_labels(all) + seq![0u8, 0u8, 1u8, 0u8, 1u8]);
        assert(!(exists|j: int| 0 <= j < all.len() && !label_fits(#[trigger] all[j])));
    }
    Ok(query)
}

/// A resource record of the answer section.
pub struct DnsRecord {
    pub record_type: u16,
    pub record_class: u16,
    pub ttl: u32,
    pub data: Vec<u8>,
}

/// A resource record as mathematical values.
#[verifier::ext_equal]
pub struct RecordView {
    pub record_type: u16,
    pub record_class: u16,
    pub ttl: u32,
    pub data: Seq<u8>,
}

impl View for DnsRecord {
    type V = RecordView;

    open spec fn view(&self) -> RecordView {
        RecordView {
            record_type: self.record_type,
            record_class: self.record_class,
            ttl: self.ttl,
            data: self.data@,
        }
    }
}

/// The offset after the `count` questions that start at `offset`.
pub open spec fn after_questions(m: Seq<u8>, offset: int, count: nat) -> core::result::Result<
    int,
    ErrorView,
>
    decreases count,
{
    if count == 0 {
        Ok(offset)
    } else {
        match name_at(m, offset, 0) {
            Err(e) => Err(e),
            Ok((_, end)) => if end + 4 > m.len() {
                Err(protocol_error("dns question is truncated"@))
            } else {
                after_questions(m, end + 4, (count - 1) as nat)
            },
        }
    }
}

/// The record at `offset` and the offset after it.
pub open spec fn record_at(m: Seq<u8>, offset: int) -> core::result::Result<
    (RecordView, int),
    ErrorView,
> {
    match name_at(m, offset, 0) {
        Err(e) => Err(e),
        Ok((_, at)) => if at + 10 > m.len() {
            Err(protocol_error("dns answer header is truncated"@))
        } else if at + 10 + be16(m, at + 8) > m.len() {
            Err(protocol_error("dns answer data is truncated"@))
        } else {
            let end = at + 10 + be16(m, at + 8);
            Ok(
                (
                    RecordView {
                        record_type: be16(m, at),
                        record_class: be16(m, at + 2),
                        ttl: be32(m, at + 4),
                        data: m.subrange(at + 10, end),
                    },
                    end,
                ),
            )
        },
    }
}

/// The `count` records that start at `offset`.
pub open spec fn records_at(m: Seq<u8>, offset: int, count: nat) -> core::result::Result<
    Seq<RecordView>,
    ErrorView,
>
    decreases count,
{
    if count == 0 {
        Ok(seq![])
    } else {
        match record_at(m, offset) {
            Err(e) => Err(e),
            Ok((record, end)) => match records_at(m, end, (count - 1) as nat) {
                Err(e) => Err(e),
                Ok(rest) => Ok(seq![record] + rest),
            },
        }
    }
}

/// The answer records of a message with a whole header.
pub open spec fn answers_of(m: Seq<u8>) -> core::result::Result<Seq<RecordView>, ErrorView> {
    match after_questions(m, DNS_HEADER_LEN as int, be16(m, 4) as nat) {
        Err(e) => Err(e),
        Ok(offset) => records_at(m, offset, be16(m, 6) as nat),
    }
}

/// The records as mathematical values.
pub open spec fn record_views(records: Seq<DnsRecord>) -> Seq<RecordView> {
    records.map_values(|r: DnsRecord| r@)
}

fn parse_record(message: &[u8], offset: usize) -> (r: Result<(DnsRecord, usize)>)
    ensures
        match record_at(message@, offset as int) {
            Ok((record, end)) => r matches Ok((rec, e)) && rec@ == record && e == end,
            Err(e) => r matches Err(err) && err@ == e,
        },
{
    let at: usize = match parse_name(message, offset, 0) {
        Ok((_, at)) => at,
        Err(err) => {
            return Err(err);
        },
    };
    if message.len() - at < 10 {
        return Err(ProxyError::protocol("dns answer header is truncated"));
    }
    let data_length: usize = read_be16(message, at + 8) as usize;
    let start: usize = at + 10;
    if message.len() - start < data_length {
        return Err(ProxyError::protocol("dns answer data is truncated"));
    }
    let end: usize = start + data_length;
    let record = DnsRecord {
        record_type: read_be16(message, at),
        record_class: read_be16(message, at + 2),
        ttl: read_be32(message, at + 4),
        data: clone_bytes(vstd::slice::slice_subrange(message, start, end)),
    };
    Ok((record, end))
}

fn parse_answers(message: &[u8]) -> (r: Result<Vec<DnsRecord>>)
    requires
        message@.len() >= DNS_HEADER_LEN,
    ensures
        match answers_of(message@) {
            Ok(records) => r matches Ok(found) && record_views(found@) == records,
            Err(e) => r matches Err(err) && err@ == e,
        },
{
    let question_count: u16 = read_be16(message, 4);
    let answer_count: u16 = read_be16(message, 6);
    let mut offset: usize = DNS_HEADER_LEN;
    let mut left: u16 = question_count;
    while left > 0
        invariant
            offset <= message@.len(),
            after_questions(message@, DNS_HEADER_LEN as int, question_count as nat)
                == after_questions(message@, offset as int, left as nat),
            question_count == be16(message@, 4),
        decreases left,
    {
        let end: usize = match parse_name(message, offset, 0) {
            Ok((_, end)) => end,
            Err(err) => {
                return Err(err);
            },
        };
        if message.len() - end < 4 {
            return Err(ProxyError::protocol("dns question is truncated"));
        }
        offset = end + 4;
        left -= 1;
    }
    let mut records: Vec<DnsRecord> = Vec::new();
    let mut left: u16 = answer_count;
    let ghost whole = records_at(message@, offset as int, answer_count as nat);
    proof {
        if let Ok(rest) = whole {
            assert(record_views(records@) + rest =~= rest);
        }
    }
    while left > 0
        invariant
            answers_of(message@) == whole,
            match records_at(message@, offset as int, left as nat) {
                Err(e) => whole == Err::<Seq<RecordView>, ErrorView>(e),
                Ok(rest) => whole == Ok::<Seq<RecordView>, ErrorView>(
                    record_views(records@) + rest,
                ),
            },
        decreases left,
    {
        let ghost before = record_views(records@);
        let (record, end) = match parse_record(message, offset) {
            Ok(found) => found,
            Err(err) => {
                return Err(err);
            },
        };
        let ghost view = record@;
        records.push(record);
        proof {
            assert(record_views(records@) =~= before.push(view));
            if let Ok(rest) = records_at(message@, end as int, (left - 1) as nat) {
                assert(before + (seq![view] + rest) =~= before.push(view) + rest);
            }
        }
        offset = end;
        left -= 1;
    }
    assert(record_views(records@) + Seq::<RecordView>::empty() =~= record_views(records@));
    Ok(records)
}

/// The address that a record carries: an Internet-class address record with an address of the
/// right length.
pub open spec fn record_address(r: RecordView) -> Option<IpView> {
    if r.record_class != DNS_CLASS_IN {
        None
    } else if r.record_type == DNS_TYPE_A && r.data.len() == 4 {
        Some(IpView::V4(r.data))
    } else if r.record_type == DNS_TYPE_AAAA && r.data.len() == 16 {
        Some(IpView::V6(r.data))
    } else {
        None
    }
}

/// The addresses that the records carry, in order.
pub open spec fn record_addresses(records: Seq<RecordView>) -> Seq<IpView>
    decreases records.len(),
{
    if records.len() == 0 {
        seq![]
    } else {
        let front = record_addresses(records.drop_last());
        match record_address(records.last()) {
            Some(ip) => front.push(ip),
            None => front,
        }
    }
}

/// The addresses in a response.
pub open spec fn response_ips(m: Seq<u8>) -> core::result::Result<Seq<IpView>, ErrorView> {
    if m.len() < DNS_HEADER_LEN {
        Err(protocol_error("dns response is shorter than the header"@))
    } else {
        match answers_of(m) {
            Err(e) => Err(e),
            Ok(records) => if record_addresses(records).len() == 0 {
                Err(resolve_error("dns response did not contain usable A/AAAA answers"@))
            } else {
                Ok(record_addresses(records))
            },
        }
    }
}

/// The addresses as mathematical values.
pub open spec fn ip_views(ips: Seq<IpAddr>) -> Seq<IpView> {
    ips.map_values(|ip: IpAddr| ip@)
}

fn octets4(data: &Vec<u8>) -> (r: [u8; 4])
    requires
        data@.len() == 4,
    ensures
        r@ == data@,
{
    let r: [u8; 4] = [data[0], data[1], data[2], data[3]];
    assert(r@ =~= data@);
    r
}

fn octets16(data: &Vec<u8>) -> (r: [u8; 16])
    requires
        data@.len() == 16,
    ensures
        r@ == data@,
{
    let mut r: [u8; 16] = [0; 16];
    let mut i: usize = 0;
    while i < 16
        invariant
            i <= 16,
            data@.len() == 16,
            forall|j: int| 0 <= j < i ==> r@[j] == data@[j],
        decreases 16 - i,
    {
        r[i] = data[i];
        i += 1;
    }
    assert(r@ =~= data@);
    r
}

/// The addresses in the answers of a response. A response without one is an error.
pub fn parse_response_ips(message: &[u8]) -> (r: Result<Vec<IpAddr>>)
    ensures
        match response_ips(message@) {
            Ok(ips) => r matches Ok(found) && ip_views(found@) == ips,
            Err(e) => r matches Err(err) && err@ == e,
        },
{
    if message.len() < DNS_HEADER_LEN {
        return Err(ProxyError::protocol("dns response is shorter than the header"));
    }
    let records = match parse_answers(message) {
        Ok(records) => records,
        Err(err) => {
            return Err(err);
        },
    };
    let ghost all = record_views(records@);
    let mut addresses: Vec<IpAddr> = Vec::new();
    let mut i: usize = 0;
    while i < records.len()
        invariant
            i <= records@.len(),
            all == record_views(records@),
            ip_views(addresses@) == record_addresses(all.take(i as int)),
        decreases records@.len() - i,
    {
        let ghost before = ip_views(addresses@);
        proof {
            assert(all.take(i + 1).drop_last() =~= all.take(i as int));
            assert(all.take(i + 1).last() == records@[i as int]@);
        }
        let record = &records[i];
        if record.record_class == DNS_CLASS_IN {
            if record.record_type == DNS_TYPE_A && record.data.len() == 4 {
                addresses.push(IpAddr::V4(octets4(&record.data)));
                assert(ip_views(addresses@) =~= before.push(IpView::V4(record.data@)));
            } else if record.record_type == DNS_TYPE_AAAA && record.data.len() == 16 {
                addresses.push(IpAddr::V6(octets16(&record.data)));
                assert(ip_views(addresses@) =~= before.push(IpView::V6(record.data@)));
            }
        }
        i += 1;
    }
    assert(all.take(i as int) =~= all);
    if addresses.len() == 0 {
        return Err(ProxyError::resolve("dns response did not contain usable A/AAAA answers"));
    }
    Ok(addresses)
}

/// Whether a record counts for the lifetime of a response to a query of type `query_type`.
pub open spec fn ttl_counts(r: RecordView, query_type: u16) -> bool {
    r.record_class == DNS_CLASS_IN && r.record_type == query_type && r.ttl > 0
}

/// The least lifetime among the records that count.
pub open spec fn least_ttl(records: Seq<RecordView>, query_type: u16) -> Option<u32>
    decreases records.len(),
{
    if records.len() == 0 {
        None
    } else {
        let front = least_ttl(records.drop_last(), query_type);
        let last = records.last();
        if !ttl_counts(last, query_type) {
            front
        } else {
            match front {
                Some(ttl) if ttl <= last.ttl => Some(ttl),
                _ => Some(last.ttl),
            }
        }
    }
}

/// The lifetime, in seconds, of a response to a query of type `query_type`. A response that
/// reports a failure has none.
pub open spec fn response_ttl(m: Seq<u8>, query_type: u16) -> core::result::Result<
    Option<u32>,
    ErrorView,
> {
    if m.len() < DNS_HEADER_LEN {
        Err(protocol_error("dns response is shorter than the header"@))
    } else if m[2] < 0x80 {
        Err(protocol_error("dns message is not a response"@))
    } else if m[3] % 16 != 0 {
        Ok(None)
    } else {
        match answers_of(m) {
            Err(e) => Err(e),
            Ok(records) => Ok(least_ttl(records, query_type)),
        }
    }
}

/// The least positive lifetime of the matching answers of a response.
pub fn parse_response_min_ttl(message: &[u8], query_type: u16) -> (r: Result<Option<Duration>>)
    ensures
        match response_ttl(message@, query_type) {
            Ok(Some(secs)) => r matches Ok(Some(ttl)) && ttl.nanos == secs * 1_000_000_000,
            Ok(None) => r matches Ok(None),
            Err(e) => r matches Err(err) && err@ == e,
        },
{
    if message.len() < DNS_HEADER_LEN {
        return Err(ProxyError::protocol("dns response is shorter than the header"));
    }
    if message[2] < 0x80 {
        return Err(ProxyError::protocol("dns message is not a response"));
    }
    if message[3] % 16 != 0 {
        return Ok(None);
    }
    let records = match parse_answers(message) {
        Ok(records) => records,
        Err(err) => {
            return Err(err);
        },
    };
    let ghost all = record_views(records@);
    let mut min_ttl: Option<u32> = None;
    let mut i: usize = 0;
    while i < records.len()
        invariant
            i <= records@.len(),
            all == record_views(records@),
            min_ttl == least_ttl(all.take(i as int), query_type),
        decreases records@.len() - i,
    {
        proof {
            assert(all.take(i + 1).drop_last() =~= all.take(i as int));
            assert(all.take(i + 1).last() == records@[i as int]@);
        }
        let record = &records[i];
        if record.record_class == DNS_CLASS_IN && record.record_type == query_type && record.ttl
            > 0 {
            min_ttl =
            Some(
                match min_ttl {
                    Some(existing) => if existing <= record.ttl {
                        existing
                    } else {
                        record.ttl
                    },
                    None => record.ttl,
                },
            );
        }
        i += 1;
    }
    assert(all.take(i as int) =~= all);
    match min_ttl {
        Some(ttl) => Ok(Some(Duration::from_secs(ttl as u64))),
        None => Ok(None),
    }
}

/// The message with the transaction id `id`.
pub open spec fn with_id(m: Seq<u8>, id: u16) -> Seq<u8> {
    be16_bytes(id) + m.skip(2)
}

/// Replaces the transaction id of a message.
pub fn rewrite_message_id(message: &[u8], query_id: u16) -> (r: Result<Vec<u8>>)
    ensures
        if message@.len() < 2 {
            r matches Err(err) && err@ == protocol_error(
                "dns message is shorter than the transaction id"@,
            )
        } else {
            r matches Ok(m) && m@ == with_id(message@, query_id)
        },
{
    if message.len() < 2 {
        return Err(ProxyError::protocol("dns message is shorter than the transaction id"));
    }
    let mut rewritten: Vec<u8> = Vec::new();
    push_be16(&mut rewritten, query_id);
    rewritten.extend_from_slice(vstd::slice::slice_subrange(message, 2, message.len()));
    assert(rewritten@ =~= with_id(message@, query_id));
    Ok(rewritten)
}

proof fn lemma_be16_bytes(v: u16)
    ensures
        be16(be16_bytes(v), 0) == v,
{
}

/// Rewriting the transaction id gives the message that id and changes nothing else.
pub proof fn law_rewrite_changes_id_only(m: Seq<u8>, id: u16)
    requires
        m.len() >= 2,
    ensures
        with_id(m, id).len() == m.len(),
        be16(with_id(m, id), 0) == id,
        with_id(m, id).skip(2) == m.skip(2),
{
    assert(with_id(m, id).skip(2) =~= m.skip(2));
    lemma_be16_bytes(id);
}

/// The last rewriting of the transaction id is the one that counts, and writing a message's own id
/// back gives the message.
pub proof fn law_rewrite_overrides(m: Seq<u8>, first: u16, second: u16)
    requires
        m.len() >= 2,
    ensures
        with_id(with_id(m, first), second) == with_id(m, second),
        with_id(m, be16(m, 0)) == m,
{
    assert(with_id(with_id(m, first), second) =~= with_id(m, second));
    assert(be16(m, 0) == m[0] * 256 + m[1]);
    assert(with_id(m, be16(m, 0)) =~= m);
}

/// The lifetime of a response is positive, belongs to one of the records that count and is not
/// above that of any other; there is none exactly where no record counts.
pub proof fn law_least_ttl(records: Seq<RecordView>, query_type: u16)
    ensures
        match least_ttl(records, query_type) {
            Some(ttl) => {
                &&& ttl > 0
                &&& exists|i: int|
                    0 <= i < records.len() && ttl_counts(#[trigger] records[i], query_type)
                        && records[i].ttl == ttl
                &&& forall|i: int|
                    0 <= i < records.len() && ttl_counts(#[trigger] records[i], query_type) ==> ttl
                        <= records[i].ttl
            },
            None => forall|i: int|
                0 <= i < records.len() ==> !ttl_counts(#[trigger] records[i], query_type),
        },
    decreases records.len(),
{
    if records.len() > 0 {
        let front = records.drop_last();
        law_least_ttl(front, query_type);
        assert(records[records.len() - 1] == records.last());
        if let Some(ttl) = least_ttl(front, query_type) {
            let i = choose|i: int|
                0 <= i < front.len() && ttl_counts(#[trigger] front[i], query_type) && front[i].ttl
                    == ttl;
            assert(records[i] == front[i]);
        }
        assert forall|i: int| 0 <= i < front.len() implies #[trigger] records[i] == front[i] by {}
    }
}

/// The labels that were encoded are read back.
proof fn lemma_labels_read_back(m: Seq<u8>, start: int, labels: Seq<Seq<char>>, done: nat)
    requires
        0 <= start,
        done <= labels.len(),
        forall|i: int| 0 <= i < labels.len() ==> label_fits(#[trigger] labels[i]),
        m.len() > start + encoded_labels(labels).len(),
        m.subrange(start, start + encoded_labels(labels).len()) == encoded_labels(labels),
        m[start + encoded_labels(labels).len()] == 0,
    ensures
        name_labels(m, start + encoded_labels(labels.take(done as int)).len(), 0) == Ok::<
            (Seq<Seq<char>>, int),
            ErrorView,
        >((labels.skip(done as int), start + encoded_labels(labels).len() + 1)),
    decreases labels.len() - done,
{
    let at = start + encoded_labels(labels.take(done as int)).len();
    if done == labels.len() {
        assert(labels.take(done as int) =~= labels);
        assert(labels.skip(done as int) =~= seq![]);
    } else {
        let next = labels.take(done as int + 1);
        let label = labels[done as int];
        let bytes = encode_utf8(label);
        assert(next.drop_last() =~= labels.take(done as int));
        assert(next.last() == label);
        let whole = encoded_labels(labels);
        let piece = seq![bytes.len() as u8] + bytes;
        lemma_encoded_prefix(labels, done as int + 1);
        assert(encoded_labels(next) == encoded_labels(labels.take(done as int)) + piece);
        assert(whole.take(encoded_labels(next).len() as int) == encoded_labels(next));
        let off = encoded_labels(labels.take(done as int)).len();
        assert forall|i: int| 0 <= i < piece.len() implies m[at + i] == piece[i] by {
            assert(whole[off + i] == encoded_labels(next)[off + i]);
            assert(m.subrange(start, start + whole.len())[off + i] == whole[off + i]);
        }
        assert(m[at] == piece[0]);
        assert(m.subrange(at + 1, at + 1 + bytes.len()) =~= bytes) by {
            assert forall|i: int| 0 <= i < bytes.len() implies m.subrange(
                at + 1,
                at + 1 + bytes.len(),
            )[i] == bytes[i] by {
                assert(m[at + (i + 1)] == piece[i + 1]);
            }
        }
        encode_utf8_valid_utf8(label);
        encode_utf8_decode_utf8(label);
        lemma_labels_read_back(m, start, labels, done + 1);
        assert(seq![label] + labels.skip(done as int + 1) =~= labels.skip(done as int));
    }
}

/// The encoding of the first labels is a prefix of the encoding of all.
proof fn lemma_encoded_prefix(labels: Seq<Seq<char>>, n: int)
    requires
        0 <= n <= labels.len(),
    ensures
        encoded_labels(labels.take(n)).len() <= encoded_labels(labels).len(),
        encoded_labels(labels).take(encoded_labels(labels.take(n)).len() as int)
            == encoded_labels(labels.take(n)),
    decreases labels.len(),
{
    if n == labels.len() {
        assert(labels.take(n) =~= labels);
        assert(encoded_labels(labels).take(encoded_labels(labels).len() as int) =~= encoded_labels(
            labels,
        ));
    } else {
        let front = labels.drop_last();
        lemma_encoded_prefix(front, n);
        assert(front.take(n) =~= labels.take(n));
        let k = encoded_labels(labels.take(n)).len() as int;
        assert(encoded_labels(labels).take(k) =~= encoded_labels(front).take(k));
    }
}

/// A query that was built asks what it was built for: parsing it gives back the id, the canonical
/// form of the domain and the address type.
pub proof fn law_built_query_parses(domain: Seq<char>, id: u16)
    requires
        a_query(domain, id) is Ok,
    ensures
        query_of(a_query(domain, id)->Ok_0) == Ok::<QueryView, ErrorView>(
            QueryView { id, name: normalized(domain), qtype: DNS_TYPE_A },
        ),
{
    let q = a_query(domain, id)->Ok_0;
    let name = normalized(domain);
    let labels = split(name, '.');
    let body = encoded_labels(labels);
    assert forall|i: int| 0 <= i < labels.len() implies label_fits(#[trigger] labels[i]) by {}
    assert(query_header(id).len() == 12);
    assert(q.subrange(12, 12 + body.len() as int) =~= body);
    assert(q[12 + body.len() as int] == 0u8);
    lemma_labels_read_back(q, 12, labels, 0);
    assert(labels.take(0) =~= seq![]);
    assert(labels.skip(0) =~= labels);
    lemma_split_join(name, '.');
    lemma_normalized_idempotent(domain);
    assert(q[0] == (id / 256) as u8);
    assert(q[1] == (id % 256) as u8);
    assert(q[4] == 0u8 && q[5] == 1u8);
    let end: int = 12 + body.len() as int + 1;
    assert(q[end] == 0u8 && q[end + 1] == 1u8);
}

/// Whether the name at `cursor` is read without following a pointer into the transaction id.
pub open spec fn name_avoids_id(m: Seq<u8>, cursor: int, depth: nat) -> bool
    decreases MAX_NAME_DEPTH + 1 - depth, m.len() - cursor,
{
    if depth > MAX_NAME_DEPTH || !(0 <= cursor < m.len()) {
        true
    } else {
        let len = m[cursor] as int;
        if len == 0 {
            true
        } else if len >= 0xc0 {
            if cursor + 1 >= m.len() {
                true
            } else {
                let target = (len - 0xc0) * 256 + m[cursor + 1];
                target >= m.len() || (target >= 2 && name_avoids_id(m, target, depth + 1))
            }
        } else {
            cursor + 1 + len > m.len() || name_avoids_id(m, cursor + 1 + len, depth)
        }
    }
}

/// Whether the `count` questions that start at `offset` are read without following a pointer into
/// the transaction id.
pub open spec fn questions_avoid_id(m: Seq<u8>, offset: int, count: nat) -> bool
    decreases count,
{
    count == 0 || (name_avoids_id(m, offset, 0) && match name_at(m, offset, 0) {
        Err(_) => true,
        Ok((_, end)) => end + 4 > m.len() || questions_avoid_id(m, end + 4, (count - 1) as nat),
    })
}

/// Whether the `count` records that start at `offset` are read without following a pointer into
/// the transaction id.
pub open spec fn records_avoid_id(m: Seq<u8>, offset: int, count: nat) -> bool
    decreases count,
{
    count == 0 || (name_avoids_id(m, offset, 0) && match record_at(m, offset) {
        Err(_) => true,
        Ok((_, end)) => records_avoid_id(m, end, (count - 1) as nat),
    })
}

/// Whether the questions and answers of a message are read without following a pointer into the
/// transaction id. So it is with every message whose pointers lead to names, which lie behind the
/// header.
pub open spec fn answers_avoid_id(m: Seq<u8>) -> bool {
    questions_avoid_id(m, DNS_HEADER_LEN as int, be16(m, 4) as nat) && match after_questions(
        m,
        DNS_HEADER_LEN as int,
        be16(m, 4) as nat,
    ) {
        Err(_) => true,
        Ok(offset) => records_avoid_id(m, offset, be16(m, 6) as nat),
    }
}

proof fn lemma_name_keeps(m: Seq<u8>, id: u16, cursor: int, depth: nat)
    requires
        m.len() >= 2,
        cursor >= 2,
        name_avoids_id(m, cursor, depth),
    ensures
        name_labels(with_id(m, id), cursor, depth) == name_labels(m, cursor, depth),
        name_labels(m, cursor, depth) matches Ok((_, end)) ==> end > cursor,
    decreases MAX_NAME_DEPTH + 1 - depth, m.len() - cursor,
{
    let w = with_id(m, id);
    if depth <= MAX_NAME_DEPTH && cursor < m.len() {
        assert(w[cursor] == m[cursor]);
        let len = m[cursor] as int;
        if len >= 0xc0 {
            if cursor + 1 < m.len() {
                assert(w[cursor + 1] == m[cursor + 1]);
                let target = (len - 0xc0) * 256 + m[cursor + 1];
                if target < m.len() {
                    lemma_name_keeps(m, id, target, depth + 1);
                }
            }
        } else if len > 0 && cursor + 1 + len <= m.len() {
            assert(w.subrange(cursor + 1, cursor + 1 + len) =~= m.subrange(
                cursor + 1,
                cursor + 1 + len,
            ));
            lemma_name_keeps(m, id, cursor + 1 + len, depth);
        }
    }
}

proof fn lemma_questions_keep(m: Seq<u8>, id: u16, offset: int, count: nat)
    requires
        m.len() >= 2,
        offset >= 2,
        questions_avoid_id(m, offset, count),
    ensures
        after_questions(with_id(m, id), offset, count) == after_questions(m, offset, count),
        after_questions(m, offset, count) matches Ok(end) ==> end >= offset,
    decreases count,
{
    if count > 0 {
        lemma_name_keeps(m, id, offset, 0);
        if let Ok((_, end)) = name_at(m, offset, 0) {
            if end + 4 <= m.len() {
                lemma_questions_keep(m, id, end + 4, (count - 1) as nat);
            }
        }
    }
}

proof fn lemma_records_keep(m: Seq<u8>, id: u16, offset: int, count: nat)
    requires
        m.len() >= 2,
        offset >= 2,
        records_avoid_id(m, offset, count),
    ensures
        records_at(with_id(m, id), offset, count) == records_at(m, offset, count),
    decreases count,
{
    let w = with_id(m, id);
    if count > 0 {
        lemma_name_keeps(m, id, offset, 0);
        if let Ok((_, at)) = name_at(m, offset, 0) {
            if at + 10 <= m.len() {
                assert forall|i: int| 2 <= i < m.len() implies #[trigger] w[i] == m[i] by {}
                let end = at + 10 + be16(m, at + 8);
                if end <= m.len() {
                    assert(w.subrange(at + 10, end) =~= m.subrange(at + 10, end));
                    lemma_records_keep(m, id, end, (count - 1) as nat);
                }
            }
        }
    }
}

/// A response stays usable under another transaction id: its addresses and its lifetime are the
/// same.
pub proof fn law_rewritten_response_is_usable(m: Seq<u8>, id: u16, query_type: u16)
    requires
        m.len() >= DNS_HEADER_LEN,
        answers_avoid_id(m),
    ensures
        response_ips(with_id(m, id)) == response_ips(m),
        response_ttl(with_id(m, id), query_type) == response_ttl(m, query_type),
{
    let w = with_id(m, id);
    assert forall|i: int| 2 <= i < m.len() implies #[trigger] w[i] == m[i] by {}
    assert(be16(w, 4) == be16(m, 4));
    assert(be16(w, 6) == be16(m, 6));
    lemma_questions_keep(m, id, DNS_HEADER_LEN as int, be16(m, 4) as nat);
    if let Ok(offset) = after_questions(m, DNS_HEADER_LEN as int, be16(m, 4) as nat) {
        lemma_records_keep(m, id, offset, be16(m, 6) as nat);
    }
    assert(answers_of(w) == answers_of(m));
    assert(w[2] == m[2] && w[3] == m[3]);
}

/// A query asks the same under another transaction id.
pub proof fn law_rewritten_query_asks_the_same(m: Seq<u8>, id: u16)
    requires
        m.len() >= DNS_HEADER_LEN,
        name_avoids_id(m, DNS_HEADER_LEN as int, 0),
    ensures
        match query_of(m) {
            Ok(query) => query_of(with_id(m, id)) == Ok::<QueryView, ErrorView>(
                QueryView { id, ..query },
            ),
            Err(e) => query_of(with_id(m, id)) == Err::<QueryView, ErrorView>(e),
        },
{
    let w = with_id(m, id);
    assert forall|i: int| 2 <= i < m.len() implies #[trigger] w[i] == m[i] by {}
    lemma_name_keeps(m, id, DNS_HEADER_LEN as int, 0);
    law_rewrite_changes_id_only(m, id);
    assert(be16(w, 4) == be16(m, 4));
    if let Ok((_, end)) = name_at(m, DNS_HEADER_LEN as int, 0) {
        if end + 4 <= m.len() {
            assert(be16(w, end) == be16(m, end));
        }
    }
}

/// Addresses are found record by record: the addresses of two lists of records are those of the
/// first followed by those of the second, and a single record gives its data as an address exactly
/// where it is of the Internet class and either of type A with four bytes or of type AAAA with
/// sixteen.
pub proof fn law_addresses_are_found_record_by_record(
    first: Seq<RecordView>,
    second: Seq<RecordView>,
    record: RecordView,
)
    ensures
        record_addresses(first + second) == record_addresses(first) + record_addresses(second),
        record_addresses(seq![record]) == if record.record_class == 1 && record.record_type == 1
            && record.data.len() == 4 {
            seq![IpView::V4(record.data)]
        } else if record.record_class == 1 && record.record_type == 28 && record.data.len() == 16 {
            seq![IpView::V6(record.data)]
        } else {
            seq![]
        },
    decreases second.len(),
{
    let one = seq![record];
    assert(one.drop_last() =~= seq![]);
    assert(record_addresses(one.drop_last()) =~= seq![]);
    if second.len() == 0 {
        assert(first + second =~= first);
        assert(record_addresses(first) + Seq::<IpView>::empty() =~= record_addresses(first));
    } else {
        let front = second.drop_last();
        law_addresses_are_found_record_by_record(first, front, record);
        assert((first + second).drop_last() =~= first + front);
        assert((first + second).last() == second.last());
        assert(record_addresses(first + second) =~= record_addresses(first) + record_addresses(
            second,
        ));
    }
}

/// A response gives the addresses of all its answers, in order. It is an error where it is shorter
/// than a header, where its answers cannot be read, and where no answer carries an address.
pub proof fn law_response_gives_every_address(m: Seq<u8>)
    ensures
        m.len() < 12 ==> response_ips(m) == Err::<Seq<IpView>, ErrorView>(
            protocol_error("dns response is shorter than the header"@),
        ),
        m.len() >= 12 ==> match answers_of(m) {
            Err(e) => response_ips(m) == Err::<Seq<IpView>, ErrorView>(e),
            Ok(records) => {
                let carried = exists|i: int|
                    {
                        &&& 0 <= i < records.len()
                        &&& (#[trigger] records[i]).record_class == 1
                        &&& (records[i].record_type == 1 && records[i].data.len() == 4) || (
                        records[i].record_type == 28 && records[i].data.len() == 16)
                    };
                &&& carried ==> response_ips(m) == Ok::<Seq<IpView>, ErrorView>(
                    record_addresses(records),
                )
                &&& !carried ==> response_ips(m) == Err::<Seq<IpView>, ErrorView>(
                    resolve_error("dns response did not contain usable A/AAAA answers"@),
                )
            },
        },
{
    if m.len() >= 12 {
        if let Ok(records) = answers_of(m) {
            lemma_some_address(records);
        }
    }
}

proof fn lemma_some_address(records: Seq<RecordView>)
    ensures
        record_addresses(records).len() > 0 <==> exists|i: int|
            {
                &&& 0 <= i < records.len()
                &&& (#[trigger] records[i]).record_class == 1
                &&& (records[i].record_type == 1 && records[i].data.len() == 4) || (
                records[i].record_type == 28 && records[i].data.len() == 16)
            },
    decreases records.len(),
{
    if records.len() > 0 {
        let front = records.drop_last();
        lemma_some_address(front);
        assert(records[records.len() - 1] == records.last());
        assert forall|i: int| 0 <= i < front.len() implies #[trigger] records[i] == front[i] by {}
        if record_addresses(front).len() > 0 {
            let i = choose|i: int|
                {
                    &&& 0 <= i < front.len()
                    &&& (#[trigger] front[i]).record_class == 1
                    &&& (front[i].record_type == 1 && front[i].data.len() == 4) || (
                    front[i].record_type == 28 && front[i].data.len() == 16)
                };
            assert(records[i] == front[i]);
        }
    }
}

/// The lifetime of a response is read from an answer only: a message without the response bit is an
/// error, and a response that reports a failure has no lifetime. Otherwise it is the least positive
/// lifetime among the answers of the Internet class and of the type that was asked for, and there is
/// none exactly where there is no such answer.
pub proof fn law_lifetime_of_a_response(m: Seq<u8>, query_type: u16)
    ensures
        m.len() < 12 ==> response_ttl(m, query_type) == Err::<Option<u32>, ErrorView>(
            protocol_error("dns response is shorter than the header"@),
        ),
        m.len() >= 12 && m[2] < 128 ==> response_ttl(m, query_type) == Err::<Option<u32>, ErrorView>(
            protocol_error("dns message is not a response"@),
        ),
        m.len() >= 12 && m[2] >= 128 && m[3] % 16 != 0 ==> response_ttl(m, query_type) == Ok::<
            Option<u32>,
            ErrorView,
        >(None),
        m.len() >= 12 && m[2] >= 128 && m[3] % 16 == 0 ==> match answers_of(m) {
            Err(e) => response_ttl(m, query_type) == Err::<Option<u32>, ErrorView>(e),
            Ok(records) => match response_ttl(m, query_type) {
                Err(_) => false,
                Ok(None) => forall|i: int|
                    0 <= i < records.len() ==> !((#[trigger] records[i]).record_class == 1
                        && records[i].record_type == query_type && records[i].ttl > 0),
                Ok(Some(ttl)) => {
                    &&& ttl > 0
                    &&& exists|i: int|
                        0 <= i < records.len() && (#[trigger] records[i]).record_class == 1
                            && records[i].record_type == query_type && records[i].ttl == ttl
                    &&& forall|i: int|
                        0 <= i < records.len() && (#[trigger] records[i]).record_class == 1
                            && records[i].record_type == query_type && records[i].ttl > 0 ==> ttl
                            <= records[i].ttl
                },
            },
        },
{
    if m.len() >= 12 && m[2] >= 128 && m[3] % 16 == 0 {
        if let Ok(records) = answers_of(m) {
            law_least_ttl(records, query_type);
            assert forall|i: int| 0 <= i < records.len() implies ttl_counts(
                #[trigger] records[i],
                query_type,
            ) == (records[i].record_class == 1 && records[i].record_type == query_type
                && records[i].ttl > 0) by {}
            if let Some(ttl) = least_ttl(records, query_type) {
                let i = choose|i: int|
                    0 <= i < records.len() && ttl_counts(#[trigger] records[i], query_type)
                        && records[i].ttl == ttl;
                assert(records[i].record_class == 1);
            }
        }
    }
}

/// Labels are written one after the other, each as its length in one byte and its bytes, and a label
/// can be written exactly where it has one to sixty-three bytes.
pub proof fn law_labels_are_written_one_by_one(
    first: Seq<Seq<char>>,
    second: Seq<Seq<char>>,
    label: Seq<char>,
)
    ensures
        label_fits(label) <==> 1 <= encode_utf8(label).len() <= 63,
        encoded_labels(first + second) == encoded_labels(first) + encoded_labels(second),
        encoded_labels(seq![label]) == seq![encode_utf8(label).len() as u8] + encode_utf8(label),
    decreases second.len(),
{
    let one = seq![label];
    assert(one.drop_last() =~= seq![]);
    assert(encoded_labels(one.drop_last()) =~= seq![]);
    assert(encoded_labels(one) =~= seq![encode_utf8(label).len() as u8] + encode_utf8(label));
    if second.len() == 0 {
        assert(first + second =~= first);
        assert(encoded_labels(first) + Seq::<u8>::empty() =~= encoded_labels(first));
    } else {
        let front = second.drop_last();
        law_labels_are_written_one_by_one(first, front, label);
        assert((first + second).drop_last() =~= first + front);
        assert((first + second).last() == second.last());
        assert(encoded_labels(first + second) =~= encoded_labels(first) + encoded_labels(second));
    }
}

/// A query is a header with the id, the flag that asks for recursion and one question, then the
/// labels of the canonical domain, the empty label, the type A and the Internet class, and nothing
/// else. It is built exactly where the canonical domain is not empty and each of its labels has one
/// to sixty-three bytes.
pub proof fn law_query_layout(domain: Seq<char>, id: u16)
    ensures
        ({
            let name = normalized(domain);
            let labels = split(name, '.');
            let writable = name.len() > 0 && forall|i: int|
                0 <= i < labels.len() ==> 1 <= encode_utf8(#[trigger] labels[i]).len() <= 63;
            &&& a_query(domain, id) is Ok <==> writable
            &&& name.len() == 0 ==> a_query(domain, id) == Err::<Seq<u8>, ErrorView>(
                protocol_error("dns query domain must not be empty"@),
            )
            &&& name.len() > 0 && !writable ==> a_query(domain, id) == Err::<Seq<u8>, ErrorView>(
                protocol_error("dns label length is invalid"@),
            )
            &&& a_query(domain, id) matches Ok(q) ==> {
                let n = encoded_labels(labels).len() as int;
                &&& q.len() == 12 + n + 5
                &&& q[0] * 256 + q[1] == id
                &&& q[2] == 1 && q[3] == 0
                &&& q[4] == 0 && q[5] == 1
                &&& forall|i: int| 6 <= i < 12 ==> #[trigger] q[i] == 0
                &&& q.subrange(12, 12 + n) == encoded_labels(labels)
                &&& q.skip(12 + n) == seq![0u8, 0u8, 1u8, 0u8, 1u8]
            }
        }),
{
    let name = normalized(domain);
    let labels = split(name, '.');
    assert forall|i: int| 0 <= i < labels.len() implies label_fits(#[trigger] labels[i]) == (1
        <= encode_utf8(labels[i]).len() <= 63) by {}
    if exists|i: int| 0 <= i < labels.len() && !label_fits(#[trigger] labels[i]) {
        let i = choose|i: int| 0 <= i < labels.len() && !label_fits(#[trigger] labels[i]);
        assert(!(1 <= encode_utf8(labels[i]).len() <= 63));
    }
    if let Ok(q) = a_query(domain, id) {
        let n = encoded_labels(labels).len() as int;
        assert(q.subrange(12, 12 + n) =~= encoded_labels(labels));
        assert(q.skip(12 + n) =~= seq![0u8, 0u8, 1u8, 0u8, 1u8]);
    }
}

/// A name that was written as labels is read back wherever it stands in a message, up to the byte
/// that ends it.
pub proof fn law_written_name_is_read_back(
    before: Seq<u8>,
    labels: Seq<Seq<char>>,
    after: Seq<u8>,
)
    requires
        forall|i: int|
            0 <= i < labels.len() ==> 1 <= encode_utf8(#[trigger] labels[i]).len() <= 63,
    ensures
        name_labels(
            before + encoded_labels(labels) + seq![0u8] + after,
            before.len() as int,
            0,
        ) == Ok::<(Seq<Seq<char>>, int), ErrorView>(
            (labels, before.len() as int + encoded_labels(labels).len() + 1),
        ),
        name_at(before + encoded_labels(labels) + seq![0u8] + after, before.len() as int, 0) == Ok::<
            (Seq<char>, int),
            ErrorView,
        >((joined(labels, seq!['.']), before.len() as int + encoded_labels(labels).len() + 1)),
{
    let m = before + encoded_labels(labels) + seq![0u8] + after;
    let start = before.len() as int;
    assert forall|i: int| 0 <= i < labels.len() implies label_fits(#[trigger] labels[i]) by {}
    assert(m.subrange(start, start + encoded_labels(labels).len()) =~= encoded_labels(labels));
    assert(m[start + encoded_labels(labels).len()] == 0u8);
    lemma_labels_read_back(m, start, labels, 0);
    assert(labels.take(0) =~= seq![]);
    assert(labels.skip(0) =~= labels);
}

/// A name is read label by label. A zero byte ends it; a label that runs over the end of the
/// message or is not UTF-8 is an error; any other label comes before those that follow it. Nothing
/// can be read beyond the end of the message, nor beyond eight pointers.
pub proof fn law_name_is_read_label_by_label(m: Seq<u8>, cursor: int, depth: nat)
    ensures
        depth > 8 ==> name_labels(m, cursor, depth) == Err::<(Seq<Seq<char>>, int), ErrorView>(
            protocol_error("dns name compression depth exceeded"@),
        ),
        depth <= 8 && !(0 <= cursor < m.len()) ==> name_labels(m, cursor, depth) == Err::<
            (Seq<Seq<char>>, int),
            ErrorView,
        >(protocol_error("dns name truncated"@)),
        depth <= 8 && 0 <= cursor < m.len() && m[cursor] == 0 ==> name_labels(m, cursor, depth)
            == Ok::<(Seq<Seq<char>>, int), ErrorView>((Seq::empty(), cursor + 1)),
        depth <= 8 && 0 <= cursor < m.len() && 0 < m[cursor] < 192 ==> {
            let end = cursor + 1 + m[cursor];
            &&& end > m.len() ==> name_labels(m, cursor, depth) == Err::<
                (Seq<Seq<char>>, int),
                ErrorView,
            >(protocol_error("dns label truncated"@))
            &&& end <= m.len() && !valid_utf8(m.subrange(cursor + 1, end)) ==> name_labels(
                m,
                cursor,
                depth,
            ) == Err::<(Seq<Seq<char>>, int), ErrorView>(
                protocol_error("dns label is not valid utf-8"@),
            )
            &&& end <= m.len() && valid_utf8(m.subrange(cursor + 1, end)) ==> match name_labels(
                m,
                end,
                depth,
            ) {
                Err(e) => name_labels(m, cursor, depth) == Err::<
                    (Seq<Seq<char>>, int),
                    ErrorView,
                >(e),
                Ok((rest, stop)) => name_labels(m, cursor, depth) == Ok::<
                    (Seq<Seq<char>>, int),
                    ErrorView,
                >((seq![decode_utf8(m.subrange(cursor + 1, end))] + rest, stop)),
            }
        },
{
}

/// A pointer stands for the name it leads to, and takes up two bytes whatever that name takes up.
/// One that is cut off, or that leads beyond the message, is an error.
pub proof fn law_pointer_stands_for_a_name(m: Seq<u8>, cursor: int, depth: nat)
    requires
        depth <= 8,
        0 <= cursor < m.len(),
        m[cursor] >= 192,
    ensures
        cursor + 1 == m.len() ==> name_at(m, cursor, depth) == Err::<(Seq<char>, int), ErrorView>(
            protocol_error("dns compression pointer truncated"@),
        ),
        cursor + 1 < m.len() ==> {
            let target = (m[cursor] - 192) * 256 + m[cursor + 1];
            &&& target >= m.len() ==> name_at(m, cursor, depth) == Err::<
                (Seq<char>, int),
                ErrorView,
            >(protocol_error("dns compression pointer out of range"@))
            &&& target < m.len() ==> match name_at(m, target, depth + 1) {
                Err(e) => name_at(m, cursor, depth) == Err::<(Seq<char>, int), ErrorView>(e),
                Ok((name, _)) => name_at(m, cursor, depth) == Ok::<(Seq<char>, int), ErrorView>(
                    (name, cursor + 2),
                ),
            }
        },
{
    if cursor + 1 < m.len() {
        let target = (m[cursor] - 192) * 256 + m[cursor + 1];
        if target < m.len() {
            if let Ok((name, _)) = name_at(m, target, depth + 1) {
                if name.len() == 0 {
                    assert(name =~= seq![]);
                } else {
                    assert(joined(seq![name], seq!['.']) == name);
                }
            }
        }
    }
}

/// What a message asks is its id, the canonical form of the first name behind the header, and the
/// type behind that name. A message without a whole header, without a question or without a whole
/// first question is an error.
pub proof fn law_first_question_is_read(m: Seq<u8>)
    ensures
        m.len() < 12 ==> query_of(m) == Err::<QueryView, ErrorView>(
            protocol_error("dns message is shorter than the header"@),
        ),
        m.len() >= 12 && m[4] == 0 && m[5] == 0 ==> query_of(m) == Err::<QueryView, ErrorView>(
            protocol_error("dns query must contain at least one question"@),
        ),
        m.len() >= 12 && !(m[4] == 0 && m[5] == 0) ==> match name_at(m, 12, 0) {
            Err(e) => query_of(m) == Err::<QueryView, ErrorView>(e),
            Ok((name, end)) => {
                &&& end + 4 > m.len() ==> query_of(m) == Err::<QueryView, ErrorView>(
                    protocol_error("dns question is missing qtype or qclass"@),
                )
                &&& end + 4 <= m.len() ==> (query_of(m) matches Ok(q) && q.id == m[0] * 256 + m[1]
                    && q.name == normalized(name) && q.qtype == m[end] * 256 + m[end + 1])
            },
        },
{
    if m.len() >= 12 {
        assert(be16(m, 4) == m[4] * 256 + m[5]);
    }
}

/// A record that was written behind its owner's name is read back: its type, its class, its
/// lifetime and its data, up to the end of the data.
pub proof fn law_written_record_is_read_back(
    before: Seq<u8>,
    owner: Seq<u8>,
    record: RecordView,
    after: Seq<u8>,
    name: Seq<char>,
)
    requires
        record.data.len() <= 65535,
        name_at(
            before + owner + be16_bytes(record.record_type) + be16_bytes(record.record_class)
                + be16_bytes((record.ttl / 65536) as u16) + be16_bytes((record.ttl % 65536) as u16)
                + be16_bytes(record.data.len() as u16) + record.data + after,
            before.len() as int,
            0,
        ) == Ok::<(Seq<char>, int), ErrorView>((name, (before.len() + owner.len()) as int)),
    ensures
        record_at(
            before + owner + be16_bytes(record.record_type) + be16_bytes(record.record_class)
                + be16_bytes((record.ttl / 65536) as u16) + be16_bytes((record.ttl % 65536) as u16)
                + be16_bytes(record.data.len() as u16) + record.data + after,
            before.len() as int,
        ) == Ok::<(RecordView, int), ErrorView>(
            (record, before.len() as int + owner.len() + 10 + record.data.len()),
        ),
{
    let m = before + owner + be16_bytes(record.record_type) + be16_bytes(record.record_class)
        + be16_bytes((record.ttl / 65536) as u16) + be16_bytes((record.ttl % 65536) as u16)
        + be16_bytes(record.data.len() as u16) + record.data + after;
    let at = (before.len() + owner.len()) as int;
    let length = record.data.len() as u16;
    let high = (record.ttl / 65536) as u16;
    let low = (record.ttl % 65536) as u16;
    assert(m[at] == (record.record_type / 256) as u8);
    assert(m[at + 1] == (record.record_type % 256) as u8);
    assert(m[at + 2] == (record.record_class / 256) as u8);
    assert(m[at + 3] == (record.record_class % 256) as u8);
    assert(m[at + 4] == (high / 256) as u8);
    assert(m[at + 5] == (high % 256) as u8);
    assert(m[at + 6] == (low / 256) as u8);
    assert(m[at + 7] == (low % 256) as u8);
    assert(m[at + 8] == (length / 256) as u8);
    assert(m[at + 9] == (length % 256) as u8);
    assert(be16(m, at) == record.record_type);
    assert(be16(m, at + 2) == record.record_class);
    assert(be16(m, at + 8) == length);
    assert(be32(m, at + 4) == record.ttl);
    assert(m.subrange(at + 10, at + 10 + length as int) =~= record.data);
}

/// A 16-bit number is written as its high byte and its low byte.
pub proof fn law_network_order(v: u16)
    ensures
        be16_bytes(v).len() == 2,
        be16_bytes(v)[0] * 256 + be16_bytes(v)[1] == v,
        be16(be16_bytes(v), 0) == v,
{
}

/// Records are read one behind the other: where each of them starts at the end of the one before,
/// all of them are found, in order; the first that cannot be read is the fault of all.
pub proof fn law_records_are_read_in_order(
    m: Seq<u8>,
    offsets: Seq<int>,
    records: Seq<RecordView>,
    count: nat,
)
    requires
        offsets.len() == records.len() + 1,
        records.len() <= count,
        forall|i: int|
            0 <= i < records.len() ==> record_at(m, #[trigger] offsets[i]) == Ok::<
                (RecordView, int),
                ErrorView,
            >((records[i], offsets[i + 1])),
    ensures
        count == records.len() ==> records_at(m, offsets[0], count) == Ok::<
            Seq<RecordView>,
            ErrorView,
        >(records),
        count > records.len() ==> (record_at(m, offsets.last()) matches Err(e) ==> records_at(
            m,
            offsets[0],
            count,
        ) == Err::<Seq<RecordView>, ErrorView>(e)),
    decreases records.len(),
{
    if records.len() == 0 {
        assert(records =~= seq![]);
        assert(offsets.last() == offsets[0]);
    } else {
        let rest = records.drop_first();
        let starts = offsets.drop_first();
        assert forall|i: int| 0 <= i < rest.len() implies record_at(m, #[trigger] starts[i]) == Ok::<
            (RecordView, int),
            ErrorView,
        >((rest[i], starts[i + 1])) by {
            assert(starts[i] == offsets[i + 1]);
            assert(starts[i + 1] == offsets[i + 2]);
            assert(rest[i] == records[i + 1]);
        }
        law_records_are_read_in_order(m, starts, rest, (count - 1) as nat);
        assert(starts[0] == offsets[1]);
        assert(starts.last() == offsets.last());
        assert(record_at(m, offsets[0]) == Ok::<(RecordView, int), ErrorView>(
            (records[0], offsets[1]),
        ));
        assert(seq![records[0]] + rest =~= records);
    }
}

/// As many records are read as the message announces.
pub proof fn law_no_record_is_left_out(m: Seq<u8>, offset: int, count: nat)
    ensures
        records_at(m, offset, count) matches Ok(records) ==> records.len() == count,
    decreases count,
{
    if count > 0 {
        if let Ok((_, end)) = record_at(m, offset) {
            law_no_record_is_left_out(m, end, (count - 1) as nat);
        }
    }
}

/// Questions are passed over one behind the other: each is a name and four bytes, and what follows
/// starts at the end of the last one.
pub proof fn law_questions_are_passed_over(m: Seq<u8>, offsets: Seq<int>)
    requires
        offsets.len() > 0,
        forall|i: int|
            0 <= i < offsets.len() - 1 ==> (name_at(m, #[trigger] offsets[i], 0) matches Ok((_, end))
                && end + 4 == offsets[i + 1] && end + 4 <= m.len()),
    ensures
        after_questions(m, offsets[0], (offsets.len() - 1) as nat) == Ok::<int, ErrorView>(
            offsets.last(),
        ),
    decreases offsets.len(),
{
    if offsets.len() > 1 {
        let rest = offsets.drop_first();
        assert forall|i: int| 0 <= i < rest.len() - 1 implies (name_at(
            m,
            #[trigger] rest[i],
            0,
        ) matches Ok((_, end)) && end + 4 == rest[i + 1] && end + 4 <= m.len()) by {
            assert(rest[i] == offsets[i + 1]);
            assert(rest[i + 1] == offsets[i + 2]);
        }
        law_questions_are_passed_over(m, rest);
        assert(rest[0] == offsets[1]);
        assert(rest.last() == offsets.last());
        assert(name_at(m, offsets[0], 0) is Ok);
    }
}

/// The answers of a message are the records behind its questions, as many as the header announces;
/// the header announces the questions in its fifth and sixth byte and the answers in the two bytes
/// behind them.
pub proof fn law_answers_stand_behind_the_questions(m: Seq<u8>)
    requires
        m.len() >= 12,
    ensures
        match after_questions(m, 12, (m[4] * 256 + m[5]) as nat) {
            Err(e) => answers_of(m) == Err::<Seq<RecordView>, ErrorView>(e),
            Ok(offset) => answers_of(m) == records_at(m, offset, (m[6] * 256 + m[7]) as nat),
        },
{
    assert(be16(m, 4) == m[4] * 256 + m[5]);
    assert(be16(m, 6) == m[6] * 256 + m[7]);
}

/// A view shows every field of its value, and a list shows each of its values, in order.
pub proof fn law_wire_views_show_everything(
    info: DnsQueryInfo,
    records: Seq<DnsRecord>,
    ips: Seq<IpAddr>,
)
    ensures
        info@.id == info.id,
        info@.name == info.name@,
        info@.qtype == info.qtype,
        record_views(records).len() == records.len(),
        forall|i: int|
            0 <= i < records.len() ==> (#[trigger] record_views(records)[i]).record_type
                == records[i].record_type && record_views(records)[i].record_class
                == records[i].record_class && record_views(records)[i].ttl == records[i].ttl
                && record_views(records)[i].data == records[i].data@,
        ip_views(ips).len() == ips.len(),
        forall|i: int| 0 <= i < ips.len() ==> #[trigger] ip_views(ips)[i] == ips[i]@,
{
}

/// A record means its bytes: behind the owner's name stand the type, the class, the lifetime and the
/// length of the data, all high byte first, and then the data. A record whose owner cannot be read,
/// or that runs over the end of the message, is an error.
pub proof fn law_record_means_its_bytes(m: Seq<u8>, offset: int)
    ensures
        match name_at(m, offset, 0) {
            Err(e) => record_at(m, offset) == Err::<(RecordView, int), ErrorView>(e),
            Ok((_, at)) => {
                &&& at + 10 > m.len() ==> record_at(m, offset) == Err::<
                    (RecordView, int),
                    ErrorView,
                >(protocol_error("dns answer header is truncated"@))
                &&& 0 <= at && at + 10 <= m.len() ==> {
                    let length = m[at + 8] * 256 + m[at + 9];
                    &&& at + 10 + length > m.len() ==> record_at(m, offset) == Err::<
                        (RecordView, int),
                        ErrorView,
                    >(protocol_error("dns answer data is truncated"@))
                    &&& at + 10 + length <= m.len() ==> (record_at(m, offset) matches Ok(
                        (record, end),
                    ) && end == at + 10 + length && record.record_type == m[at] * 256 + m[at + 1]
                        && record.record_class == m[at + 2] * 256 + m[at + 3] && record.ttl == m[at
                        + 4] * 0x100_0000 + m[at + 5] * 0x1_0000 + m[at + 6] * 0x100 + m[at + 7]
                        && record.data == m.subrange(at + 10, at + 10 + length))
                }
            },
        },
{
    if let Ok((_, at)) = name_at(m, offset, 0) {
        if 0 <= at && at + 10 <= m.len() {
            assert(be16(m, at + 8) == m[at + 8] * 256 + m[at + 9]);
        }
    }
}

/// A question that cannot be read, or that runs over the end of the message, is an error, and the
/// questions behind it are not looked at.
pub proof fn law_faulty_question_is_an_error(m: Seq<u8>, offset: int, count: nat)
    requires
        count > 0,
    ensures
        after_questions(m, offset, 0) == Ok::<int, ErrorView>(offset),
        match name_at(m, offset, 0) {
            Err(e) => after_questions(m, offset, count) == Err::<int, ErrorView>(e),
            Ok((_, end)) => end + 4 > m.len() ==> after_questions(m, offset, count) == Err::<
                int,
                ErrorView,
            >(protocol_error("dns question is truncated"@)),
        },
{
}

} // verus!
