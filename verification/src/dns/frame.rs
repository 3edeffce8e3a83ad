//! DNS messages on a stream: each is preceded by its length.

use vstd::prelude::*;

use crate::dns::wire::{be16, be16_bytes};
use crate::error::{protocol_error, ProxyError, Result};
use crate::text::clone_bytes;

verus! {

/// A message behind its length in two bytes.
pub open spec fn framed(message: Seq<u8>) -> Seq<u8> {
    be16_bytes(message.len() as u16) + message
}

/// The first message on a stream of which `received` has come so far, where all of it has.
pub open spec fn unframed(received: Seq<u8>) -> Option<Seq<u8>> {
    if received.len() < 2 || received.len() < 2 + be16(received, 0) {
        None
    } else {
        Some(received.subrange(2, 2 + be16(received, 0) as int))
    }
}

/// Frames a message for a stream. A message whose length does not fit two bytes is an error.
pub fn frame_dns_tcp_message(message: &[u8]) -> (r: Result<Vec<u8>>)
    ensures
        if message@.len() > u16::MAX {
            r matches Err(err) && err@ == protocol_error("dns message is too long for a stream"@)
        } else {
            r matches Ok(bytes) && bytes@ == framed(message@)
        },
{
    if message.len() > u16::MAX as usize {
        return Err(ProxyError::protocol("dns message is too long for a stream"));
    }
    let length: u16 = message.len() as u16;
    let mut bytes: Vec<u8> = Vec::new();
    bytes.push((length / 256) as u8);
    bytes.push((length % 256) as u8);
    bytes.extend_from_slice(message);
    assert(bytes@ =~= framed(message@));
    Ok(bytes)
}

/// Takes the first message off a stream, where all of it has come.
pub fn read_dns_tcp_message(received: &[u8]) -> (r: Option<Vec<u8>>)
    ensures
        match unframed(received@) {
            Some(message) => r matches Some(m) && m@ == message,
            None => r is None,
        },
{
    if received.len() < 2 {
        return None;
    }
    let length: usize = received[0] as usize * 256 + received[1] as usize;
    if received.len() - 2 < length {
        return None;
    }
    Some(clone_bytes(vstd::slice::slice_subrange(received, 2, 2 + length)))
}

/// What was framed is read back, whatever follows it on the stream.
pub proof fn law_framed_message_is_read_back(message: Seq<u8>, more: Seq<u8>)
    requires
        message.len() <= u16::MAX,
    ensures
        unframed(framed(message) + more) == Some(message),
{
    let stream = framed(message) + more;
    let length = message.len() as u16;
    assert(stream[0] == (length / 256) as u8);
    assert(stream[1] == (length % 256) as u8);
    assert(be16(stream, 0) == length);
    assert(stream.subrange(2, 2 + length as int) =~= message);
}

/// A framed message is its length, high byte first, and the message behind it.
pub proof fn law_frame_starts_with_the_length(message: Seq<u8>)
    requires
        message.len() <= 65535,
    ensures
        framed(message).len() == 2 + message.len(),
        framed(message)[0] * 256 + framed(message)[1] == message.len(),
        framed(message).skip(2) == message,
{
    assert(framed(message).skip(2) =~= message);
}

/// Nothing is read before the whole message has come: of a framed message that is cut off, however
/// short the missing part, nothing is taken.
pub proof fn law_cut_off_frame_is_waited_for(message: Seq<u8>, have: int)
    requires
        message.len() <= 65535,
        0 <= have < framed(message).len(),
    ensures
        unframed(framed(message).take(have)) is None,
{
    let part = framed(message).take(have);
    let length = message.len() as u16;
    if have >= 2 {
        assert(part[0] == (length / 256) as u8);
        assert(part[1] == (length % 256) as u8);
        assert(be16(part, 0) == length);
    }
}

/// A message that is read is what follows its length on the stream, no more and no less.
pub proof fn law_read_message_has_the_announced_length(received: Seq<u8>)
    ensures
        match unframed(received) {
            Some(message) => received.len() >= 2 && message.len() == received[0] * 256 + received[1]
                && received.len() >= 2 + message.len() && message == received.subrange(
                2,
                2 + message.len() as int,
            ),
            None => received.len() < 2 || received.len() < 2 + received[0] * 256 + received[1],
        },
{
    if received.len() >= 2 {
        assert(be16(received, 0) == received[0] * 256 + received[1]);
    }
}

} // verus!
