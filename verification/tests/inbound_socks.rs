use veex::error::{ErrorKind, ProxyError};
use veex::inbound::socks::codec::{
    decode_greeting, decode_request, encode_method_selection, encode_reply, AddressType, Command,
    ReplyCode, Request,
};
use veex::inbound::socks::error::SocksError;
use veex::inbound::socks::protocol::{
    HandshakeStage, HandshakeStep, SocksHandshake, SocksProtocolError,
};
use veex::inbound::socks::server::{SocksInbound, SocksSettings};
use veex::time::Instant;
use veex::types::{Destination, Host, IpAddr, SocketAddr};

const DOMAIN_REQUEST: [u8; 18] = [
    0x05, 0x01, 0x00, 0x03, 0x0b, b'e', b'x', b'a', b'm', b'p', b'l', b'e', b'.', b'c', b'o', b'm',
    0x01, 0xbb,
];

fn local() -> SocketAddr {
    SocketAddr::new(IpAddr::V4([127, 0, 0, 1]), 1080)
}

/// Feeds bytes in pieces of at most `piece` until the handshake does more than read.
fn feed(handshake: &mut SocksHandshake, bytes: &[u8], piece: usize) -> HandshakeStep {
    let mut rest = bytes;
    loop {
        let count = handshake.wanted().min(piece).min(rest.len());
        let step = handshake.on_bytes(&rest[..count], Some(local()));
        rest = &rest[count..];
        match step {
            HandshakeStep::Read => assert!(!rest.is_empty(), "the handshake wants more"),
            step => return step,
        }
    }
}

fn establish(piece: usize) -> (Vec<u8>, Vec<u8>, Request) {
    let mut handshake = SocksHandshake::new();
    assert_eq!(handshake.read_stage(), HandshakeStage::Greeting);
    let selection = match feed(&mut handshake, &[0x05, 0x01, 0x00], piece) {
        HandshakeStep::Select(bytes) => bytes,
        other => panic!("unexpected step {other:?}"),
    };
    assert_eq!(handshake.read_stage(), HandshakeStage::RequestDecode);
    match feed(&mut handshake, &DOMAIN_REQUEST, piece) {
        HandshakeStep::Grant { reply, request } => (selection, reply, request),
        other => panic!("unexpected step {other:?}"),
    }
}

fn answer(request: &[u8]) -> (Vec<u8>, SocksProtocolError) {
    let mut handshake = SocksHandshake::new();
    feed(&mut handshake, &[5, 1, 0], 100);
    match feed(&mut handshake, request, 100) {
        HandshakeStep::Refuse { reply, error } => (reply, error),
        other => panic!("unexpected step {other:?}"),
    }
}

#[test]
fn establish_socks_stream_returns_standardized_result() {
    for piece in [1, 2, 3, 100] {
        let (greeting_reply, request_reply, established) = establish(piece);
        assert_eq!(greeting_reply, [0x05, 0x00]);
        assert_eq!(request_reply.len(), 10);
        assert_eq!(&request_reply[..2], &[0x05, 0x00]);
        assert_eq!(established.command, Command::Connect);
        assert_eq!(
            established.destination,
            Destination::new(Host::Domain("example.com".into()), 443)
        );
    }
}

#[test]
fn socks_inbound_submits_request_to_sink() {
    let settings = SocksSettings {
        tag: "socks-in".into(),
        kind: "socks".into(),
        listen: "127.0.0.1".into(),
        listen_port: 1080,
    };
    let mut inbound = SocksInbound::new(settings, Ok(())).expect("socks inbound should build");
    assert_eq!(inbound.validate(Ok(())), Ok(()));
    let (_, _, request) = establish(100);
    let peer = SocketAddr::new(IpAddr::V4([127, 0, 0, 1]), 5);
    let ctx = inbound.begin_session(peer, request, Instant { nanos: 3 });
    assert_eq!(
        ctx.meta.destination,
        Destination::new(Host::Domain("example.com".into()), 443)
    );
    assert_eq!(ctx.meta.inbound_tag, "socks-in");
    assert_eq!(ctx.meta.id, 1);
    assert_eq!(
        inbound.validate(Err(ProxyError::config("address"))),
        Err(ProxyError::Config("address".into()))
    );
}

#[test]
fn addresses_of_every_type_are_read() {
    let v4 = decode_request(&[5, 1, 0, 1, 1, 2, 3, 4, 0, 80]).expect("request should decode");
    assert_eq!(
        v4.destination,
        Destination::new(Host::Ip(IpAddr::V4([1, 2, 3, 4])), 80)
    );
    let mut bytes = vec![5, 1, 0, 4];
    bytes.extend(0..16u8);
    bytes.extend_from_slice(&[0xff, 0xfe]);
    let v6 = decode_request(&bytes).expect("request should decode");
    let mut octets = [0u8; 16];
    for (i, octet) in octets.iter_mut().enumerate() {
        *octet = i as u8;
    }
    assert_eq!(
        v6.destination,
        Destination::new(Host::Ip(IpAddr::V6(octets)), 0xfffe)
    );
    assert_eq!(AddressType::from_byte(3), Some(AddressType::Domain));
    assert_eq!(AddressType::from_byte(2), None);
}

#[test]
fn faults_have_replies_of_their_own() {
    let (reply, error) = answer(&[5, 2, 0, 1, 1, 2, 3, 4, 0, 80]);
    assert_eq!(reply, vec![5, 7, 0, 1, 0, 0, 0, 0, 0, 0]);
    assert_eq!(error.stage, HandshakeStage::RequestValidate);
    assert_eq!(error.source, SocksError::UnsupportedCommand(2));
    assert_eq!(error.message(), "request_validate: unsupported command: 0x02");

    let (reply, error) = answer(&[5, 1, 0, 9, 0, 0]);
    assert_eq!(reply[1], 8);
    assert_eq!(error.source, SocksError::UnsupportedAddressType(9));

    let (reply, error) = answer(&[4, 1, 0, 1, 1, 2, 3, 4, 0, 80]);
    assert_eq!(reply[1], 1);
    assert_eq!(error.stage, HandshakeStage::RequestDecode);
    assert!(matches!(error.source, SocksError::Protocol(_)));

    let (reply, error) = answer(&[5, 1, 0, 3, 1, 0xff, 0, 80]);
    assert_eq!(reply[1], 1);
    assert!(matches!(error.source, SocksError::Protocol(_)));
}

#[test]
fn clients_have_to_go_without_authentication() {
    let mut handshake = SocksHandshake::new();
    match feed(&mut handshake, &[5, 2, 1, 2], 100) {
        HandshakeStep::Refuse { reply, error } => {
            assert_eq!(reply, vec![5, 0xff]);
            assert_eq!(error.stage, HandshakeStage::MethodSelection);
            assert_eq!(error.source, SocksError::UnsupportedAuthMethods);
        }
        other => panic!("unexpected step {other:?}"),
    }
    assert_eq!(handshake.wanted(), 0);

    let mut second = SocksHandshake::new();
    let step = feed(&mut second, &[5, 2, 2, 0], 100);
    assert!(matches!(step, HandshakeStep::Select(_)));
    assert_eq!(step.write_stage(), Some(HandshakeStage::MethodSelection));
    let granted = feed(&mut second, &DOMAIN_REQUEST, 100);
    assert_eq!(granted.write_stage(), Some(HandshakeStage::RequestValidate));

    let mut old = SocksHandshake::new();
    match feed(&mut old, &[4, 1, 0], 100) {
        HandshakeStep::Fail(error) => {
            assert_eq!(error.stage, HandshakeStage::Greeting);
            assert_eq!(HandshakeStep::Fail(error).write_stage(), None);
        }
        other => panic!("unexpected step {other:?}"),
    }
}

#[test]
fn short_messages_are_refused() {
    assert!(decode_greeting(&[5]).is_err());
    assert!(decode_greeting(&[5, 2, 0]).is_err());
    assert_eq!(
        decode_greeting(&[5, 2, 0, 1]).expect("greeting").methods,
        vec![0, 1]
    );
    assert!(decode_request(&[5, 1, 0]).is_err());
    assert!(decode_request(&DOMAIN_REQUEST[..17]).is_err());
    assert_eq!(encode_method_selection(9), vec![5, 9]);
}

#[test]
fn replies_carry_the_bound_address() {
    assert_eq!(
        encode_reply(ReplyCode::Succeeded, Some(local())),
        vec![5, 0, 0, 1, 127, 0, 0, 1, 0x04, 0x38]
    );
    let v6 = encode_reply(
        ReplyCode::GeneralFailure,
        Some(SocketAddr::new(IpAddr::V6([7; 16]), 1)),
    );
    assert_eq!(v6.len(), 22);
    assert_eq!(&v6[..5], &[5, 1, 0, 4, 7]);
    assert_eq!(&v6[20..], &[0, 1]);
}

#[test]
fn socks_errors_have_texts() {
    let cases = [
        (SocksError::Io("x".into()), "i/o error: x", "x"),
        (SocksError::Protocol("y".into()), "protocol error: y", "y"),
        (
            SocksError::UnsupportedAuthMethods,
            "no supported authentication method",
            "no supported authentication method",
        ),
        (
            SocksError::UnsupportedCommand(0xab),
            "unsupported command: 0xab",
            "unsupported SOCKS command: 0xab",
        ),
        (
            SocksError::UnsupportedAddressType(5),
            "unsupported address type: 0x05",
            "unsupported SOCKS address type: 0x05",
        ),
    ];
    for (error, text, proxy_text) in cases {
        assert_eq!(error.message(), text);
        let io = matches!(error, SocksError::Io(_));
        let err = error.into_proxy_error();
        assert_eq!(err.message(), proxy_text);
        assert_eq!(err.kind() == ErrorKind::Io, io);
    }
    assert_eq!(
        SocksProtocolError::io(HandshakeStage::Greeting, "eof".into()).message(),
        "greeting: i/o error: eof"
    );
}
