use veex::error::{ErrorKind, ProxyError};
use veex::inbound::common::{
    destination_from_address, listen_host, validate_listen, validate_override, SessionIds,
};
use veex::inbound::direct::{DirectInbound, DirectSettings, DirectUdpInbound};
use veex::inbound::redirect::{RedirectError, RedirectInbound};
use veex::inbound::serve::ServeLoop;
use veex::inbound::tproxy::{TProxyError, TProxyInbound, TransparentError};
use veex::inbound::transparent;
use veex::inbound::transparent::{socket_family, TransparentSettings};
use veex::time::Instant;
use veex::types::{Destination, Host, IpAddr, Network, SocketAddr};

fn localhost() -> IpAddr {
    IpAddr::V4([127, 0, 0, 1])
}

fn peer() -> SocketAddr {
    SocketAddr::new(localhost(), 40000)
}

fn now() -> Instant {
    Instant { nanos: 77 }
}

fn direct(host: Option<&str>, port: Option<u16>) -> DirectSettings {
    DirectSettings {
        tag: "direct-in".into(),
        kind: "direct".into(),
        listen: "127.0.0.1".into(),
        listen_port: 9000,
        override_host: host.map(|domain| Host::Domain(domain.into())),
        override_port: port,
    }
}

fn direct_destination(host: Option<&str>, port: Option<u16>) -> Destination {
    let mut inbound = DirectInbound::new(direct(host, port), Ok(())).expect("direct inbound should build");
    let local = SocketAddr::new(localhost(), 9000);
    let ctx = inbound.begin_session(peer(), local, now());
    assert_eq!(ctx.meta.id, 1);
    assert_eq!(ctx.meta.inbound_tag, "direct-in");
    assert_eq!(ctx.meta.network, Network::Tcp);
    assert_eq!(ctx.meta.peer, peer());
    assert_eq!(ctx.meta.start, now());
    assert_eq!(inbound.begin_session(peer(), local, now()).meta.id, 2);
    ctx.meta.destination
}

#[test]
fn direct_inbound_submits_listener_destination_without_override() {
    assert_eq!(
        direct_destination(None, None),
        Destination::new(Host::Ip(localhost()), 9000)
    );
}

#[test]
fn direct_inbound_applies_override_address_and_port() {
    assert_eq!(
        direct_destination(Some("example.com"), Some(8443)),
        Destination::new(Host::Domain("example.com".into()), 8443)
    );
}

#[test]
fn direct_inbound_applies_partial_port_override() {
    assert_eq!(
        direct_destination(None, Some(9443)),
        Destination::new(Host::Ip(localhost()), 9443)
    );
}

#[test]
fn direct_inbound_applies_partial_address_override() {
    assert_eq!(
        direct_destination(Some("example.com"), None),
        Destination::new(Host::Domain("example.com".into()), 9000)
    );
}

#[test]
fn direct_udp_inbound_submits_listener_destination_without_override() {
    let inbound =
        DirectUdpInbound::new(direct(None, None), Ok(())).expect("udp direct inbound should build");
    let metadata = inbound.packet_metadata(peer(), SocketAddr::new(localhost(), 9000));
    assert_eq!(
        metadata.destination,
        Destination::new(Host::Ip(localhost()), 9000)
    );
    assert_eq!(metadata.network, Network::Udp);
    assert_eq!(metadata.peer, peer());
}

#[test]
fn direct_udp_inbound_applies_override_address_and_port() {
    let inbound = DirectUdpInbound::new(direct(Some("dns.example"), Some(53)), Ok(()))
        .expect("udp direct inbound should build");
    let metadata = inbound.packet_metadata(peer(), SocketAddr::new(localhost(), 9000));
    assert_eq!(
        metadata.destination,
        Destination::new(Host::Domain("dns.example".into()), 53)
    );
}

#[test]
fn settings_with_faults_are_refused() {
    let message = |result: Result<(), ProxyError>| {
        let err = result.expect_err("settings should be refused");
        assert_eq!(err.kind(), ErrorKind::Config);
        err.message().to_string()
    };
    let check = |tag, kind, listen, port| message(validate_listen("x", tag, kind, listen, port));
    assert_eq!(check(" \t", Some(""), "", 0), "x tag must not be empty");
    assert_eq!(check("t", Some(" "), "", 0), "x type must not be empty");
    assert_eq!(check("t", None, "\u{3000}", 0), "x listen must not be empty");
    assert_eq!(
        check("t", Some("k"), "::", 0),
        "x listen_port must be within 1..=65535"
    );
    assert_eq!(validate_listen("x", "t", Some("k"), "::", 1), Ok(()));
    assert_eq!(
        message(validate_override("x", &Some(Host::Domain(" ".into())), Some(0))),
        "x override_address must not be empty"
    );
    assert_eq!(
        message(validate_override("x", &None, Some(0))),
        "x override_port must be within 1..=65535"
    );
    assert_eq!(
        validate_override("x", &Some(Host::Ip(localhost())), None),
        Ok(())
    );

    assert_eq!(
        message(DirectInbound::new(direct(Some(""), None), Err(ProxyError::config("address"))).map(|_| ())),
        "direct inbound override_address must not be empty"
    );
    assert_eq!(
        message(DirectUdpInbound::new(direct(None, Some(0)), Ok(())).map(|_| ())),
        "direct udp inbound override_port must be within 1..=65535"
    );
    assert_eq!(
        message(DirectUdpInbound::new(direct(None, None), Err("bad".into())).map(|_| ())),
        "listen must be a valid socket address: bad"
    );
    let built =
        DirectInbound::new(direct(None, None), Ok(())).expect("direct inbound should build");
    assert_eq!(built.validate(Ok(())), Ok(()));
    assert_eq!(
        message(DirectInbound::new(direct(None, None), Err(ProxyError::config("address"))).map(|_| ())),
        "address"
    );
}

#[test]
fn brackets_are_taken_off_a_listen_address() {
    assert_eq!(listen_host("::"), "::");
    assert_eq!(listen_host("[::]"), "::");
    assert_eq!(listen_host("127.0.0.1"), "127.0.0.1");
    assert_eq!(listen_host("[]"), "");
    assert_eq!(listen_host("["), "[");
    assert_eq!(listen_host(""), "");
    assert_eq!(listen_host("[::"), "[::");
}

#[test]
fn redirect_inbound_forwards_resolved_destination_to_dispatcher() {
    let mut inbound = RedirectInbound::new("redirect-in", "127.0.0.1", 1040);
    assert_eq!(inbound.validate(), Ok(()));
    assert_eq!(inbound.bind_addr(), "127.0.0.1:1040");
    assert_eq!(inbound.tag(), "redirect-in");
    assert_eq!(inbound.listen(), "127.0.0.1");
    assert_eq!(inbound.listen_port(), 1040);
    let original = || Destination::new(Host::Ip(IpAddr::V4([203, 0, 113, 5])), 443);
    let ctx = inbound
        .begin_session(peer(), Ok(original()), now())
        .expect("session should start");
    assert_eq!(
        ctx.meta.destination,
        Destination::new(Host::Ip(IpAddr::V4([203, 0, 113, 5])), 443)
    );

    let failed = inbound.begin_session(peer(), Err(RedirectError::UnsupportedPlatform), now());
    assert_eq!(
        failed,
        Err(ProxyError::Protocol(
            "redirect inbound is only supported on linux".into()
        ))
    );
    let third = inbound
        .begin_session(peer(), Ok(original()), now())
        .expect("session should start");
    assert_eq!(third.meta.id, 3);
}

#[test]
fn redirect_errors_have_texts() {
    let option = RedirectError::GetSockOpt {
        level: -1,
        option: 80,
        source: "denied".into(),
    };
    assert_eq!(option.message(), "getsockopt(level=-1, option=80) failed: denied");
    assert_eq!(
        RedirectError::UnexpectedSockAddrLen {
            expected: 16,
            actual: 3
        }
        .message(),
        "getsockopt returned sockaddr length 3, expected at least 16"
    );
    assert_eq!(
        RedirectError::UnsupportedAddressFamily(i32::MIN).message(),
        "unsupported sockaddr family returned by getsockopt: -2147483648"
    );
    let io = RedirectError::Io("reset".into());
    assert_eq!(io.message(), "redirect inbound i/o error: reset");
    assert_eq!(io.into_proxy_error(), ProxyError::Io("reset".into()));
    assert_eq!(option.into_proxy_error().kind(), ErrorKind::Protocol);
}

#[test]
fn tproxy_inbound_forwards_resolved_destination_to_dispatcher() {
    let mut inbound = TProxyInbound::new("tproxy-in", "127.0.0.1", 1041);
    assert_eq!(inbound.validate(Ok(())), Ok(()));
    assert_eq!(
        (inbound.tag(), inbound.listen(), inbound.listen_port()),
        ("tproxy-in", "127.0.0.1", 1041)
    );
    let destination = || Destination::new(Host::Ip(IpAddr::V4([203, 0, 113, 5])), 443);
    let ctx = inbound
        .begin_session(peer(), Ok(destination()), now())
        .expect("session should start");
    assert_eq!(
        ctx.meta.destination,
        Destination::new(Host::Ip(IpAddr::V4([203, 0, 113, 5])), 443)
    );
    let failed = inbound.begin_session(peer(), Err(TProxyError::Io("x".into())), now());
    assert_eq!(failed, Err(ProxyError::Io("x".into())));
    let third = inbound
        .begin_session(peer(), Ok(destination()), now())
        .expect("session should start");
    assert_eq!(third.meta.id, 3);
    assert_eq!(
        inbound.validate(Err("no address".into())),
        Err(ProxyError::Config(
            "tproxy inbound listen must be a valid socket address: no address".into()
        ))
    );
}

#[test]
fn tproxy_errors_have_texts() {
    assert_eq!(
        TProxyError::from_transparent(TransparentError::UnsupportedPlatform),
        TProxyError::UnsupportedPlatform
    );
    assert_eq!(
        TProxyError::from_transparent(TransparentError::Io("a".into())).message(),
        "tproxy inbound i/o error: a"
    );
    let other = TProxyError::from_transparent(TransparentError::Other("b".into()));
    assert_eq!(other.message(), "tproxy transparent socket error: b");
    assert_eq!(
        other.into_proxy_error(),
        ProxyError::Protocol("tproxy transparent socket error: b".into())
    );
    assert_eq!(
        TProxyError::UnsupportedPlatform.message(),
        "tproxy inbound is only supported on linux"
    );
}

#[test]
fn tproxy_inbound_forwards_resolved_destination_to_executor() {
    let settings = || TransparentSettings {
        tag: "tproxy-in".into(),
        kind: "tproxy".into(),
        listen: "127.0.0.1".into(),
        listen_port: 1041,
        network: Network::Tcp,
    };
    let mut inbound = transparent::TProxyInbound::new(settings(), Ok(()))
        .expect("tproxy inbound should build");
    let failed = inbound.begin_session(peer(), Err(TProxyError::UnsupportedPlatform), now());
    assert_eq!(failed.expect_err("no destination").kind(), ErrorKind::Protocol);
    let ctx = inbound
        .begin_session(
            peer(),
            Ok(Destination::new(Host::Ip(IpAddr::V4([203, 0, 113, 5])), 443)),
            now(),
        )
        .expect("session should start");
    assert_eq!(
        ctx.meta.destination,
        Destination::new(Host::Ip(IpAddr::V4([203, 0, 113, 5])), 443)
    );
    assert_eq!(ctx.meta.id, 1);

    let refused = transparent::TProxyInbound::new(settings(), Err(ProxyError::config("address")));
    assert_eq!(
        refused.map(|_| ()),
        Err(ProxyError::Config("address".into()))
    );
    let mut unnamed = settings();
    unnamed.kind = String::new();
    assert_eq!(
        transparent::TProxyInbound::new(unnamed, Err(ProxyError::config("address"))).map(|_| ()),
        Err(ProxyError::Config("tproxy inbound type must not be empty".into()))
    );
}

#[test]
fn socket_families_have_labels() {
    assert_eq!(socket_family(None), "unknown");
    assert_eq!(socket_family(Some(peer())), "ipv4");
    assert_eq!(
        socket_family(Some(SocketAddr::new(IpAddr::V6([0; 16]), 1))),
        "ipv6"
    );
    assert_eq!(
        destination_from_address(peer()),
        Destination::new(Host::Ip(localhost()), 40000)
    );
}

#[test]
fn tproxy_inbound_stops_after_shutdown() {
    let mut serve = ServeLoop::new();
    assert!(serve.is_accepting());
    serve.on_shutdown();
    assert!(serve.has_ended());
    assert!(!serve.is_accepting());
}

#[test]
fn a_loop_that_is_told_to_stop_waits_for_its_work() {
    let mut serve = ServeLoop::new();
    assert!(!serve.is_waiting());
    serve.on_accepted();
    serve.on_accepted();
    serve.on_shutdown();
    assert!(serve.is_waiting());
    assert!(!serve.has_ended());
    assert_eq!(serve.on_task_ended(Ok(()), "task"), Ok(()));
    assert!(!serve.has_ended());
    assert_eq!(
        serve.on_task_ended(Err("panicked".into()), "task"),
        Err(ProxyError::Protocol("task: panicked".into()))
    );
    assert!(serve.has_ended());
}

#[test]
fn session_ids_are_consecutive() {
    let mut ids = SessionIds::new();
    assert_eq!((ids.take(), ids.take(), ids.take()), (1, 2, 3));
}
