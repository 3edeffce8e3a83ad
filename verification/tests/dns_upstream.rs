use veex::dns::dialer::DnsDialer;
use veex::dns::frame::{frame_dns_tcp_message, read_dns_tcp_message};
use veex::dns::headers::HeaderMap;
use veex::dns::request::{bind_client_upstream_request, build_resolution_upstream_request};
use veex::dns::types::{DnsHttpsOptions, DnsServer, DnsServerTransport, TlsClientOptions};
use veex::dns::upstream::{
    build_upstream, finish_exchange, udp_bind_addr, LocalExchange, LocalStep, Reply,
    UnsupportedUpstream, Upstream,
};
use veex::error::ProxyError;
use veex::execution::catalog::OutboundCatalog;
use veex::execution::outbound::OutboundHandle;
use veex::session::{Dial, DnsRequest, DnsResponse, ResolveContext, ResolvePurpose};
use veex::time::{Duration, Instant};
use veex::types::{Destination, Host, IpAddr, Network, SocketAddr};

fn localhost() -> IpAddr {
    IpAddr::V4([127, 0, 0, 1])
}

fn dial(detour: Option<&str>) -> Dial {
    Dial {
        detour: detour.map(str::to_string),
        connect_timeout: None,
        routing_mark: None,
        domain_resolver: None,
    }
}

fn handle(tag: &str) -> OutboundHandle {
    OutboundHandle {
        id: 5,
        tag: tag.to_string(),
    }
}

fn dialer() -> DnsDialer {
    DnsDialer {
        server_tag: "bootstrap".into(),
        dial: dial(Some("direct")),
        outbound: handle("direct"),
    }
}

fn server(transport: DnsServerTransport) -> DnsServer {
    DnsServer {
        tag: "bootstrap".into(),
        transport,
        destination: Destination::new(Host::Ip(localhost()), 53),
        dial: dial(None),
    }
}

fn https() -> DnsHttpsOptions {
    let mut headers = HeaderMap::new();
    headers.insert("a".into(), "b".into());
    DnsHttpsOptions {
        path: "/q".into(),
        headers,
        tls: TlsClientOptions { server_name: None },
    }
}

#[test]
fn resolution_request_keeps_domain_as_control_metadata() {
    let request = build_resolution_upstream_request(
        "resolver.example.com",
        &server(DnsServerTransport::Udp),
        &[0x12, 0x34],
        7,
        &ResolveContext::outbound_dial("proxy", None),
    );

    assert_eq!(
        request.resolution_domain.as_deref(),
        Some("resolver.example.com")
    );
    assert_eq!(
        request
            .resolve_context
            .as_ref()
            .and_then(|context| context.caller_outbound_tag.as_deref()),
        Some("direct")
    );
    assert!(request.buffered_payload.is_empty());
    assert_eq!(request.session_id, Some(7));
    assert_eq!(request.raw_message, vec![0x12, 0x34]);
}

#[test]
fn lowering_only_carries_real_buffered_payload() {
    let request = DnsRequest::new(
        vec![0x12, 0x34],
        Network::Udp,
        "dns-resolver",
        SocketAddr::new(localhost(), 0),
        Destination::new(Host::Ip(localhost()), 53),
    )
    .with_resolution_domain("resolver.example.com");

    let ctx = dialer().build_session_context(
        &request,
        Destination::new(Host::Ip(localhost()), 53),
        Network::Udp,
        Instant { nanos: 0 },
    );

    assert!(ctx.buffered_payload.is_empty());
    assert_eq!(
        request.resolution_domain.as_deref(),
        Some("resolver.example.com")
    );
}

#[test]
fn a_dialed_server_deepens_the_context() {
    let mut configured = server(DnsServerTransport::Tcp);
    configured.dial = dial(Some("proxy"));
    configured.dial.domain_resolver = Some("boot".into());
    let context = ResolveContext::outbound_dial("caller", None).with_depth(2);
    let request = build_resolution_upstream_request("x.example", &configured, &[1], 3, &context);
    let upstream = request.resolve_context.expect("context");
    assert_eq!(upstream.purpose, ResolvePurpose::DnsUpstreamDial);
    assert_eq!(upstream.recursion_depth, 3);
    assert_eq!(upstream.caller_outbound_tag.as_deref(), Some("proxy"));
    assert_eq!(upstream.caller_dns_server_tag.as_deref(), Some("bootstrap"));
    assert_eq!(upstream.explicit_server_tag.as_deref(), Some("boot"));
    assert_eq!(request.network, Network::Tcp);

    let deepest = build_resolution_upstream_request(
        "x.example",
        &configured,
        &[1],
        3,
        &context.with_depth(u8::MAX),
    );
    assert_eq!(deepest.resolve_context.expect("context").recursion_depth, u8::MAX);
}

#[test]
fn a_client_request_is_bound_to_its_server() {
    let request = DnsRequest::new(
        vec![7, 8],
        Network::Udp,
        "dns-in",
        SocketAddr::new(localhost(), 1000),
        Destination::new(Host::Domain("client".into()), 1),
    );
    let bound = bind_client_upstream_request(&request, &server(DnsServerTransport::Tcp), 11);
    assert_eq!(bound.session_id, Some(11));
    assert_eq!(bound.network, Network::Udp);
    assert_eq!(bound.destination, request.destination);
    assert_eq!(bound.raw_message, vec![7, 8]);
    assert_eq!(bound.inbound_tag, "dns-in");
    assert_eq!(bound.resolve_context.expect("context").recursion_depth, 1);
}

#[test]
fn a_dialer_uses_its_detour_or_the_default() {
    let catalog = OutboundCatalog::new(vec![("proxy".into(), handle("proxy"))], handle("fallback"));
    let explicit = DnsDialer::new("s".into(), dial(Some("proxy")), &catalog).expect("dialer");
    assert_eq!(explicit.outbound.tag, "proxy");
    assert_eq!(explicit.detour_tag(), "proxy");
    assert_eq!(explicit.routing_mark(), None);
    let default = DnsDialer::new("s".into(), dial(None), &catalog).expect("dialer");
    assert_eq!(default.outbound.tag, "fallback");
    assert_eq!(default.detour_tag(), "");
    assert_eq!(
        DnsDialer::new("s".into(), dial(Some("x")), &catalog),
        Err(ProxyError::Config("missing outbound tag: x".into()))
    );
}

#[test]
fn upstreams_follow_the_configured_transport() {
    let timeout = Duration::from_millis(1500);
    let build = |transport| build_upstream(&server(transport), Some(dialer()), timeout);
    assert!(matches!(
        build(DnsServerTransport::Local),
        Ok(Upstream::Local(u)) if u.query_timeout == timeout
    ));
    assert!(matches!(build(DnsServerTransport::Udp), Ok(Upstream::Udp(_))));
    assert!(matches!(build(DnsServerTransport::Tcp), Ok(Upstream::Tcp(_))));
    let tls = TlsClientOptions {
        server_name: Some("name".into()),
    };
    match build(DnsServerTransport::Tls(tls)) {
        Ok(Upstream::Tls(u)) => assert_eq!(u.tls.server_name.as_deref(), Some("name")),
        other => panic!("unexpected {other:?}"),
    }
    match build(DnsServerTransport::Https(https())) {
        Ok(Upstream::Https(u)) => {
            assert_eq!(u.options, https());
            assert_eq!(u.server_tag, "bootstrap");
            let text = String::from_utf8(u.request_bytes("127.0.0.1", b"Q")).expect("text");
            assert!(text.starts_with("POST /q HTTP/1.1\r\na: b\r\nHost: 127.0.0.1\r\n"));
            assert!(text.ends_with("\r\n\r\nQ"));
        }
        other => panic!("unexpected {other:?}"),
    }
    match build(DnsServerTransport::Unsupported("quic".into())) {
        Ok(Upstream::Unsupported(u)) => assert_eq!(
            u.exchange_error(),
            ProxyError::Protocol(
                "dns server 'bootstrap' uses unsupported upstream type 'quic'".into()
            )
        ),
        other => panic!("unexpected {other:?}"),
    }
    assert_eq!(
        UnsupportedUpstream {
            server_tag: "a".into(),
            kind: "b".into()
        }
        .exchange_error()
        .message(),
        "dns server 'a' uses unsupported upstream type 'b'"
    );
}

#[test]
fn the_tls_name_goes_before_the_host() {
    let mut options = https();
    options.tls.server_name = Some("dns.example".into());
    match build_upstream(
        &server(DnsServerTransport::Https(options)),
        Some(dialer()),
        Duration::from_secs(1),
    ) {
        Ok(Upstream::Https(u)) => {
            let text = String::from_utf8(u.request_bytes("127.0.0.1", b"")).expect("text");
            assert!(text.contains("Host: dns.example\r\n"));
        }
        other => panic!("unexpected {other:?}"),
    }
}

#[test]
fn a_dialed_upstream_needs_a_dialer() {
    for (transport, label) in [
        (DnsServerTransport::Udp, "udp"),
        (DnsServerTransport::Tcp, "tcp"),
        (DnsServerTransport::Tls(TlsClientOptions { server_name: None }), "tls"),
        (DnsServerTransport::Https(https()), "https"),
    ] {
        assert_eq!(
            build_upstream(&server(transport), None, Duration::from_secs(1)),
            Err(ProxyError::Config(format!(
                "missing dns dialer for server 'bootstrap' with transport '{label}'"
            )))
        );
    }
    let unsupported = server(DnsServerTransport::Unsupported("x".into()));
    assert!(build_upstream(&unsupported, None, Duration::from_secs(1)).is_ok());
}

#[test]
fn replies_become_outcomes() {
    let timeout = Duration::from_millis(2500);
    assert_eq!(
        finish_exchange(Reply::TimedOut, timeout),
        Err(ProxyError::Timeout(
            "dns upstream response timeout after 2500 ms".into()
        ))
    );
    let gone = || ProxyError::Io("gone".into());
    assert_eq!(finish_exchange(Reply::Failed(gone()), timeout), Err(gone()));
    assert_eq!(
        finish_exchange(Reply::Closed, timeout),
        Err(ProxyError::Protocol(
            "dns over tcp upstream closed before sending a response".into()
        ))
    );
    assert_eq!(
        finish_exchange(Reply::Message(vec![1, 2]), timeout),
        Ok(DnsResponse::new(vec![1, 2]))
    );
}

#[test]
fn system_servers_are_asked_in_turn() {
    let timeout = Duration::from_secs(5);
    let second = IpAddr::V6([0; 16]);
    assert_eq!(
        LocalExchange::start(Vec::new(), timeout).map(|_| ()),
        Err(ProxyError::Resolve(
            "system dns resolver did not provide any nameserver".into()
        ))
    );
    let (mut exchange, first) =
        LocalExchange::start(vec![localhost(), second], timeout).expect("servers exist");
    assert_eq!(first, SocketAddr::new(localhost(), 53));
    assert_eq!(
        exchange.on_reply(Reply::TimedOut),
        LocalStep::Ask(SocketAddr::new(second, 53))
    );
    assert_eq!(
        exchange.on_reply(Reply::Failed(ProxyError::resolve("refused"))),
        LocalStep::Finish(Err(ProxyError::Resolve("refused".into())))
    );

    let (mut answered, _) =
        LocalExchange::start(vec![localhost(), second], timeout).expect("servers exist");
    assert_eq!(
        answered.on_reply(Reply::Message(vec![9])),
        LocalStep::Finish(Ok(DnsResponse::new(vec![9])))
    );
}

#[test]
fn datagrams_leave_from_the_same_family() {
    assert_eq!(
        udp_bind_addr(localhost()),
        SocketAddr::new(IpAddr::V4([0; 4]), 0)
    );
    assert_eq!(
        udp_bind_addr(IpAddr::V6([1; 16])),
        SocketAddr::new(IpAddr::V6([0; 16]), 0)
    );
}

#[test]
fn a_framed_message_is_read_back() {
    let message: Vec<u8> = (0..300).map(|n| n as u8).collect();
    let mut stream = frame_dns_tcp_message(&message).expect("message should fit");
    assert_eq!(&stream[..2], &[1, 44]);
    stream.extend_from_slice(b"more");
    assert_eq!(read_dns_tcp_message(&stream), Some(message));
    assert_eq!(read_dns_tcp_message(&stream[..301]), None);
    assert_eq!(read_dns_tcp_message(&[0]), None);
    assert_eq!(read_dns_tcp_message(&[0, 0]), Some(Vec::new()));
    assert!(frame_dns_tcp_message(&vec![0; 65535]).is_ok());
    assert_eq!(
        frame_dns_tcp_message(&vec![0; 65536]),
        Err(ProxyError::Protocol(
            "dns message is too long for a stream".into()
        ))
    );
}
