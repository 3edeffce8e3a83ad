use veex::dns::frame::{frame_dns_tcp_message, read_dns_tcp_message};
use veex::error::{ErrorKind, ProxyError};
use veex::execution::catalog::OutboundCatalog;
use veex::execution::outbound::OutboundHandle;
use veex::execution::relay::{RelayErrorWithStats, RelayStats};
use veex::execution::route::{RouteDecision, RouteFinalAction, RouteReason};
use veex::execution::stream::{RoutedStream, StreamDispatcher, StreamOutcome, StreamStep};
use veex::session::{SessionContext, SessionMeta};
use veex::time::{Duration, Instant};
use veex::types::{Destination, Host, IpAddr, Network, SocketAddr};

fn localhost() -> IpAddr {
    IpAddr::V4([127, 0, 0, 1])
}

fn handle(tag: &str) -> OutboundHandle {
    OutboundHandle {
        id: 1,
        tag: tag.to_string(),
    }
}

fn catalog(tag: &str) -> OutboundCatalog {
    OutboundCatalog::new(vec![(tag.to_string(), handle(tag))], handle(tag))
}

fn session(id: u64, payload: &[u8]) -> SessionContext {
    SessionContext::new(
        SessionMeta {
            id,
            network: Network::Tcp,
            inbound_tag: "socks-in".into(),
            peer: SocketAddr::new(localhost(), 30000),
            destination: Destination::new(Host::Domain("example.com".into()), 443),
            start: Instant { nanos: 1_000 },
        },
        payload.to_vec(),
    )
}

fn open(dispatcher: &StreamDispatcher, ctx: SessionContext, tag: &str) -> RoutedStream {
    match dispatcher.begin_dispatch(ctx, RouteDecision::route(tag, RouteReason::Final)) {
        Ok(StreamStep::Open(routed)) => routed,
        other => panic!("unexpected step {other:?}"),
    }
}

#[test]
fn dispatcher_writes_route_and_passes_state_to_outbound() {
    let dispatcher = StreamDispatcher::new(catalog("proxy"));
    let routed = open(&dispatcher, session(7, b"hello"), "proxy");

    assert_eq!(routed.ctx.route.as_deref(), Some("proxy"));
    assert_eq!(routed.ctx.buffered_payload, b"hello");
    assert_eq!(routed.outbound.tag, "proxy");

    let (summary, outcome) = dispatcher.finish_dispatch(
        routed,
        StreamOutcome::Relayed(Ok(RelayStats {
            bytes_up: 0,
            bytes_down: 0,
        })),
        Instant { nanos: 1_500 },
    );
    assert_eq!(outcome, Ok(()));
    assert_eq!(summary.meta.id, 7);
    assert_eq!(summary.outbound_tag, "proxy");
    assert_eq!((summary.bytes_up, summary.bytes_down), (0, 0));
    assert_eq!(summary.duration, Duration { nanos: 500 });
    assert_eq!(summary.error_kind, None);
}

#[test]
fn dispatcher_preserves_partial_relay_stats_on_failure() {
    let dispatcher = StreamDispatcher::new(catalog("proxy"));
    let routed = open(&dispatcher, session(9, b""), "proxy");
    let (summary, outcome) = dispatcher.finish_dispatch(
        routed,
        StreamOutcome::Relayed(Err(RelayErrorWithStats {
            stats: RelayStats {
                bytes_up: 4,
                bytes_down: 4,
            },
            error: ProxyError::Relay("upstream relay read failed: boom".into()),
            direction: "upstream",
            failure_stage: "read",
            has_half_close: true,
        })),
        Instant { nanos: 0 },
    );

    let err = outcome.expect_err("dispatch should surface relay failure");
    assert_eq!(err.kind(), ErrorKind::Relay);
    assert_eq!((summary.bytes_up, summary.bytes_down), (4, 4));
    assert_eq!(summary.error_kind, Some(ErrorKind::Relay));
    assert_eq!(summary.duration, Duration { nanos: 0 });
}

#[test]
fn dispatcher_hands_tcp_dns_to_executor_without_relay() {
    let dispatcher = StreamDispatcher::with_dns_executor(catalog("direct"), true);
    let query = b"\x00\x01dns-query".to_vec();
    let decision = RouteDecision {
        final_action: RouteFinalAction::HijackDns,
        reason: RouteReason::Rule,
    };
    match dispatcher.begin_dispatch(session(42, b""), decision) {
        Ok(StreamStep::HijackDns(ctx)) => {
            assert_eq!(ctx.meta.id, 42);
            assert_eq!(ctx.route, None);
        }
        other => panic!("unexpected step {other:?}"),
    }
    let mut framed = vec![0, query.len() as u8];
    framed.extend_from_slice(&query);
    assert_eq!(read_dns_tcp_message(&framed), Some(query));
    assert_eq!(
        frame_dns_tcp_message(b"\x12\x34dns-response"),
        Ok(b"\x00\x0e\x12\x34dns-response".to_vec())
    );
}

#[test]
fn faults_before_the_relay_are_told_apart() {
    let dispatcher = StreamDispatcher::new(catalog("proxy"));
    let missing = dispatcher.begin_dispatch(
        session(1, b""),
        RouteDecision::route("gone", RouteReason::Rule),
    );
    assert_eq!(
        missing.map(|_| ()),
        Err(ProxyError::Config("missing outbound tag: gone".into()))
    );
    let hijack = dispatcher.begin_dispatch(
        session(1, b""),
        RouteDecision {
            final_action: RouteFinalAction::HijackDns,
            reason: RouteReason::Rule,
        },
    );
    assert_eq!(
        hijack.map(|_| ()).expect_err("no executor").kind(),
        ErrorKind::Config
    );

    let routed = open(&dispatcher, session(1, b""), "proxy");
    let (summary, outcome) = dispatcher.finish_dispatch(
        routed,
        StreamOutcome::OpenFailed(ProxyError::Dial("refused".into())),
        Instant { nanos: 1_000 },
    );
    assert_eq!(outcome, Err(ProxyError::Dial("refused".into())));
    assert_eq!(summary.error_kind, Some(ErrorKind::Dial));
    assert_eq!((summary.bytes_up, summary.bytes_down), (0, 0));
    assert_eq!(RouteReason::Rule.as_str(), "rule");
    assert_eq!(RouteReason::Final.as_str(), "final");
}
