use veex::error::{ErrorKind, ProxyError};
use veex::execution::catalog::OutboundCatalog;
use veex::execution::outbound::OutboundHandle;
use veex::execution::packet::{
    PacketActivity, PacketAssociation, PacketAssociationCloseReason, PacketDispatcher,
    PacketMetadata, PacketSessionShutdownReason, PacketStep, ReverseEvent, ReverseStep,
};
use veex::execution::route::{RouteDecision, RouteFinalAction, RouteReason};
use veex::session::{SessionContext, SessionMeta};
use veex::time::{Duration, Instant};
use veex::types::{Destination, Host, IpAddr, Network, SocketAddr};

fn localhost() -> IpAddr {
    IpAddr::V4([127, 0, 0, 1])
}

fn at(millis: u64) -> Instant {
    Instant { nanos: 0 }.plus(Duration::from_millis(millis))
}

fn handle(tag: &str) -> OutboundHandle {
    OutboundHandle {
        id: 1,
        tag: tag.to_string(),
    }
}

fn catalog() -> OutboundCatalog {
    OutboundCatalog::new(
        vec![("direct".to_string(), handle("direct"))],
        handle("direct"),
    )
}

fn metadata(inbound: &str, peer_port: u16, port: u16) -> PacketMetadata {
    PacketMetadata::new(
        inbound,
        SocketAddr::new(localhost(), peer_port),
        Destination::new(Host::Ip(localhost()), port),
        Network::Udp,
    )
}

fn session(id: u64, inbound: &str, peer_port: u16, port: u16) -> SessionContext {
    SessionContext::new(
        SessionMeta {
            id,
            network: Network::Udp,
            inbound_tag: inbound.into(),
            peer: SocketAddr::new(localhost(), peer_port),
            destination: Destination::new(Host::Ip(localhost()), port),
            start: at(0),
        },
        Vec::new(),
    )
}

/// Routes the first packet of a flow to the direct outbound.
fn associate(dispatcher: &mut PacketDispatcher, id: u64, peer_port: u16) -> PacketAssociation {
    let step = dispatcher
        .begin_routed(
            session(id, "direct-in", peer_port, 5353),
            RouteDecision::route("direct", RouteReason::Final),
            &metadata("direct-in", peer_port, 5353),
        )
        .expect("packet should dispatch");
    match step {
        PacketStep::OpenSession {
            ctx,
            outbound,
            association,
        } => {
            assert_eq!(ctx.route.as_deref(), Some("direct"));
            assert_eq!(outbound.tag, "direct");
            dispatcher
                .insert_association(association)
                .expect("flow should be new")
        }
        other => panic!("unexpected step {other:?}"),
    }
}

#[test]
fn packet_dispatcher_reuses_association_and_reverses_packets() {
    let mut dispatcher = PacketDispatcher::with_idle_timeout(catalog(), Duration::from_secs(1));
    let association = associate(&mut dispatcher, 1, 53000);
    assert_eq!(association.id, 1);
    assert_eq!(association.outbound_tag, "direct");
    assert_eq!(association.route_reason, RouteReason::Final);
    assert_eq!(association.key, metadata("direct-in", 53000, 5353).association_key());

    let mut activity = PacketActivity::new(at(0));
    match activity.on_event(
        ReverseEvent::Received(Ok(b"pong".to_vec())),
        dispatcher.idle_timeout(),
        at(10),
    ) {
        ReverseStep::WriteBack(payload) => assert_eq!(payload, b"pong"),
        other => panic!("unexpected step {other:?}"),
    }

    let reused = dispatcher
        .dispatch_associated(&metadata("direct-in", 53000, 5353))
        .expect("second packet should reuse association");
    assert_eq!(reused, Some(association.clone()));
    assert_eq!(
        dispatcher.on_sent(&association, &mut activity, Ok(()), at(20)),
        Ok(())
    );
    assert_eq!(activity.last_activity, at(20));
    assert_eq!(dispatcher.association_count(), 1);
}

#[test]
fn packet_dispatcher_closes_idle_association() {
    let mut dispatcher = PacketDispatcher::with_idle_timeout(catalog(), Duration::from_millis(50));
    let association = associate(&mut dispatcher, 1, 53001);
    let mut activity = PacketActivity::new(at(0));

    match activity.next_wait(dispatcher.idle_timeout(), at(0)) {
        ReverseStep::Wait(left) => assert_eq!(left, Duration::from_millis(50)),
        other => panic!("unexpected step {other:?}"),
    }
    match activity.on_event(ReverseEvent::IdleElapsed, dispatcher.idle_timeout(), at(120)) {
        ReverseStep::Close(reason) => {
            assert_eq!(reason, PacketAssociationCloseReason::Idle);
            assert_eq!(reason.label(), "idle");
        }
        other => panic!("unexpected step {other:?}"),
    }
    dispatcher.remove_association(&association.key, association.id);
    assert_eq!(dispatcher.association_count(), 0);
}

#[test]
fn packet_dispatcher_hands_hijack_dns_to_executor_without_association() {
    let dispatcher = PacketDispatcher::with_dns_executor(catalog(), true);
    let step = dispatcher
        .begin_routed(
            session(1, "dns-in", 53053, 53),
            RouteDecision {
                final_action: RouteFinalAction::HijackDns,
                reason: RouteReason::Rule,
            },
            &metadata("dns-in", 53053, 53),
        )
        .expect("dns hijack should succeed");
    assert!(matches!(step, PacketStep::HijackDns { session_id: 1 }));
    assert_eq!(dispatcher.association_count(), 0);
}

#[test]
fn packet_dispatcher_shutdown_closes_active_associations() {
    let mut dispatcher = PacketDispatcher::with_idle_timeout(catalog(), Duration::from_secs(5));
    associate(&mut dispatcher, 1, 53011);
    let mut activity = PacketActivity::new(at(0));

    let closing = dispatcher.shutdown();
    assert_eq!(closing.len(), 1);
    assert_eq!(dispatcher.shutdown_wait(0), Some(Duration::from_millis(10)));
    assert_eq!(dispatcher.shutdown_wait(49), Some(Duration::from_millis(10)));
    assert_eq!(dispatcher.shutdown_wait(50), None);
    activity.shutdown();
    match activity.on_event(ReverseEvent::Notified, dispatcher.idle_timeout(), at(1)) {
        ReverseStep::Close(reason) => {
            assert_eq!(reason, PacketAssociationCloseReason::Shutdown);
            assert_eq!(reason.label(), "shutdown");
            assert!(reason.error().is_none());
        }
        other => panic!("unexpected step {other:?}"),
    }
    for association in closing {
        dispatcher.remove_association(&association.key, association.id);
    }

    assert_eq!(dispatcher.association_count(), 0);
    assert_eq!(dispatcher.shutdown_wait(0), None);
    assert_eq!(
        PacketSessionShutdownReason::DispatcherShutdown.as_str(),
        "dispatcher_shutdown"
    );
}

#[test]
fn packet_dispatcher_forward_send_failure_shuts_down_association() {
    let mut dispatcher = PacketDispatcher::with_idle_timeout(catalog(), Duration::from_secs(5));
    let association = associate(&mut dispatcher, 1, 53012);
    let mut activity = PacketActivity::new(at(0));
    let err = dispatcher
        .on_sent(
            &association,
            &mut activity,
            Err(ProxyError::Dial("udp send init failed".into())),
            at(0),
        )
        .expect_err("forward send failure should surface");
    assert_eq!(err.kind(), ErrorKind::Dial);
    match activity.next_wait(dispatcher.idle_timeout(), at(0)) {
        ReverseStep::Close(reason) => assert_eq!(reason.label(), "shutdown"),
        other => panic!("unexpected step {other:?}"),
    }
    assert_eq!(dispatcher.association_count(), 0);
    assert_eq!(
        PacketSessionShutdownReason::ForwardError.as_str(),
        "forward_error"
    );
}

#[test]
fn packet_dispatcher_reverse_failure_does_not_leak_association() {
    let mut dispatcher = PacketDispatcher::with_idle_timeout(catalog(), Duration::from_secs(5));
    let association = associate(&mut dispatcher, 1, 53013);
    let mut activity = PacketActivity::new(at(0));
    let received = activity.on_event(
        ReverseEvent::Received(Ok(b"pong".to_vec())),
        dispatcher.idle_timeout(),
        at(1),
    );
    assert!(matches!(received, ReverseStep::WriteBack(_)));
    match activity.on_event(
        ReverseEvent::Written(Err(ProxyError::Io("client socket closed".into()))),
        dispatcher.idle_timeout(),
        at(1),
    ) {
        ReverseStep::Close(reason) => {
            assert_eq!(reason.label(), "client_write_error");
            assert_eq!(reason.error().map(|err| err.kind()), Some(ErrorKind::Io));
        }
        other => panic!("unexpected step {other:?}"),
    }
    dispatcher.remove_association(&association.key, association.id);
    assert_eq!(dispatcher.association_count(), 0);
}

#[test]
fn packet_dispatcher_hijack_dns_without_executor_is_a_config_error() {
    let dispatcher = PacketDispatcher::with_dns_executor(catalog(), false);
    let err = dispatcher
        .begin_routed(
            session(1, "dns-in", 53054, 53),
            RouteDecision {
                final_action: RouteFinalAction::HijackDns,
                reason: RouteReason::Rule,
            },
            &metadata("dns-in", 53054, 53),
        )
        .map(|_| ())
        .expect_err("dns hijack without executor should fail");
    assert_eq!(err.kind(), ErrorKind::Config);
    assert_eq!(dispatcher.association_count(), 0);
}

#[test]
fn the_usual_idle_timeout_is_half_a_minute() {
    assert_eq!(
        PacketDispatcher::new(catalog()).idle_timeout(),
        Duration::from_secs(30)
    );
}

#[test]
fn only_datagrams_are_dispatched() {
    let dispatcher = PacketDispatcher::new(catalog());
    let mut stream = metadata("in", 1, 2);
    stream.network = Network::Tcp;
    let expected =
        || ProxyError::Protocol("packet dispatcher only accepts udp packets, got tcp".into());
    assert_eq!(dispatcher.dispatch_associated(&stream), Err(expected()));
    let routed = dispatcher.begin_routed(
        session(1, "in", 1, 2),
        RouteDecision::route("direct", RouteReason::Final),
        &stream,
    );
    assert_eq!(routed.map(|_| ()), Err(expected()));
    let missing = dispatcher.begin_routed(
        session(1, "in", 1, 2),
        RouteDecision::route("gone", RouteReason::Final),
        &metadata("in", 1, 2),
    );
    assert_eq!(
        missing.map(|_| ()),
        Err(ProxyError::Config("missing outbound tag: gone".into()))
    );
}

#[test]
fn flows_are_told_apart_and_stale_ids_remove_nothing() {
    let mut dispatcher = PacketDispatcher::new(catalog());
    let first = associate(&mut dispatcher, 1, 100);
    let second = associate(&mut dispatcher, 2, 200);
    let mut again = first.clone();
    again.id = 9;
    assert_eq!(dispatcher.insert_association(again), Err(first.clone()));

    for other in [
        metadata("other-in", 100, 5353),
        metadata("direct-in", 101, 5353),
        metadata("direct-in", 100, 5354),
    ] {
        assert_eq!(dispatcher.dispatch_associated(&other), Ok(None));
    }

    dispatcher.remove_association(&first.key, 2);
    assert_eq!(dispatcher.association_count(), 2);
    dispatcher.remove_association(&first.key, 1);
    assert_eq!(dispatcher.association(&first.key), None);
    assert_eq!(dispatcher.association(&second.key), Some(second.clone()));
    assert_eq!(dispatcher.shutdown(), vec![second]);
}

#[test]
fn traffic_postpones_the_idle_timeout() {
    let idle = Duration::from_millis(100);
    let mut activity = PacketActivity::new(at(0));
    assert_eq!(activity.remaining_idle(idle, at(40)), Duration::from_millis(60));
    assert!(!activity.is_idle(idle, at(99)));
    assert!(activity.is_idle(idle, at(100)));
    activity.touch(at(90));
    match activity.on_event(ReverseEvent::IdleElapsed, idle, at(100)) {
        ReverseStep::Wait(left) => assert_eq!(left, Duration::from_millis(90)),
        other => panic!("unexpected step {other:?}"),
    }
    match activity.on_event(
        ReverseEvent::Received(Err(ProxyError::protocol("gone"))),
        idle,
        at(100),
    ) {
        ReverseStep::Close(reason) => {
            assert_eq!(reason.label(), "upstream_error");
            assert_eq!(reason.error(), Some(&ProxyError::Protocol("gone".into())));
        }
        other => panic!("unexpected step {other:?}"),
    }
    match activity.on_event(ReverseEvent::Written(Ok(())), idle, at(120)) {
        ReverseStep::Wait(left) => assert_eq!(left, Duration::from_millis(70)),
        other => panic!("unexpected step {other:?}"),
    }
}
