use veex::error::{ErrorKind, ProxyError};
use veex::execution::relay::{
    finish_after_abort, finish_after_both_completed, finish_after_second, map_join_result,
    on_first_completed, stats_from_results, AfterFirst, AfterRead, Direction, OneWayRelay,
    OneWayRelayError, OneWayRelayResult, RelayProgress, RelayResult, RelayStage, RelayStats,
};

enum ReadStep {
    Data(&'static [u8]),
    Eof,
    Error(&'static str),
    Pending,
}

/// Runs one direction over scripted reads; `None` where it waits for ever.
fn run_direction(
    direction: Direction,
    reads: &[ReadStep],
    shutdown: Result<(), String>,
    ended: &mut bool,
    published: &mut u64,
) -> Option<OneWayRelayResult> {
    let mut relay = OneWayRelay::new(direction);
    for step in reads {
        let read = match step {
            ReadStep::Data(bytes) => Ok(bytes.len()),
            ReadStep::Eof => Ok(0),
            ReadStep::Error(cause) => Err(cause.to_string()),
            ReadStep::Pending => return None,
        };
        match relay.on_read(read) {
            AfterRead::Write(count) => match relay.on_write(count, Ok(())) {
                Ok(transferred) => *published = transferred,
                Err(err) => return Some(Err(err)),
            },
            AfterRead::Shutdown => {
                *ended = true;
                return Some(relay.on_shutdown(shutdown));
            }
            AfterRead::Failed(err) => return Some(Err(err)),
        }
    }
    None
}

/// Relays between two scripted streams. The direction named by `first` ends first.
fn relay(
    first: Direction,
    inbound: &[ReadStep],
    outbound: &[ReadStep],
    outbound_shutdown: Result<(), String>,
) -> RelayResult {
    let mut progress = RelayProgress {
        bytes_up: 0,
        bytes_down: 0,
        upstream_ended: false,
        downstream_ended: false,
    };
    let up = run_direction(
        Direction::Upstream,
        inbound,
        outbound_shutdown,
        &mut progress.upstream_ended,
        &mut progress.bytes_up,
    );
    let down = run_direction(
        Direction::Downstream,
        outbound,
        Ok(()),
        &mut progress.downstream_ended,
        &mut progress.bytes_down,
    );
    let (ended, other) = match first {
        Direction::Upstream => (up, down),
        Direction::Downstream => (down, up),
    };
    let ended = ended.expect("the first direction ends");
    match on_first_completed(first, ended) {
        AfterFirst::WaitForOther(done) => {
            finish_after_second(done, other.expect("the other direction ends"), progress)
        }
        AfterFirst::AbortOther(err) => Err(finish_after_abort(err, progress)),
    }
}

#[test]
fn relay_success_keeps_bidirectional_stats() {
    for first in [Direction::Upstream, Direction::Downstream] {
        let stats = relay(
            first,
            &[ReadStep::Data(b"ping"), ReadStep::Eof],
            &[ReadStep::Data(b"pong"), ReadStep::Eof],
            Ok(()),
        )
        .expect("relay should succeed");

        assert_eq!(stats.bytes_up, 4);
        assert_eq!(stats.bytes_down, 4);
    }
}

#[test]
fn upstream_failure_keeps_partial_stats() {
    for first in [Direction::Upstream, Direction::Downstream] {
        let err = relay(
            first,
            &[ReadStep::Data(b"ping"), ReadStep::Error("boom")],
            &[ReadStep::Data(b"pong"), ReadStep::Eof],
            Ok(()),
        )
        .expect_err("relay should surface the upstream read error");

        assert_eq!(err.stats.bytes_up, 4);
        assert_eq!(err.stats.bytes_down, 4);
        assert_eq!(err.direction, "upstream");
        assert_eq!(err.failure_stage, "read");
        assert!(err.has_half_close);
        assert_eq!(err.error.kind(), ErrorKind::Relay);
    }
}

#[test]
fn downstream_failure_keeps_partial_stats() {
    let err = relay(
        Direction::Downstream,
        &[ReadStep::Data(b"ping"), ReadStep::Eof],
        &[ReadStep::Data(b"pong"), ReadStep::Error("boom")],
        Ok(()),
    )
    .expect_err("relay should surface the downstream read error");

    assert_eq!(err.stats.bytes_up, 4);
    assert_eq!(err.stats.bytes_down, 4);
    assert_eq!(err.direction, "downstream");
    assert_eq!(err.failure_stage, "read");
    assert_eq!(err.error.kind(), ErrorKind::Relay);
}

#[test]
fn relay_shutdown_failure_is_reported_as_relay_stage_failure() {
    let err = relay(
        Direction::Upstream,
        &[ReadStep::Data(b"ping"), ReadStep::Eof],
        &[ReadStep::Eof],
        Err("shutdown boom".into()),
    )
    .expect_err("shutdown failure should surface as relay failure");

    assert_eq!(err.stats.bytes_up, 4);
    assert_eq!(err.stats.bytes_down, 0);
    assert_eq!(err.direction, "upstream");
    assert_eq!(err.failure_stage, "shutdown");
    assert!(err.has_half_close);
    assert_eq!(err.error.kind(), ErrorKind::Relay);
    assert_eq!(
        err.error.message(),
        "upstream relay shutdown failed after eof: shutdown boom"
    );
}

#[test]
fn join_error_is_mapped_to_relay_error() {
    let err = map_join_result(Err("boom".into()), Direction::Upstream, 0)
        .expect_err("join error should map to relay error");

    assert_eq!(err.partial_bytes, 0);
    assert_eq!(err.direction, Direction::Upstream);
    assert_eq!(err.failure_stage.as_str(), "task_join");
    assert_eq!(err.error.kind(), ErrorKind::Relay);
    assert!(err
        .error
        .message()
        .contains("upstream relay task join failed"));

    assert_eq!(map_join_result(Ok(Ok(5)), Direction::Upstream, 3), Ok(5));
}

#[test]
fn relay_failure_does_not_wait_for_pending_peer_direction() {
    let err = relay(
        Direction::Downstream,
        &[ReadStep::Pending],
        &[ReadStep::Error("boom")],
        Ok(()),
    )
    .expect_err("relay should surface the upstream failure");

    assert_eq!(err.stats.bytes_up, 0);
    assert_eq!(err.stats.bytes_down, 0);
    assert_eq!(err.direction, "downstream");
    assert_eq!(err.failure_stage, "read");
    assert!(!err.has_half_close);
    assert_eq!(err.error.kind(), ErrorKind::Relay);
}

#[test]
fn the_end_of_the_failing_direction_is_no_half_close() {
    let err = relay(
        Direction::Upstream,
        &[ReadStep::Data(b"ping"), ReadStep::Eof],
        &[ReadStep::Pending],
        Err("shutdown boom".into()),
    )
    .expect_err("shutdown failure should surface as relay failure");

    assert_eq!(err.direction, "upstream");
    assert_eq!(err.failure_stage, "shutdown");
    assert_eq!((err.stats.bytes_up, err.stats.bytes_down), (4, 0));
    assert!(!err.has_half_close);
}

#[test]
fn a_direction_counts_every_chunk() {
    let mut relay = OneWayRelay::new(Direction::Upstream);
    for count in [3, 1, 16384, 7] {
        relay.on_write(count, Ok(())).expect("write should succeed");
    }
    assert_eq!(relay.transferred, 16395);
}

#[test]
fn bytes_count_once_they_are_written() {
    let mut relay = OneWayRelay::new(Direction::Downstream);
    assert_eq!(relay.on_read(Ok(7)), AfterRead::Write(7));
    assert_eq!(relay.on_write(7, Ok(())), Ok(7));
    assert_eq!(relay.on_read(Ok(2)), AfterRead::Write(2));
    assert_eq!(
        relay.on_write(2, Err("full".into())),
        Err(OneWayRelayError {
            partial_bytes: 7,
            direction: Direction::Downstream,
            failure_stage: RelayStage::Write,
            error: ProxyError::Relay("downstream relay write failed: full".into()),
        })
    );
    assert_eq!(relay.transferred, 7);
    assert_eq!(relay.on_shutdown(Ok(())), Ok(7));
}

#[test]
fn published_progress_is_not_lost() {
    let failure = |direction, partial_bytes| OneWayRelayError {
        partial_bytes,
        direction,
        failure_stage: RelayStage::Read,
        error: ProxyError::relay("x"),
    };
    let progress = RelayProgress {
        bytes_up: 10,
        bytes_down: 20,
        upstream_ended: true,
        downstream_ended: false,
    };
    let aborted = finish_after_abort(failure(Direction::Upstream, 4), progress);
    assert_eq!((aborted.stats.bytes_up, aborted.stats.bytes_down), (10, 20));
    assert!(!aborted.has_half_close);
    let aborted = finish_after_abort(failure(Direction::Downstream, 40), progress);
    assert_eq!((aborted.stats.bytes_up, aborted.stats.bytes_down), (10, 40));
    assert!(aborted.has_half_close);

    let up: OneWayRelayResult = Err(failure(Direction::Upstream, 11));
    let down: OneWayRelayResult = Err(failure(Direction::Downstream, 2));
    assert_eq!(
        stats_from_results(&up, &down, progress),
        RelayStats {
            bytes_up: 11,
            bytes_down: 20
        }
    );
    let both = finish_after_both_completed(up, down, progress).expect_err("both failed");
    assert_eq!(both.direction, "upstream");
    assert_eq!(RelayStats::default().bytes_up, 0);
}
