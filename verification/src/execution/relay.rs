//! Relaying bytes between two streams and accounting for them.
//!
//! Each direction reads, writes what it read, and at the end of its input shuts its output down.
//! The byte counts are kept where a direction fails, so a session that breaks off reports what it
//! had transferred.

use vstd::prelude::*;
use vstd::string::*;

use crate::error::{relay_error, ErrorView, ProxyError};

verus! {

/// Byte counts of a relay session.
#[derive(Clone, Copy, Debug, PartialEq, Eq, Structural)]
pub struct RelayStats {
    /// Bytes from the client to the server.
    pub bytes_up: u64,
    /// Bytes from the server to the client.
    pub bytes_down: u64,
}

impl Default for RelayStats {
    fn default() -> (r: Self)
        ensures
            r == (RelayStats { bytes_up: 0, bytes_down: 0 }),
    {
        RelayStats { bytes_up: 0, bytes_down: 0 }
    }
}

/// A direction of a relay session.
#[derive(Clone, Copy, Debug, PartialEq, Eq, Structural)]
pub enum Direction {
    Upstream,
    Downstream,
}

/// The label of a direction.
pub open spec fn direction_label(direction: Direction) -> Seq<char> {
    match direction {
        Direction::Upstream => "upstream"@,
        Direction::Downstream => "downstream"@,
    }
}

/// The stage in which a direction failed.
#[derive(Clone, Copy, Debug, PartialEq, Eq, Structural)]
pub enum RelayStage {
    Read,
    Write,
    Shutdown,
    TaskJoin,
}

/// The label of a stage.
pub open spec fn stage_label(stage: RelayStage) -> Seq<char> {
    match stage {
        RelayStage::Read => "read"@,
        RelayStage::Write => "write"@,
        RelayStage::Shutdown => "shutdown"@,
        RelayStage::TaskJoin => "task_join"@,
    }
}

/// How a failure in a stage is described.
pub open spec fn stage_phrase(stage: RelayStage) -> Seq<char> {
    match stage {
        RelayStage::Read => " relay read failed: "@,
        RelayStage::Write => " relay write failed: "@,
        RelayStage::Shutdown => " relay shutdown failed after eof: "@,
        RelayStage::TaskJoin => " relay task join failed: "@,
    }
}

impl Direction {
    /// The label of the direction.
    pub fn as_str(self) -> (r: &'static str)
        ensures
            r@ == direction_label(self),
    {
        match self {
            Direction::Upstream => "upstream",
            Direction::Downstream => "downstream",
        }
    }
}

impl RelayStage {
    /// The label of the stage.
    pub fn as_str(self) -> (r: &'static str)
        ensures
            r@ == stage_label(self),
    {
        match self {
            RelayStage::Read => "read",
            RelayStage::Write => "write",
            RelayStage::Shutdown => "shutdown",
            RelayStage::TaskJoin => "task_join",
        }
    }

    fn phrase(self) -> (r: &'static str)
        ensures
            r@ == stage_phrase(self),
    {
        match self {
            RelayStage::Read => " relay read failed: ",
            RelayStage::Write => " relay write failed: ",
            RelayStage::Shutdown => " relay shutdown failed after eof: ",
            RelayStage::TaskJoin => " relay task join failed: ",
        }
    }
}

/// A relay that failed, with the bytes it had transferred.
#[derive(Debug, PartialEq, Eq)]
pub struct RelayErrorWithStats {
    pub stats: RelayStats,
    pub error: ProxyError,
    /// The direction that failed.
    pub direction: &'static str,
    /// The stage in which it failed.
    pub failure_stage: &'static str,
    /// Whether the opposite direction was already half-closed when the failure came.
    pub has_half_close: bool,
}

/// The outcome of a relay session.
pub type RelayResult = core::result::Result<RelayStats, RelayErrorWithStats>;

/// A failed relay as mathematical values.
#[verifier::ext_equal]
pub struct RelayErrorView {
    pub stats: RelayStats,
    pub error: ErrorView,
    pub direction: Seq<char>,
    pub failure_stage: Seq<char>,
    pub has_half_close: bool,
}

impl View for RelayErrorWithStats {
    type V = RelayErrorView;

    open spec fn view(&self) -> RelayErrorView {
        RelayErrorView {
            stats: self.stats,
            error: self.error@,
            direction: self.direction@,
            failure_stage: self.failure_stage@,
            has_half_close: self.has_half_close,
        }
    }
}

/// A direction that failed, with the bytes it had transferred.
#[derive(Debug, PartialEq, Eq)]
pub struct OneWayRelayError {
    pub partial_bytes: u64,
    pub direction: Direction,
    pub failure_stage: RelayStage,
    pub error: ProxyError,
}

/// The outcome of one direction: the bytes it transferred.
pub type OneWayRelayResult = core::result::Result<u64, OneWayRelayError>;

/// A failed direction as mathematical values.
#[verifier::ext_equal]
pub struct OneWayErrorView {
    pub partial_bytes: u64,
    pub direction: Direction,
    pub failure_stage: RelayStage,
    pub error: ErrorView,
}

impl View for OneWayRelayError {
    type V = OneWayErrorView;

    open spec fn view(&self) -> OneWayErrorView {
        OneWayErrorView {
            partial_bytes: self.partial_bytes,
            direction: self.direction,
            failure_stage: self.failure_stage,
            error: self.error@,
        }
    }
}

/// The failure of a direction in `stage` for the reason `cause`.
pub open spec fn one_way_failure(
    direction: Direction,
    stage: RelayStage,
    transferred: u64,
    cause: Seq<char>,
) -> OneWayErrorView {
    OneWayErrorView {
        partial_bytes: transferred,
        direction,
        failure_stage: stage,
        error: relay_error(direction_label(direction) + stage_phrase(stage) + cause),
    }
}

fn one_way_error(
    direction: Direction,
    stage: RelayStage,
    transferred: u64,
    cause: &str,
) -> (r: OneWayRelayError)
    ensures
        r@ == one_way_failure(direction, stage, transferred, cause@),
{
    OneWayRelayError {
        partial_bytes: transferred,
        direction,
        failure_stage: stage,
        error: ProxyError::relay(
            direction.as_str().to_owned().concat(stage.phrase()).concat(cause).as_str(),
        ),
    }
}

/// One direction of a relay: what it has transferred so far.
#[derive(Debug)]
pub struct OneWayRelay {
    pub direction: Direction,
    pub transferred: u64,
}

/// What a direction does after a read.
#[derive(Debug, PartialEq, Eq)]
pub enum AfterRead {
    /// Write the bytes that were read.
    Write(usize),
    /// The input has ended: note that this direction is half-closed and shut the output down.
    Shutdown,
    /// The direction failed.
    Failed(OneWayRelayError),
}

impl OneWayRelay {
    /// A direction that has transferred nothing.
    pub fn new(direction: Direction) -> (r: Self)
        ensures
            r == (OneWayRelay { direction, transferred: 0 }),
    {
        OneWayRelay { direction, transferred: 0 }
    }

    /// Takes the outcome of a read: the number of bytes, or why it failed.
    pub fn on_read(&self, read: core::result::Result<usize, String>) -> (r: AfterRead)
        ensures
            match read {
                Ok(0usize) => r is Shutdown,
                Ok(n) => r == AfterRead::Write(n),
                Err(cause) => r matches AfterRead::Failed(err) && err@ == one_way_failure(
                    self.direction,
                    RelayStage::Read,
                    self.transferred,
                    cause@,
                ),
            },
    {
        match read {
            Ok(count) => if count == 0 {
                AfterRead::Shutdown
            } else {
                AfterRead::Write(count)
            },
            Err(cause) => AfterRead::Failed(
                one_way_error(self.direction, RelayStage::Read, self.transferred, cause.as_str()),
            ),
        }
    }

    /// The direction after `count` more bytes were written.
    pub open spec fn after_write(self, count: nat) -> OneWayRelay {
        OneWayRelay { direction: self.direction, transferred: (self.transferred + count) as u64 }
    }

    /// The direction after chunks of these lengths were written, one after the other.
    pub open spec fn after_writes(self, counts: Seq<nat>) -> OneWayRelay
        decreases counts.len(),
    {
        if counts.len() == 0 {
            self
        } else {
            self.after_writes(counts.drop_last()).after_write(counts.last())
        }
    }

    /// Takes the outcome of writing `count` bytes. They count as transferred once they are
    /// written.
    pub fn on_write(
        &mut self,
        count: usize,
        written: core::result::Result<(), String>,
    ) -> (r: core::result::Result<u64, OneWayRelayError>)
        requires
            old(self).transferred + count <= u64::MAX,
        ensures
            final(self).direction == old(self).direction,
            match written {
                Ok(_) => *final(self) == old(self).after_write(count as nat)
                    && final(self).transferred == old(self).transferred + count && r == Ok::<
                    u64,
                    OneWayRelayError,
                >(final(self).transferred),
                Err(cause) => *final(self) == *old(self) && (r matches Err(err) && err@
                    == one_way_failure(
                    old(self).direction,
                    RelayStage::Write,
                    old(self).transferred,
                    cause@,
                )),
            },
    {
        match written {
            Ok(_) => {
                self.transferred = self.transferred + count as u64;
                Ok(self.transferred)
            },
            Err(cause) => Err(
                one_way_error(self.direction, RelayStage::Write, self.transferred, cause.as_str()),
            ),
        }
    }

    /// Takes the outcome of shutting the output down, which ends the direction.
    pub fn on_shutdown(&self, shutdown: core::result::Result<(), String>) -> (r: OneWayRelayResult)
        ensures
            match shutdown {
                Ok(_) => r == Ok::<u64, OneWayRelayError>(self.transferred),
                Err(cause) => r matches Err(err) && err@ == one_way_failure(
                    self.direction,
                    RelayStage::Shutdown,
                    self.transferred,
                    cause@,
                ),
            },
    {
        match shutdown {
            Ok(_) => Ok(self.transferred),
            Err(cause) => Err(
                one_way_error(
                    self.direction,
                    RelayStage::Shutdown,
                    self.transferred,
                    cause.as_str(),
                ),
            ),
        }
    }
}

/// What the two directions have published so far.
#[derive(Clone, Copy, Debug, PartialEq, Eq, Structural)]
pub struct RelayProgress {
    pub bytes_up: u64,
    pub bytes_down: u64,
    /// Whether the upstream direction has come to the end of its input.
    pub upstream_ended: bool,
    /// Whether the downstream direction has come to the end of its input.
    pub downstream_ended: bool,
}

impl RelayProgress {
    /// Whether the direction opposite to `direction` is half-closed.
    pub open spec fn opposite_ended(self, direction: Direction) -> bool {
        match direction {
            Direction::Upstream => self.downstream_ended,
            Direction::Downstream => self.upstream_ended,
        }
    }

    fn has_opposite_ended(&self, direction: Direction) -> (r: bool)
        ensures
            r == self.opposite_ended(direction),
    {
        match direction {
            Direction::Upstream => self.downstream_ended,
            Direction::Downstream => self.upstream_ended,
        }
    }
}

/// The larger of two counts.
pub open spec fn larger(a: u64, b: u64) -> u64 {
    if a >= b {
        a
    } else {
        b
    }
}

fn max_count(a: u64, b: u64) -> (r: u64)
    ensures
        r == larger(a, b),
{
    if a >= b {
        a
    } else {
        b
    }
}

/// The outcome of the task that ran a direction. A task that broke down is a failure of the
/// direction with what it had published.
pub fn map_join_result(
    result: core::result::Result<OneWayRelayResult, String>,
    direction: Direction,
    progress: u64,
) -> (r: OneWayRelayResult)
    ensures
        match result {
            Ok(outcome) => r == outcome,
            Err(cause) => r matches Err(err) && err@ == one_way_failure(
                direction,
                RelayStage::TaskJoin,
                progress,
                cause@,
            ),
        },
{
    match result {
        Ok(outcome) => outcome,
        Err(cause) => Err(
            one_way_error(direction, RelayStage::TaskJoin, progress, cause.as_str()),
        ),
    }
}

/// The bytes that the outcome of a direction stands for.
pub open spec fn transferred_by(outcome: OneWayRelayResult, progress: u64) -> u64 {
    match outcome {
        Ok(bytes) => bytes,
        Err(err) => larger(err.partial_bytes, progress),
    }
}

fn transferred_count(outcome: &OneWayRelayResult, progress: u64) -> (r: u64)
    ensures
        r == transferred_by(*outcome, progress),
{
    match outcome {
        Ok(bytes) => *bytes,
        Err(err) => max_count(err.partial_bytes, progress),
    }
}

/// The byte counts of two directions that have both ended.
pub fn stats_from_results(
    upstream: &OneWayRelayResult,
    downstream: &OneWayRelayResult,
    progress: RelayProgress,
) -> (r: RelayStats)
    ensures
        r == (RelayStats {
            bytes_up: transferred_by(*upstream, progress.bytes_up),
            bytes_down: transferred_by(*downstream, progress.bytes_down),
        }),
{
    RelayStats {
        bytes_up: transferred_count(upstream, progress.bytes_up),
        bytes_down: transferred_count(downstream, progress.bytes_down),
    }
}

/// A relay that failed with `err`, after these byte counts. It tells whether the opposite direction
/// was half-closed.
pub open spec fn relay_failure(
    err: OneWayErrorView,
    stats: RelayStats,
    progress: RelayProgress,
) -> RelayErrorView {
    RelayErrorView {
        stats,
        error: err.error,
        direction: direction_label(err.direction),
        failure_stage: stage_label(err.failure_stage),
        has_half_close: progress.opposite_ended(err.direction),
    }
}

fn relay_error_with_stats(
    err: OneWayRelayError,
    stats: RelayStats,
    progress: RelayProgress,
) -> (r: RelayErrorWithStats)
    ensures
        r@ == relay_failure(err@, stats, progress),
{
    let has_half_close = progress.has_opposite_ended(err.direction);
    RelayErrorWithStats {
        stats,
        error: err.error,
        direction: err.direction.as_str(),
        failure_stage: err.failure_stage.as_str(),
        has_half_close,
    }
}

/// The outcome of a relay whose directions have both ended. Where both failed, the failure of the
/// upstream direction is reported.
pub fn finish_after_both_completed(
    upstream: OneWayRelayResult,
    downstream: OneWayRelayResult,
    progress: RelayProgress,
) -> (r: RelayResult)
    ensures
        ({
            let stats = RelayStats {
                bytes_up: transferred_by(upstream, progress.bytes_up),
                bytes_down: transferred_by(downstream, progress.bytes_down),
            };
            match (upstream, downstream) {
                (Ok(_), Ok(_)) => r == Ok::<RelayStats, RelayErrorWithStats>(stats),
                (Err(err), _) => r matches Err(e) && e@ == relay_failure(
                    err@,
                    stats,
                    progress,
                ),
                (_, Err(err)) => r matches Err(e) && e@ == relay_failure(
                    err@,
                    stats,
                    progress,
                ),
            }
        }),
{
    let stats = stats_from_results(&upstream, &downstream, progress);
    match upstream {
        Err(err) => Err(relay_error_with_stats(err, stats, progress)),
        Ok(_) => match downstream {
            Err(err) => Err(relay_error_with_stats(err, stats, progress)),
            Ok(_) => Ok(stats),
        },
    }
}

/// What a relay does once the first of its directions has ended.
#[derive(Debug)]
pub enum AfterFirst {
    /// Wait for the other direction.
    WaitForOther(FirstDone),
    /// Abort the other direction: the relay has failed.
    AbortOther(OneWayRelayError),
}

/// The direction that ended first, with the bytes it transferred.
#[derive(Debug, PartialEq, Eq)]
pub struct FirstDone {
    pub direction: Direction,
    pub bytes: u64,
}

/// Takes the outcome of the direction that ended first. A failure does not wait for the other
/// direction.
pub fn on_first_completed(direction: Direction, outcome: OneWayRelayResult) -> (r: AfterFirst)
    ensures
        match outcome {
            Ok(bytes) => r == AfterFirst::WaitForOther(FirstDone { direction, bytes }),
            Err(err) => r == AfterFirst::AbortOther(err),
        },
{
    match outcome {
        Ok(bytes) => AfterFirst::WaitForOther(FirstDone { direction, bytes }),
        Err(err) => AfterFirst::AbortOther(err),
    }
}

/// The byte counts of a relay that failed while the other direction was still running.
pub open spec fn stats_after_abort(err: OneWayErrorView, progress: RelayProgress) -> RelayStats {
    match err.direction {
        Direction::Upstream => RelayStats {
            bytes_up: larger(err.partial_bytes, progress.bytes_up),
            bytes_down: progress.bytes_down,
        },
        Direction::Downstream => RelayStats {
            bytes_up: progress.bytes_up,
            bytes_down: larger(err.partial_bytes, progress.bytes_down),
        },
    }
}

/// The outcome of a relay whose first direction failed, once the other was aborted.
pub fn finish_after_abort(err: OneWayRelayError, progress: RelayProgress) -> (r:
    RelayErrorWithStats)
    ensures
        r@ == relay_failure(
            err@,
            stats_after_abort(err@, progress),
            progress,
        ),
{
    let stats = match err.direction {
        Direction::Upstream => RelayStats {
            bytes_up: max_count(err.partial_bytes, progress.bytes_up),
            bytes_down: progress.bytes_down,
        },
        Direction::Downstream => RelayStats {
            bytes_up: progress.bytes_up,
            bytes_down: max_count(err.partial_bytes, progress.bytes_down),
        },
    };
    relay_error_with_stats(err, stats, progress)
}

/// The outcome of a relay whose first direction succeeded, once the other has ended too.
pub fn finish_after_second(
    first: FirstDone,
    second: OneWayRelayResult,
    progress: RelayProgress,
) -> (r: RelayResult)
    ensures
        match (first.direction, second) {
            (Direction::Upstream, Ok(bytes)) => r == Ok::<RelayStats, RelayErrorWithStats>(
                RelayStats { bytes_up: first.bytes, bytes_down: bytes },
            ),
            (Direction::Downstream, Ok(bytes)) => r == Ok::<RelayStats, RelayErrorWithStats>(
                RelayStats { bytes_up: bytes, bytes_down: first.bytes },
            ),
            (Direction::Upstream, Err(err)) => r matches Err(e) && e@ == relay_failure(
                err@,
                RelayStats {
                    bytes_up: first.bytes,
                    bytes_down: larger(err.partial_bytes, progress.bytes_down),
                },
                progress,
            ),
            (Direction::Downstream, Err(err)) => r matches Err(e) && e@ == relay_failure(
                err@,
                RelayStats {
                    bytes_up: larger(err.partial_bytes, progress.bytes_up),
                    bytes_down: first.bytes,
                },
                progress,
            ),
        },
{
    match first.direction {
        Direction::Upstream => finish_after_both_completed(Ok(first.bytes), second, progress),
        Direction::Downstream => finish_after_both_completed(second, Ok(first.bytes), progress),
    }
}

/// A failing relay keeps its counts: neither the bytes that the failed direction had transferred
/// nor what either direction had published are lost.
pub proof fn law_failure_keeps_partial_counts(err: OneWayErrorView, progress: RelayProgress)
    ensures
        stats_after_abort(err, progress).bytes_up >= progress.bytes_up,
        stats_after_abort(err, progress).bytes_down >= progress.bytes_down,
        err.direction is Upstream ==> stats_after_abort(err, progress).bytes_up
            >= err.partial_bytes,
        err.direction is Downstream ==> stats_after_abort(err, progress).bytes_down
            >= err.partial_bytes,
{
}

/// The bytes of chunks of these lengths.
pub open spec fn total(counts: Seq<nat>) -> nat
    decreases counts.len(),
{
    if counts.len() == 0 {
        0
    } else {
        total(counts.drop_last()) + counts.last()
    }
}

/// A direction that has written chunks of given lengths has transferred their sum on top of what it
/// had transferred before; where it starts anew, the sum itself.
pub proof fn law_direction_counts_every_chunk(relay: OneWayRelay, counts: Seq<nat>)
    requires
        relay.transferred + total(counts) <= u64::MAX,
    ensures
        relay.after_writes(counts).transferred == relay.transferred + total(counts),
        relay.after_writes(counts).direction == relay.direction,
    decreases counts.len(),
{
    if counts.len() > 0 {
        law_direction_counts_every_chunk(relay, counts.drop_last());
    }
}

/// A failure tells of the opposite direction alone: that the failing direction had come to the end
/// of its own input does not show.
pub proof fn law_half_close_is_of_the_opposite_direction(
    err: OneWayErrorView,
    stats: RelayStats,
    progress: RelayProgress,
    own_end: bool,
)
    ensures
        err.direction is Upstream ==> relay_failure(
            err,
            stats,
            RelayProgress { upstream_ended: own_end, ..progress },
        ).has_half_close == progress.downstream_ended,
        err.direction is Downstream ==> relay_failure(
            err,
            stats,
            RelayProgress { downstream_ended: own_end, ..progress },
        ).has_half_close == progress.upstream_ended,
{
}

/// Every failure of a direction is a relay error that names the direction and the cause.
pub proof fn law_failures_are_relay_errors(
    direction: Direction,
    stage: RelayStage,
    transferred: u64,
    cause: Seq<char>,
)
    ensures
        one_way_failure(direction, stage, transferred, cause).error.kind
            == crate::error::ErrorKind::Relay,
        one_way_failure(direction, stage, transferred, cause).partial_bytes == transferred,
        direction_label(direction).is_prefix_of(
            one_way_failure(direction, stage, transferred, cause).error.message,
        ),
{
    let text = direction_label(direction) + stage_phrase(stage) + cause;
    assert(text.subrange(0, direction_label(direction).len() as int) =~= direction_label(
        direction,
    ));
}

/// A failure is told in words: the direction, what failed in it, and the cause.
pub proof fn law_failure_is_told_in_words(
    direction: Direction,
    stage: RelayStage,
    transferred: u64,
    cause: Seq<char>,
)
    ensures
        one_way_failure(direction, stage, transferred, cause).direction == direction,
        one_way_failure(direction, stage, transferred, cause).failure_stage == stage,
        one_way_failure(direction, stage, transferred, cause).error.message == match direction {
            Direction::Upstream => "upstream"@,
            Direction::Downstream => "downstream"@,
        } + match stage {
            RelayStage::Read => " relay read failed: "@,
            RelayStage::Write => " relay write failed: "@,
            RelayStage::Shutdown => " relay shutdown failed after eof: "@,
            RelayStage::TaskJoin => " relay task join failed: "@,
        } + cause,
{
}

/// A direction that ended well counts what it says; one that failed counts the larger of what it
/// says and what it had published, and nothing beyond either.
pub proof fn law_direction_counts_what_it_transferred(outcome: OneWayRelayResult, progress: u64)
    ensures
        match outcome {
            Ok(bytes) => transferred_by(outcome, progress) == bytes,
            Err(err) => {
                &&& transferred_by(outcome, progress) >= err.partial_bytes
                &&& transferred_by(outcome, progress) >= progress
                &&& transferred_by(outcome, progress) == err.partial_bytes || transferred_by(
                    outcome,
                    progress,
                ) == progress
            },
        },
{
}

/// A relay that is broken off counts for the direction that failed the larger of what it says and
/// what it had published, and for the other just what that one had published.
pub proof fn law_abort_counts_each_direction(err: OneWayErrorView, progress: RelayProgress)
    ensures
        ({
            let stats = stats_after_abort(err, progress);
            let (own, own_progress, other, other_progress) = match err.direction {
                Direction::Upstream => (
                    stats.bytes_up,
                    progress.bytes_up,
                    stats.bytes_down,
                    progress.bytes_down,
                ),
                Direction::Downstream => (
                    stats.bytes_down,
                    progress.bytes_down,
                    stats.bytes_up,
                    progress.bytes_up,
                ),
            };
            &&& other == other_progress
            &&& own >= err.partial_bytes
            &&& own >= own_progress
            &&& own == err.partial_bytes || own == own_progress
        }),
{
}

/// A failed relay reports the error of the direction that failed, with the byte counts it is given
/// and the names of the direction and of the stage.
pub proof fn law_failed_relay_reports_its_direction(
    err: OneWayErrorView,
    stats: RelayStats,
    progress: RelayProgress,
)
    ensures
        ({
            let report = relay_failure(err, stats, progress);
            &&& report.stats == stats
            &&& report.error == err.error
            &&& report.direction == match err.direction {
                Direction::Upstream => "upstream"@,
                Direction::Downstream => "downstream"@,
            }
            &&& report.failure_stage == match err.failure_stage {
                RelayStage::Read => "read"@,
                RelayStage::Write => "write"@,
                RelayStage::Shutdown => "shutdown"@,
                RelayStage::TaskJoin => "task_join"@,
            }
        }),
{
}

/// The bytes of chunks add up: no chunk counts for nothing or twice.
pub proof fn law_chunks_add_up(first: Seq<nat>, second: Seq<nat>, count: nat)
    ensures
        total(Seq::empty()) == 0,
        total(seq![count]) == count,
        total(first + second) == total(first) + total(second),
    decreases second.len(),
{
    let one = seq![count];
    assert(one.drop_last() =~= Seq::<nat>::empty());
    assert(total(one.drop_last()) == 0);
    if second.len() == 0 {
        assert(first + second =~= first);
    } else {
        law_chunks_add_up(first, second.drop_last(), count);
        assert((first + second).drop_last() =~= first + second.drop_last());
        assert((first + second).last() == second.last());
    }
}

/// A view shows every field of its value.
pub proof fn law_relay_error_views_show_everything(
    failed: RelayErrorWithStats,
    one_way: OneWayRelayError,
)
    ensures
        failed@.stats == failed.stats,
        failed@.error == failed.error@,
        failed@.direction == failed.direction@,
        failed@.failure_stage == failed.failure_stage@,
        failed@.has_half_close == failed.has_half_close,
        one_way@.partial_bytes == one_way.partial_bytes,
        one_way@.direction == one_way.direction,
        one_way@.failure_stage == one_way.failure_stage,
        one_way@.error == one_way.error@,
{
}

} // verus!
