//! Dispatching stream sessions: the outbound is opened, the streams are relayed, and the session is
//! summed up.

use vstd::prelude::*;

use crate::error::{ErrorKind, ErrorView, ProxyError, Result};
use crate::execution::catalog::{CatalogView, OutboundCatalog};
use crate::execution::outbound::{missing_outbound, OutboundHandle};
use crate::execution::relay::{RelayResult, RelayStats};
use crate::execution::route::{
    no_dns_executor, no_dns_executor_error, RouteDecision, RouteFinalAction, RouteReason,
};
use crate::session::{MetaView, SessionContext, SessionMeta, SessionView};
use crate::time::{Duration, Instant};

verus! {

/// Dispatches stream sessions to outbounds.
#[derive(Debug)]
pub struct StreamDispatcher {
    outbounds: OutboundCatalog,
    has_dns_executor: bool,
}

/// The dispatcher as mathematical values.
#[verifier::ext_equal]
pub struct StreamDispatcherView {
    pub outbounds: CatalogView,
    pub has_dns_executor: bool,
}

impl View for StreamDispatcher {
    type V = StreamDispatcherView;

    closed spec fn view(&self) -> StreamDispatcherView {
        StreamDispatcherView {
            outbounds: self.outbounds@,
            has_dns_executor: self.has_dns_executor,
        }
    }
}

/// A session whose outbound is to be opened.
#[derive(Debug)]
pub struct RoutedStream {
    pub ctx: SessionContext,
    pub outbound: OutboundHandle,
    pub route_reason: RouteReason,
}

/// What is done with a routed session.
#[derive(Debug)]
pub enum StreamStep {
    /// Open a stream through the outbound, then relay.
    Open(RoutedStream),
    /// Answer the DNS queries on the stream; nothing is relayed.
    HijackDns(SessionContext),
}

/// How a session went once its outbound was chosen.
#[derive(Debug)]
pub enum StreamOutcome {
    /// The outbound could not be opened.
    OpenFailed(ProxyError),
    /// The streams were relayed.
    Relayed(RelayResult),
}

/// What is reported of a session that has ended.
#[derive(Debug, PartialEq, Eq)]
pub struct SessionSummary {
    pub meta: SessionMeta,
    pub outbound_tag: String,
    pub route_reason: RouteReason,
    pub bytes_up: u64,
    pub bytes_down: u64,
    pub duration: Duration,
    /// The kind of the error the session ended with; none where it succeeded.
    pub error_kind: Option<ErrorKind>,
}

/// A summary as mathematical values.
#[verifier::ext_equal]
pub struct SummaryView {
    pub meta: MetaView,
    pub outbound_tag: Seq<char>,
    pub route_reason: RouteReason,
    pub bytes_up: u64,
    pub bytes_down: u64,
    pub duration: Duration,
    pub error_kind: Option<ErrorKind>,
}

impl View for SessionSummary {
    type V = SummaryView;

    open spec fn view(&self) -> SummaryView {
        SummaryView {
            meta: self.meta@,
            outbound_tag: self.outbound_tag@,
            route_reason: self.route_reason,
            bytes_up: self.bytes_up,
            bytes_down: self.bytes_down,
            duration: self.duration,
            error_kind: self.error_kind,
        }
    }
}

/// The error a session ended with.
pub open spec fn outcome_error(outcome: StreamOutcome) -> Option<ErrorView> {
    match outcome {
        StreamOutcome::OpenFailed(err) => Some(err@),
        StreamOutcome::Relayed(Ok(_)) => None,
        StreamOutcome::Relayed(Err(err)) => Some(err.error@),
    }
}

/// The bytes a session transferred; a failed relay counts what it had transferred.
pub open spec fn outcome_stats(outcome: StreamOutcome) -> RelayStats {
    match outcome {
        StreamOutcome::OpenFailed(_) => RelayStats { bytes_up: 0, bytes_down: 0 },
        StreamOutcome::Relayed(Ok(stats)) => stats,
        StreamOutcome::Relayed(Err(err)) => err.stats,
    }
}

/// The summary of a session that ended at `now`.
pub open spec fn summary_of(dispatch: RoutedStream, outcome: StreamOutcome, now: Instant) -> SummaryView {
    SummaryView {
        meta: dispatch.ctx@.meta,
        outbound_tag: match dispatch.ctx@.route {
            Some(tag) => tag,
            None => dispatch.outbound@.tag,
        },
        route_reason: dispatch.route_reason,
        bytes_up: outcome_stats(outcome).bytes_up,
        bytes_down: outcome_stats(outcome).bytes_down,
        duration: Duration {
            nanos: if dispatch.ctx@.meta.start.nanos <= now.nanos {
                (now.nanos - dispatch.ctx@.meta.start.nanos) as u128
            } else {
                0
            },
        },
        error_kind: match outcome_error(outcome) {
            Some(e) => Some(e.kind),
            None => None,
        },
    }
}

impl StreamDispatcher {
    /// A dispatcher without a DNS executor.
    pub fn new(outbounds: OutboundCatalog) -> (r: Self)
        ensures
            r@ == (StreamDispatcherView { outbounds: outbounds@, has_dns_executor: false }),
    {
        Self::with_dns_executor(outbounds, false)
    }

    /// A dispatcher, with a DNS executor or without.
    pub fn with_dns_executor(outbounds: OutboundCatalog, has_dns_executor: bool) -> (r: Self)
        ensures
            r@ == (StreamDispatcherView { outbounds: outbounds@, has_dns_executor }),
    {
        StreamDispatcher { outbounds, has_dns_executor }
    }

    /// Decides what is done with a routed session. The route is noted on the session before its
    /// outbound is opened.
    pub fn begin_dispatch(&self, ctx: SessionContext, decision: RouteDecision) -> (r: Result<
        StreamStep,
    >)
        ensures
            match decision.final_action {
                RouteFinalAction::Route(tag) => match self@.outbounds.lookup(tag@) {
                    Some(outbound) => r matches Ok(StreamStep::Open(d)) && d.ctx@ == (
                    SessionView { route: Some(tag@), ..ctx@ }) && d.outbound@ == outbound
                        && d.route_reason == decision.reason,
                    None => r matches Err(err) && err@ == missing_outbound(tag@),
                },
                RouteFinalAction::HijackDns => if self@.has_dns_executor {
                    r matches Ok(StreamStep::HijackDns(c)) && c@ == ctx@
                } else {
                    r matches Err(err) && err@ == no_dns_executor()
                },
            },
    {
        match decision.final_action {
            RouteFinalAction::Route(tag) => {
                let mut ctx = ctx;
                ctx.set_route(tag.clone());
                match self.outbounds.require(tag.as_str()) {
                    Ok(outbound) => Ok(
                        StreamStep::Open(
                            RoutedStream { ctx, outbound, route_reason: decision.reason },
                        ),
                    ),
                    Err(err) => Err(err),
                }
            },
            RouteFinalAction::HijackDns => if self.has_dns_executor {
                Ok(StreamStep::HijackDns(ctx))
            } else {
                Err(no_dns_executor_error())
            },
        }
    }

    /// Sums up a session that has ended at `now` and gives its outcome.
    pub fn finish_dispatch(
        &self,
        dispatch: RoutedStream,
        outcome: StreamOutcome,
        now: Instant,
    ) -> (r: (SessionSummary, Result<()>))
        ensures
            r.0@ == summary_of(dispatch, outcome, now),
            match outcome_error(outcome) {
                Some(e) => r.1 matches Err(err) && err@ == e,
                None => r.1 is Ok,
            },
    {
        let duration = now.saturating_duration_since(dispatch.ctx.meta.start);
        let outbound_tag = match &dispatch.ctx.route {
            Some(tag) => tag.clone(),
            None => dispatch.outbound.tag.clone(),
        };
        let (stats, error) = match outcome {
            StreamOutcome::OpenFailed(err) => (
                RelayStats { bytes_up: 0, bytes_down: 0 },
                Some(err),
            ),
            StreamOutcome::Relayed(result) => match result {
                Ok(stats) => (stats, None),
                Err(err) => (err.stats, Some(err.error)),
            },
        };
        let error_kind = match &error {
            Some(err) => Some(err.kind()),
            None => None,
        };
        let summary = SessionSummary {
            meta: dispatch.ctx.meta,
            outbound_tag,
            route_reason: dispatch.route_reason,
            bytes_up: stats.bytes_up,
            bytes_down: stats.bytes_down,
            duration,
            error_kind,
        };
        match error {
            Some(err) => (summary, Err(err)),
            None => (summary, Ok(())),
        }
    }
}

/// A session that fails while it is relayed is reported with the bytes it had transferred, and with
/// the kind of its error.
pub proof fn law_summary_keeps_partial_counts(
    dispatch: RoutedStream,
    err: crate::execution::relay::RelayErrorWithStats,
    now: Instant,
)
    ensures
        ({
            let summary = summary_of(dispatch, StreamOutcome::Relayed(Err(err)), now);
            summary.bytes_up == err.stats.bytes_up && summary.bytes_down == err.stats.bytes_down
                && summary.error_kind == Some(err.error@.kind)
        }),
{
}

/// The summary of a session tells what became of it: the outbound it was routed to, or the one it
/// was opened through where no route was noted; why it went there; how long it took, which is
/// nothing where the clock runs back; what it transferred; and the kind of its error. A session
/// whose outbound could not be opened has transferred nothing, and one that was relayed to the end
/// has no error.
pub proof fn law_summary_tells_what_became_of_a_session(
    dispatch: RoutedStream,
    outcome: StreamOutcome,
    now: Instant,
)
    ensures
        ({
            let summary = summary_of(dispatch, outcome, now);
            let start = dispatch.ctx@.meta.start;
            &&& summary.meta == dispatch.ctx@.meta
            &&& dispatch.ctx@.route matches Some(tag) ==> summary.outbound_tag == tag
            &&& dispatch.ctx@.route is None ==> summary.outbound_tag == dispatch.outbound@.tag
            &&& summary.route_reason == dispatch.route_reason
            &&& start.nanos <= now.nanos ==> summary.duration.nanos == now.nanos - start.nanos
            &&& start.nanos > now.nanos ==> summary.duration.nanos == 0
            &&& match outcome {
                StreamOutcome::OpenFailed(err) => summary.bytes_up == 0 && summary.bytes_down == 0
                    && summary.error_kind == Some(err@.kind) && outcome_error(outcome) == Some(err@),
                StreamOutcome::Relayed(Ok(stats)) => summary.bytes_up == stats.bytes_up
                    && summary.bytes_down == stats.bytes_down && summary.error_kind is None
                    && outcome_error(outcome) is None,
                StreamOutcome::Relayed(Err(err)) => summary.bytes_up == err.stats.bytes_up
                    && summary.bytes_down == err.stats.bytes_down && summary.error_kind == Some(
                    err.error@.kind,
                ) && outcome_error(outcome) == Some(err.error@),
            }
        }),
{
}

/// A view shows every field of its value.
pub proof fn law_summary_view_shows_everything(summary: SessionSummary)
    ensures
        summary@.meta == summary.meta@,
        summary@.outbound_tag == summary.outbound_tag@,
        summary@.route_reason == summary.route_reason,
        summary@.bytes_up == summary.bytes_up,
        summary@.bytes_down == summary.bytes_down,
        summary@.duration == summary.duration,
        summary@.error_kind == summary.error_kind,
{
}

} // verus!
