//! The outcome of routing a session.

use vstd::prelude::*;

use crate::error::{config_error, ErrorKind, ErrorView, ProxyError};

verus! {

/// Why a route was taken.
#[derive(Clone, Copy, Debug, PartialEq, Eq, Structural)]
pub enum RouteReason {
    Rule,
    Final,
}

/// The label of a reason.
pub open spec fn route_reason_label(reason: RouteReason) -> Seq<char> {
    match reason {
        RouteReason::Rule => "rule"@,
        RouteReason::Final => "final"@,
    }
}

impl RouteReason {
    /// The label of the reason.
    pub fn as_str(self) -> (r: &'static str)
        ensures
            r@ == route_reason_label(self),
    {
        match self {
            RouteReason::Rule => "rule",
            RouteReason::Final => "final",
        }
    }
}

/// What is done with a session.
#[derive(Debug, PartialEq, Eq)]
pub enum RouteFinalAction {
    /// It goes to the outbound with this tag.
    Route(String),
    /// It carries DNS and is answered by the DNS executor.
    HijackDns,
}

/// The outcome of routing a session.
#[derive(Debug, PartialEq, Eq)]
pub struct RouteDecision {
    pub final_action: RouteFinalAction,
    pub reason: RouteReason,
}

impl RouteDecision {
    /// A route to an outbound.
    pub fn route(outbound_tag: &str, reason: RouteReason) -> (r: Self)
        ensures
            r.reason == reason,
            r.final_action matches RouteFinalAction::Route(tag) && tag@ == outbound_tag@,
    {
        RouteDecision { final_action: RouteFinalAction::Route(outbound_tag.to_owned()), reason }
    }
}

/// The error for a session that carries DNS while no DNS executor is configured.
pub open spec fn no_dns_executor() -> ErrorView {
    config_error("route selected 'hijack-dns' but dns executor is not configured"@)
}

/// The error for a session that carries DNS while no DNS executor is configured.
pub fn no_dns_executor_error() -> (r: ProxyError)
    ensures
        r@ == no_dns_executor(),
{
    ProxyError::config("route selected 'hijack-dns' but dns executor is not configured")
}

/// A session that carries DNS while no DNS executor is configured is a configuration error, and the
/// reasons of a route are told apart by their labels.
pub proof fn law_route_texts(reason: RouteReason)
    ensures
        no_dns_executor().kind == ErrorKind::Config,
        no_dns_executor().message
            == "route selected 'hijack-dns' but dns executor is not configured"@,
        route_reason_label(reason) == if reason == RouteReason::Rule {
            "rule"@
        } else {
            "final"@
        },
{
}

} // verus!
