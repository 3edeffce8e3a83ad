//! DNS server configuration and the outcome of server selection.

use vstd::prelude::*;

use crate::dns::headers::HeaderMap;
use crate::session::Dial;
use crate::text::{clone_option_text, clone_texts, option_text, texts};
use crate::types::{Destination, Network};

verus! {

/// The number of responses the cache holds unless configured otherwise.
pub const DEFAULT_DNS_CACHE_CAPACITY: usize = 4096;

/// TLS settings of a client connection.
#[derive(Debug, PartialEq, Eq)]
pub struct TlsClientOptions {
    pub server_name: Option<String>,
}

impl Clone for TlsClientOptions {
    fn clone(&self) -> (r: Self)
        ensures
            option_text(r.server_name) == option_text(self.server_name),
    {
        TlsClientOptions { server_name: clone_option_text(&self.server_name) }
    }
}

/// Settings of a DNS-over-HTTPS server.
#[derive(Debug, PartialEq, Eq)]
pub struct DnsHttpsOptions {
    pub path: String,
    pub headers: HeaderMap,
    pub tls: TlsClientOptions,
}

/// How a DNS server is reached.
#[derive(Debug, PartialEq, Eq)]
pub enum DnsServerTransport {
    Local,
    Udp,
    Tcp,
    Tls(TlsClientOptions),
    Https(DnsHttpsOptions),
    Unsupported(String),
}

/// The label of a transport.
pub open spec fn transport_label(transport: DnsServerTransport) -> Seq<char> {
    match transport {
        DnsServerTransport::Local => "local"@,
        DnsServerTransport::Udp => "udp"@,
        DnsServerTransport::Tcp => "tcp"@,
        DnsServerTransport::Tls(_) => "tls"@,
        DnsServerTransport::Https(_) => "https"@,
        DnsServerTransport::Unsupported(kind) => kind@,
    }
}

impl DnsServerTransport {
    /// The label of the transport; an unsupported one is labelled by its configured kind.
    pub fn as_str(&self) -> (r: &str)
        ensures
            r@ == transport_label(*self),
    {
        match self {
            DnsServerTransport::Local => "local",
            DnsServerTransport::Udp => "udp",
            DnsServerTransport::Tcp => "tcp",
            DnsServerTransport::Tls(_) => "tls",
            DnsServerTransport::Https(_) => "https",
            DnsServerTransport::Unsupported(kind) => kind.as_str(),
        }
    }
}

/// A configured DNS server.
#[derive(Debug, PartialEq, Eq)]
pub struct DnsServer {
    pub tag: String,
    pub transport: DnsServerTransport,
    pub destination: Destination,
    pub dial: Dial,
}

/// The outbound a server is reached through: its detour, the outbound `direct` where none is
/// configured, and none for an unsupported server.
pub open spec fn server_outbound(server: DnsServer) -> Option<Seq<char>> {
    if server.transport is Unsupported {
        None
    } else {
        match server.dial.detour {
            Some(detour) => Some(detour@),
            None => Some("direct"@),
        }
    }
}

impl DnsServer {
    /// The outbound the server is reached through.
    pub fn outbound_tag(&self) -> (r: Option<&str>)
        ensures
            match server_outbound(*self) {
                Some(tag) => r matches Some(t) && t@ == tag,
                None => r is None,
            },
    {
        match &self.transport {
            DnsServerTransport::Unsupported(_) => None,
            _ => match &self.dial.detour {
                Some(detour) => Some(detour.as_str()),
                None => Some("direct"),
            },
        }
    }

    /// The outbound the server is reached through, or the empty text.
    pub fn detour_tag(&self) -> (r: &str)
        ensures
            r@ == match server_outbound(*self) {
                Some(tag) => tag,
                None => ""@,
            },
    {
        match self.outbound_tag() {
            Some(tag) => tag,
            None => "",
        }
    }
}

/// The network over which a server of this transport is queried.
pub open spec fn transport_network(transport: DnsServerTransport) -> Network {
    match transport {
        DnsServerTransport::Local | DnsServerTransport::Udp => Network::Udp,
        _ => Network::Tcp,
    }
}

/// The network over which a server of this transport is queried.
pub fn upstream_network(transport: &DnsServerTransport) -> (r: Network)
    ensures
        r == transport_network(*transport),
{
    match transport {
        DnsServerTransport::Local | DnsServerTransport::Udp => Network::Udp,
        DnsServerTransport::Tcp | DnsServerTransport::Tls(_) | DnsServerTransport::Https(_)
        | DnsServerTransport::Unsupported(_) => Network::Tcp,
    }
}

/// Why a server was selected.
#[derive(Clone, Copy, Debug, PartialEq, Eq, Structural)]
pub enum DnsRouteReason {
    Rule,
    Final,
    ExplicitResolver,
    SafeDefault,
}

/// The label of a reason.
pub open spec fn reason_label(reason: DnsRouteReason) -> Seq<char> {
    match reason {
        DnsRouteReason::Rule => "rule"@,
        DnsRouteReason::Final => "final"@,
        DnsRouteReason::ExplicitResolver => "explicit_resolver"@,
        DnsRouteReason::SafeDefault => "safe_default"@,
    }
}

impl DnsRouteReason {
    /// The label of the reason.
    pub fn as_str(self) -> (r: &'static str)
        ensures
            r@ == reason_label(self),
    {
        match self {
            DnsRouteReason::Rule => "rule",
            DnsRouteReason::Final => "final",
            DnsRouteReason::ExplicitResolver => "explicit_resolver",
            DnsRouteReason::SafeDefault => "safe_default",
        }
    }
}

/// Sends queries for some domains to one server.
#[derive(Debug, PartialEq, Eq)]
pub struct DnsRule {
    pub domain: Vec<String>,
    pub server_tag: String,
    pub disable_cache: bool,
}

/// A rule as mathematical values.
#[verifier::ext_equal]
pub struct RuleView {
    pub domain: Seq<Seq<char>>,
    pub server_tag: Seq<char>,
    pub disable_cache: bool,
}

impl View for DnsRule {
    type V = RuleView;

    open spec fn view(&self) -> RuleView {
        RuleView {
            domain: texts(self.domain@),
            server_tag: self.server_tag@,
            disable_cache: self.disable_cache,
        }
    }
}

/// The servers to ask: the preferred one, all candidates in order of preference, and why.
#[derive(Debug, PartialEq, Eq)]
pub struct DnsSelection {
    pub server_tag: String,
    pub candidate_server_tags: Vec<String>,
    pub reason: DnsRouteReason,
    pub disable_cache: bool,
}

/// A selection as mathematical values.
#[verifier::ext_equal]
pub struct SelectionView {
    pub server_tag: Seq<char>,
    pub candidate_server_tags: Seq<Seq<char>>,
    pub reason: DnsRouteReason,
    pub disable_cache: bool,
}

impl View for DnsSelection {
    type V = SelectionView;

    open spec fn view(&self) -> SelectionView {
        SelectionView {
            server_tag: self.server_tag@,
            candidate_server_tags: texts(self.candidate_server_tags@),
            reason: self.reason,
            disable_cache: self.disable_cache,
        }
    }
}

impl Clone for DnsSelection {
    fn clone(&self) -> (r: Self)
        ensures
            r@ == self@,
    {
        DnsSelection {
            server_tag: self.server_tag.clone(),
            candidate_server_tags: clone_texts(&self.candidate_server_tags),
            reason: self.reason,
            disable_cache: self.disable_cache,
        }
    }
}

/// The configuration of the DNS subsystem.
#[derive(Debug, PartialEq, Eq)]
pub struct DnsRuntimeConfig {
    pub final_server_tag: String,
    pub disable_cache: bool,
    pub cache_capacity: usize,
    pub servers: Vec<DnsServer>,
    pub rules: Vec<DnsRule>,
}

/// A server is reached through its detour, through the outbound `direct` where none is configured,
/// and through none at all where its transport is not supported.
pub proof fn law_server_is_reached_through_its_detour(server: DnsServer)
    ensures
        server.transport is Unsupported ==> server_outbound(server) is None,
        !(server.transport is Unsupported) && server.dial.detour is Some ==> server_outbound(server)
            == Some(server.dial.detour->Some_0@),
        !(server.transport is Unsupported) && server.dial.detour is None ==> server_outbound(server)
            == Some("direct"@),
{
}

/// Datagrams are for the system's servers and for those that are asked by datagrams; every other
/// server is asked over a stream.
pub proof fn law_network_of_a_transport(transport: DnsServerTransport)
    ensures
        transport_network(transport) == Network::Udp <==> transport is Local || transport is Udp,
        transport_network(transport) == Network::Tcp <==> transport is Tcp || transport is Tls
            || transport is Https || transport is Unsupported,
{
}

/// A view shows every field of its value.
pub proof fn law_selection_views_show_everything(rule: DnsRule, selection: DnsSelection)
    ensures
        rule@.domain == texts(rule.domain@),
        rule@.server_tag == rule.server_tag@,
        rule@.disable_cache == rule.disable_cache,
        selection@.server_tag == selection.server_tag@,
        selection@.candidate_server_tags == texts(selection.candidate_server_tags@),
        selection@.reason == selection.reason,
        selection@.disable_cache == selection.disable_cache,
{
}

/// Transports and reasons have their labels; an unsupported transport is labelled by its configured
/// kind.
pub proof fn law_dns_labels(transport: DnsServerTransport, reason: DnsRouteReason)
    ensures
        transport_label(transport) == match transport {
            DnsServerTransport::Local => "local"@,
            DnsServerTransport::Udp => "udp"@,
            DnsServerTransport::Tcp => "tcp"@,
            DnsServerTransport::Tls(_) => "tls"@,
            DnsServerTransport::Https(_) => "https"@,
            DnsServerTransport::Unsupported(kind) => kind@,
        },
        reason_label(reason) == match reason {
            DnsRouteReason::Rule => "rule"@,
            DnsRouteReason::Final => "final"@,
            DnsRouteReason::ExplicitResolver => "explicit_resolver"@,
            DnsRouteReason::SafeDefault => "safe_default"@,
        },
{
}

} // verus!
