//! Requests to DNS servers.

use vstd::prelude::*;

use crate::dns::types::{server_outbound, transport_network, upstream_network, DnsServer};
use crate::session::{
    client_query_context, plain_request, upstream_dial_context, ContextView, DnsRequest,
    RequestView, ResolveContext, ResolvePurpose,
};
use crate::text::{clone_bytes, clone_option_text, option_text};
use crate::types::{IpAddr, IpView, Network, SocketAddr, SocketView};

verus! {

/// The peer noted on requests the runtime makes for itself: the IPv4 loopback address and no port.
pub open spec fn resolver_peer() -> SocketView {
    SocketView { ip: IpView::V4(seq![127u8, 0u8, 0u8, 1u8]), port: 0 }
}

/// The context in which `server` is dialed on behalf of a resolution in `parent`; a server that is
/// not dialed has none.
pub open spec fn upstream_context(server: DnsServer, parent: ContextView) -> Option<ContextView> {
    match server_outbound(server) {
        Some(outbound) => Some(
            upstream_dial_context(
                parent,
                outbound,
                server.tag@,
                option_text(server.dial.domain_resolver),
            ),
        ),
        None => None,
    }
}

/// A client's request as it goes to `server`.
pub open spec fn client_upstream_request(
    request: RequestView,
    server: DnsServer,
    query_id: u64,
) -> RequestView {
    RequestView {
        session_id: Some(query_id),
        resolve_context: match upstream_context(server, client_query_context()) {
            Some(context) => Some(context),
            None => request.resolve_context,
        },
        ..request
    }
}

/// The request that asks `server` to resolve `domain`.
pub open spec fn resolution_upstream_request(
    domain: Seq<char>,
    server: DnsServer,
    query: Seq<u8>,
    query_id: u64,
    parent: ContextView,
) -> RequestView {
    RequestView {
        session_id: Some(query_id),
        resolution_domain: Some(domain),
        resolve_context: match upstream_context(server, parent) {
            Some(context) => Some(context),
            None => Some(parent),
        },
        ..plain_request(
            query,
            transport_network(server.transport),
            "dns-resolver"@,
            resolver_peer(),
            server.destination@,
        )
    }
}

/// Binds a client's request to the server that is asked.
pub fn bind_client_upstream_request(
    request: &DnsRequest,
    server: &DnsServer,
    query_id: u64,
) -> (r: DnsRequest)
    ensures
        r@ == client_upstream_request(request@, *server, query_id),
{
    let bound = request.clone().with_session_id(query_id);
    match build_upstream_resolve_context(server, &ResolveContext::client_query()) {
        Some(context) => bound.with_resolve_context(context),
        None => bound,
    }
}

/// Builds the request that asks `server` to resolve `domain`.
pub fn build_resolution_upstream_request(
    domain: &str,
    server: &DnsServer,
    query: &[u8],
    query_id: u64,
    parent_context: &ResolveContext,
) -> (r: DnsRequest)
    ensures
        r@ == resolution_upstream_request(domain@, *server, query@, query_id, parent_context@),
{
    let loopback: [u8; 4] = [127, 0, 0, 1];
    assert(loopback@ =~= seq![127u8, 0u8, 0u8, 1u8]);
    let request = DnsRequest::new(
        clone_bytes(query),
        upstream_network(&server.transport),
        "dns-resolver",
        SocketAddr::new(IpAddr::V4(loopback), 0),
        server.destination.clone(),
    ).with_session_id(query_id).with_resolution_domain(domain);
    match build_upstream_resolve_context(server, parent_context) {
        Some(context) => request.with_resolve_context(context),
        None => request.with_resolve_context(parent_context.clone()),
    }
}

/// The context in which `server` is dialed on behalf of a resolution in `parent_context`.
pub fn build_upstream_resolve_context(
    server: &DnsServer,
    parent_context: &ResolveContext,
) -> (r: Option<ResolveContext>)
    ensures
        match upstream_context(*server, parent_context@) {
            Some(context) => r matches Some(c) && c@ == context,
            None => r is None,
        },
{
    match server.outbound_tag() {
        Some(outbound) => Some(
            parent_context.for_dns_upstream_dial(
                outbound.to_owned(),
                server.tag.clone(),
                clone_option_text(&server.dial.domain_resolver),
            ),
        ),
        None => None,
    }
}

/// Each dial of a DNS server goes one level deeper than the resolution it serves, until the depth
/// can no longer be counted.
pub proof fn law_upstream_dial_goes_deeper(server: DnsServer, parent: ContextView)
    requires
        parent.recursion_depth < u8::MAX,
    ensures
        upstream_context(server, parent) matches Some(c) ==> c.recursion_depth
            == parent.recursion_depth + 1 && c.caller_dns_server_tag == Some(server.tag@)
            && c.caller_outbound_tag == server_outbound(server),
{
}

/// A client's message goes to a server as the client sent it: only the session id is set, to that of
/// the query, and the context the server is dialed in, which names the server, the outbound it is
/// reached through and its own resolver. The context of a server that is not dialed stays as it was.
pub proof fn law_client_message_is_passed_on(request: RequestView, server: DnsServer, query_id: u64)
    ensures
        ({
            let sent = client_upstream_request(request, server, query_id);
            &&& sent.raw_message == request.raw_message
            &&& sent.network == request.network
            &&& sent.inbound_tag == request.inbound_tag
            &&& sent.peer == request.peer
            &&& sent.destination == request.destination
            &&& sent.resolution_domain == request.resolution_domain
            &&& sent.buffered_payload == request.buffered_payload
            &&& sent.disable_cache == request.disable_cache
            &&& sent.session_id == Some(query_id)
            &&& server.transport is Unsupported ==> sent.resolve_context == request.resolve_context
            &&& !(server.transport is Unsupported) ==> {
                &&& sent.resolve_context matches Some(context)
                &&& context.purpose == ResolvePurpose::DnsUpstreamDial
                &&& context.caller_dns_server_tag == Some(server.tag@)
                &&& context.caller_outbound_tag == server_outbound(server)
                &&& context.explicit_server_tag == match server.dial.domain_resolver {
                    Some(tag) => Some(tag@),
                    None => None,
                }
                &&& context.recursion_depth == 1
                &&& !context.disable_cache
            }
        }),
{
}

/// A resolution goes to a server as a fresh request: the query that was built, to the server's
/// destination over the network of its transport, from the runtime itself, with the domain noted
/// and under the id of the query. The context the server is dialed in lies one level below the
/// resolution's own and keeps its word on the cache.
pub proof fn law_resolution_is_asked_of_the_server(
    domain: Seq<char>,
    server: DnsServer,
    query: Seq<u8>,
    query_id: u64,
    parent: ContextView,
)
    requires
        parent.recursion_depth < 255,
    ensures
        ({
            let sent = resolution_upstream_request(domain, server, query, query_id, parent);
            &&& sent.raw_message == query
            &&& sent.network == if server.transport is Local || server.transport is Udp {
                Network::Udp
            } else {
                Network::Tcp
            }
            &&& sent.inbound_tag == "dns-resolver"@
            &&& sent.peer.ip == IpView::V4(seq![127u8, 0u8, 0u8, 1u8])
            &&& sent.peer.port == 0
            &&& sent.destination == server.destination@
            &&& sent.session_id == Some(query_id)
            &&& sent.resolution_domain == Some(domain)
            &&& sent.buffered_payload.len() == 0
            &&& !sent.disable_cache
            &&& server.transport is Unsupported ==> sent.resolve_context == Some(parent)
            &&& !(server.transport is Unsupported) ==> {
                &&& sent.resolve_context matches Some(context)
                &&& context.purpose == ResolvePurpose::DnsUpstreamDial
                &&& context.caller_dns_server_tag == Some(server.tag@)
                &&& context.caller_outbound_tag == server_outbound(server)
                &&& context.explicit_server_tag == match server.dial.domain_resolver {
                    Some(tag) => Some(tag@),
                    None => None,
                }
                &&& context.recursion_depth == parent.recursion_depth + 1
                &&& context.disable_cache == parent.disable_cache
            }
        }),
{
}

/// The context in which a server is dialed is made for that server: it names the server, the
/// outbound it is reached through and its own resolver, and keeps the word on the cache of the
/// resolution it serves. A server that is not supported is not dialed and has none.
pub proof fn law_upstream_context_is_of_the_server(server: DnsServer, parent: ContextView)
    ensures
        server.transport is Unsupported <==> upstream_context(server, parent) is None,
        upstream_context(server, parent) matches Some(context) ==> {
            &&& context.purpose == ResolvePurpose::DnsUpstreamDial
            &&& context.caller_dns_server_tag == Some(server.tag@)
            &&& context.caller_outbound_tag == match server.dial.detour {
                Some(detour) => Some(detour@),
                None => Some("direct"@),
            }
            &&& context.explicit_server_tag == match server.dial.domain_resolver {
                Some(tag) => Some(tag@),
                None => None,
            }
            &&& context.disable_cache == parent.disable_cache
        },
{
}

} // verus!
