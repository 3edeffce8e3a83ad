//! Sessions, DNS requests and the context a name is resolved in.

use vstd::prelude::*;

use crate::text::{clone_bytes, clone_option_text, option_text};
use crate::time::{Duration, Instant};
use crate::types::{Destination, DestinationView, Network, SocketAddr, SocketView};

verus! {

/// How an outbound connection is dialed.
#[derive(Debug, PartialEq, Eq)]
pub struct Dial {
    pub detour: Option<String>,
    pub connect_timeout: Option<Duration>,
    pub routing_mark: Option<u32>,
    pub domain_resolver: Option<String>,
}

/// Dial settings as mathematical values.
#[verifier::ext_equal]
pub struct DialView {
    pub detour: Option<Seq<char>>,
    pub connect_timeout: Option<Duration>,
    pub routing_mark: Option<u32>,
    pub domain_resolver: Option<Seq<char>>,
}

impl View for Dial {
    type V = DialView;

    open spec fn view(&self) -> DialView {
        DialView {
            detour: option_text(self.detour),
            connect_timeout: self.connect_timeout,
            routing_mark: self.routing_mark,
            domain_resolver: option_text(self.domain_resolver),
        }
    }
}

impl Default for Dial {
    fn default() -> (r: Self)
        ensures
            r@ == (DialView {
                detour: None,
                connect_timeout: None,
                routing_mark: None,
                domain_resolver: None,
            }),
    {
        Dial { detour: None, connect_timeout: None, routing_mark: None, domain_resolver: None }
    }
}

impl Clone for Dial {
    fn clone(&self) -> (r: Self)
        ensures
            r@ == self@,
    {
        Dial {
            detour: clone_option_text(&self.detour),
            connect_timeout: self.connect_timeout,
            routing_mark: self.routing_mark,
            domain_resolver: clone_option_text(&self.domain_resolver),
        }
    }
}

/// Why a name is resolved.
#[derive(Clone, Copy, Debug, PartialEq, Eq, Structural)]
pub enum ResolvePurpose {
    /// A client asked.
    ClientQuery,
    /// An outbound dials a domain.
    OutboundDial,
    /// A DNS server itself is dialed by its domain.
    DnsUpstreamDial,
}

/// The context a name is resolved in.
#[derive(Debug, PartialEq, Eq)]
pub struct ResolveContext {
    pub purpose: ResolvePurpose,
    pub caller_outbound_tag: Option<String>,
    pub caller_dns_server_tag: Option<String>,
    pub explicit_server_tag: Option<String>,
    pub disable_cache: bool,
    pub recursion_depth: u8,
}

/// A resolve context as mathematical values.
#[verifier::ext_equal]
pub struct ContextView {
    pub purpose: ResolvePurpose,
    pub caller_outbound_tag: Option<Seq<char>>,
    pub caller_dns_server_tag: Option<Seq<char>>,
    pub explicit_server_tag: Option<Seq<char>>,
    pub disable_cache: bool,
    pub recursion_depth: u8,
}

impl View for ResolveContext {
    type V = ContextView;

    open spec fn view(&self) -> ContextView {
        ContextView {
            purpose: self.purpose,
            caller_outbound_tag: option_text(self.caller_outbound_tag),
            caller_dns_server_tag: option_text(self.caller_dns_server_tag),
            explicit_server_tag: option_text(self.explicit_server_tag),
            disable_cache: self.disable_cache,
            recursion_depth: self.recursion_depth,
        }
    }
}

impl Clone for ResolveContext {
    fn clone(&self) -> (r: Self)
        ensures
            r@ == self@,
    {
        ResolveContext {
            purpose: self.purpose,
            caller_outbound_tag: clone_option_text(&self.caller_outbound_tag),
            caller_dns_server_tag: clone_option_text(&self.caller_dns_server_tag),
            explicit_server_tag: clone_option_text(&self.explicit_server_tag),
            disable_cache: self.disable_cache,
            recursion_depth: self.recursion_depth,
        }
    }
}

/// The context of a client's query.
pub open spec fn client_query_context() -> ContextView {
    ContextView {
        purpose: ResolvePurpose::ClientQuery,
        caller_outbound_tag: None,
        caller_dns_server_tag: None,
        explicit_server_tag: None,
        disable_cache: false,
        recursion_depth: 0,
    }
}

/// The context in which the DNS server `server_tag`, reached through `outbound_tag`, is dialed on
/// behalf of a resolution in `parent`: one level deeper, with the server's own resolver.
pub open spec fn upstream_dial_context(
    parent: ContextView,
    outbound_tag: Seq<char>,
    server_tag: Seq<char>,
    resolver: Option<Seq<char>>,
) -> ContextView {
    ContextView {
        purpose: ResolvePurpose::DnsUpstreamDial,
        caller_outbound_tag: Some(outbound_tag),
        caller_dns_server_tag: Some(server_tag),
        explicit_server_tag: resolver,
        disable_cache: parent.disable_cache,
        recursion_depth: if parent.recursion_depth == u8::MAX {
            u8::MAX
        } else {
            (parent.recursion_depth + 1) as u8
        },
    }
}

impl ResolveContext {
    /// The context of a client's query.
    pub fn client_query() -> (r: Self)
        ensures
            r@ == client_query_context(),
    {
        ResolveContext {
            purpose: ResolvePurpose::ClientQuery,
            caller_outbound_tag: None,
            caller_dns_server_tag: None,
            explicit_server_tag: None,
            disable_cache: false,
            recursion_depth: 0,
        }
    }

    /// The context of an outbound that dials a domain.
    pub fn outbound_dial(outbound_tag: &str, explicit_server_tag: Option<String>) -> (r: Self)
        ensures
            r@ == (ContextView {
                purpose: ResolvePurpose::OutboundDial,
                caller_outbound_tag: Some(outbound_tag@),
                caller_dns_server_tag: None,
                explicit_server_tag: option_text(explicit_server_tag),
                disable_cache: false,
                recursion_depth: 0,
            }),
    {
        ResolveContext {
            purpose: ResolvePurpose::OutboundDial,
            caller_outbound_tag: Some(outbound_tag.to_owned()),
            caller_dns_server_tag: None,
            explicit_server_tag,
            disable_cache: false,
            recursion_depth: 0,
        }
    }

    /// The context with the cache switched off or on.
    pub fn with_disable_cache(self, disable_cache: bool) -> (r: Self)
        ensures
            r@ == (ContextView { disable_cache, ..self@ }),
    {
        ResolveContext { disable_cache, ..self }
    }

    /// The context at another recursion depth.
    pub fn with_depth(self, recursion_depth: u8) -> (r: Self)
        ensures
            r@ == (ContextView { recursion_depth, ..self@ }),
    {
        ResolveContext { recursion_depth, ..self }
    }

    /// The context in which a DNS server is dialed on behalf of a resolution in this context.
    pub fn for_dns_upstream_dial(
        &self,
        outbound_tag: String,
        dns_server_tag: String,
        explicit_server_tag: Option<String>,
    ) -> (r: Self)
        ensures
            r@ == upstream_dial_context(
                self@,
                outbound_tag@,
                dns_server_tag@,
                option_text(explicit_server_tag),
            ),
    {
        ResolveContext {
            purpose: ResolvePurpose::DnsUpstreamDial,
            caller_outbound_tag: Some(outbound_tag),
            caller_dns_server_tag: Some(dns_server_tag),
            explicit_server_tag,
            disable_cache: self.disable_cache,
            recursion_depth: self.recursion_depth.saturating_add(1),
        }
    }
}

/// A DNS message to be answered, with the session it belongs to.
#[derive(Debug, PartialEq, Eq)]
pub struct DnsRequest {
    pub raw_message: Vec<u8>,
    pub network: Network,
    pub inbound_tag: String,
    pub peer: SocketAddr,
    pub destination: Destination,
    pub session_id: Option<u64>,
    pub resolution_domain: Option<String>,
    pub resolve_context: Option<ResolveContext>,
    pub buffered_payload: Vec<u8>,
    pub disable_cache: bool,
}

/// A DNS request as mathematical values.
#[verifier::ext_equal]
pub struct RequestView {
    pub raw_message: Seq<u8>,
    pub network: Network,
    pub inbound_tag: Seq<char>,
    pub peer: SocketView,
    pub destination: DestinationView,
    pub session_id: Option<u64>,
    pub resolution_domain: Option<Seq<char>>,
    pub resolve_context: Option<ContextView>,
    pub buffered_payload: Seq<u8>,
    pub disable_cache: bool,
}

/// An optional context as mathematical values.
pub open spec fn option_context(context: Option<ResolveContext>) -> Option<ContextView> {
    match context {
        Some(context) => Some(context@),
        None => None,
    }
}

impl View for DnsRequest {
    type V = RequestView;

    open spec fn view(&self) -> RequestView {
        RequestView {
            raw_message: self.raw_message@,
            network: self.network,
            inbound_tag: self.inbound_tag@,
            peer: self.peer@,
            destination: self.destination@,
            session_id: self.session_id,
            resolution_domain: option_text(self.resolution_domain),
            resolve_context: option_context(self.resolve_context),
            buffered_payload: self.buffered_payload@,
            disable_cache: self.disable_cache,
        }
    }
}

/// A copy of an optional context.
pub fn clone_option_context(context: &Option<ResolveContext>) -> (r: Option<ResolveContext>)
    ensures
        option_context(r) == option_context(*context),
{
    match context {
        Some(context) => Some(context.clone()),
        None => None,
    }
}

impl Clone for DnsRequest {
    fn clone(&self) -> (r: Self)
        ensures
            r@ == self@,
    {
        DnsRequest {
            raw_message: clone_bytes(self.raw_message.as_slice()),
            network: self.network,
            inbound_tag: self.inbound_tag.clone(),
            peer: self.peer,
            destination: self.destination.clone(),
            session_id: self.session_id,
            resolution_domain: clone_option_text(&self.resolution_domain),
            resolve_context: clone_option_context(&self.resolve_context),
            buffered_payload: clone_bytes(self.buffered_payload.as_slice()),
            disable_cache: self.disable_cache,
        }
    }
}

/// A request that carries a message and nothing else.
pub open spec fn plain_request(
    raw_message: Seq<u8>,
    network: Network,
    inbound_tag: Seq<char>,
    peer: SocketView,
    destination: DestinationView,
) -> RequestView {
    RequestView {
        raw_message,
        network,
        inbound_tag,
        peer,
        destination,
        session_id: None,
        resolution_domain: None,
        resolve_context: None,
        buffered_payload: seq![],
        disable_cache: false,
    }
}

impl DnsRequest {
    /// A request that carries a message and nothing else.
    pub fn new(
        raw_message: Vec<u8>,
        network: Network,
        inbound_tag: &str,
        peer: SocketAddr,
        destination: Destination,
    ) -> (r: Self)
        ensures
            r@ == plain_request(raw_message@, network, inbound_tag@, peer@, destination@),
    {
        let r = DnsRequest {
            raw_message,
            network,
            inbound_tag: inbound_tag.to_owned(),
            peer,
            destination,
            session_id: None,
            resolution_domain: None,
            resolve_context: None,
            buffered_payload: Vec::new(),
            disable_cache: false,
        };
        assert(r@.buffered_payload =~= seq![]);
        r
    }

    /// The request as part of a session.
    pub fn with_session_id(self, session_id: u64) -> (r: Self)
        ensures
            r@ == (RequestView { session_id: Some(session_id), ..self@ }),
    {
        DnsRequest { session_id: Some(session_id), ..self }
    }

    /// The request with the domain it resolves noted beside it.
    pub fn with_resolution_domain(self, domain: &str) -> (r: Self)
        ensures
            r@ == (RequestView { resolution_domain: Some(domain@), ..self@ }),
    {
        DnsRequest { resolution_domain: Some(domain.to_owned()), ..self }
    }

    /// The request with the context its server is dialed in.
    pub fn with_resolve_context(self, context: ResolveContext) -> (r: Self)
        ensures
            r@ == (RequestView { resolve_context: Some(context@), ..self@ }),
    {
        DnsRequest { resolve_context: Some(context), ..self }
    }

    /// The request with the cache switched off or on.
    pub fn with_disable_cache(self, disable_cache: bool) -> (r: Self)
        ensures
            r@ == (RequestView { disable_cache, ..self@ }),
    {
        DnsRequest { disable_cache, ..self }
    }
}

/// A DNS message that answers a request.
#[derive(Debug, PartialEq, Eq)]
pub struct DnsResponse {
    pub raw_message: Vec<u8>,
}

impl DnsResponse {
    /// A response with the message `raw_message`.
    pub fn new(raw_message: Vec<u8>) -> (r: Self)
        ensures
            r.raw_message@ == raw_message@,
    {
        DnsResponse { raw_message }
    }
}

impl Clone for DnsResponse {
    fn clone(&self) -> (r: Self)
        ensures
            r.raw_message@ == self.raw_message@,
    {
        DnsResponse { raw_message: clone_bytes(self.raw_message.as_slice()) }
    }
}

/// What is known of a session when it starts.
#[derive(Debug, PartialEq, Eq)]
pub struct SessionMeta {
    pub id: u64,
    pub network: Network,
    pub inbound_tag: String,
    pub peer: SocketAddr,
    pub destination: Destination,
    pub start: Instant,
}

/// The start of a session as mathematical values.
#[verifier::ext_equal]
pub struct MetaView {
    pub id: u64,
    pub network: Network,
    pub inbound_tag: Seq<char>,
    pub peer: SocketView,
    pub destination: DestinationView,
    pub start: Instant,
}

impl View for SessionMeta {
    type V = MetaView;

    open spec fn view(&self) -> MetaView {
        MetaView {
            id: self.id,
            network: self.network,
            inbound_tag: self.inbound_tag@,
            peer: self.peer@,
            destination: self.destination@,
            start: self.start,
        }
    }
}

impl Clone for SessionMeta {
    fn clone(&self) -> (r: Self)
        ensures
            r@ == self@,
    {
        SessionMeta {
            id: self.id,
            network: self.network,
            inbound_tag: self.inbound_tag.clone(),
            peer: self.peer,
            destination: self.destination.clone(),
            start: self.start,
        }
    }
}

/// A session on its way through the runtime.
#[derive(Debug, PartialEq, Eq)]
pub struct SessionContext {
    pub meta: SessionMeta,
    pub buffered_payload: Vec<u8>,
    pub route: Option<String>,
    pub resolve_context: Option<ResolveContext>,
}

/// A session as mathematical values.
#[verifier::ext_equal]
pub struct SessionView {
    pub meta: MetaView,
    pub buffered_payload: Seq<u8>,
    pub route: Option<Seq<char>>,
    pub resolve_context: Option<ContextView>,
}

impl View for SessionContext {
    type V = SessionView;

    open spec fn view(&self) -> SessionView {
        SessionView {
            meta: self.meta@,
            buffered_payload: self.buffered_payload@,
            route: option_text(self.route),
            resolve_context: option_context(self.resolve_context),
        }
    }
}

impl Clone for SessionContext {
    fn clone(&self) -> (r: Self)
        ensures
            r@ == self@,
    {
        SessionContext {
            meta: self.meta.clone(),
            buffered_payload: clone_bytes(self.buffered_payload.as_slice()),
            route: clone_option_text(&self.route),
            resolve_context: clone_option_context(&self.resolve_context),
        }
    }
}

impl SessionContext {
    /// A session that is not routed yet.
    pub fn new(meta: SessionMeta, buffered_payload: Vec<u8>) -> (r: Self)
        ensures
            r@ == (SessionView {
                meta: meta@,
                buffered_payload: buffered_payload@,
                route: None,
                resolve_context: None,
            }),
    {
        SessionContext { meta, buffered_payload, route: None, resolve_context: None }
    }

    /// Notes the outbound the session was routed to.
    pub fn set_route(&mut self, outbound_tag: String)
        ensures
            final(self)@ == (SessionView { route: Some(outbound_tag@), ..old(self)@ }),
    {
        self.route = Some(outbound_tag);
    }

    /// Notes the context in which names are resolved for the session.
    pub fn set_resolve_context(&mut self, context: Option<ResolveContext>)
        ensures
            final(self)@ == (SessionView {
                resolve_context: option_context(context),
                ..old(self)@
            }),
    {
        self.resolve_context = context;
    }
}

/// A DNS server is dialed in a context of its own: it names the server and the outbound it is
/// reached through, so that neither is used to resolve the server's name, and the resolver that is
/// configured for the server. Of the resolution it serves it keeps the word on the cache and goes
/// one level deeper.
pub proof fn law_dial_of_a_dns_server(
    parent: ContextView,
    outbound_tag: Seq<char>,
    server_tag: Seq<char>,
    resolver: Option<Seq<char>>,
)
    ensures
        ({
            let context = upstream_dial_context(parent, outbound_tag, server_tag, resolver);
            &&& context.purpose == ResolvePurpose::DnsUpstreamDial
            &&& context.caller_outbound_tag == Some(outbound_tag)
            &&& context.caller_dns_server_tag == Some(server_tag)
            &&& context.explicit_server_tag == resolver
            &&& context.disable_cache == parent.disable_cache
            &&& parent.recursion_depth < 255 ==> context.recursion_depth == parent.recursion_depth + 1
            &&& parent.recursion_depth == 255 ==> context.recursion_depth == 255
        }),
{
}

/// A client's query starts at the top: nothing calls it, nothing is asked for explicitly, and the
/// cache may be used.
pub proof fn law_client_query_starts_at_the_top()
    ensures
        client_query_context().purpose == ResolvePurpose::ClientQuery,
        client_query_context().caller_outbound_tag is None,
        client_query_context().caller_dns_server_tag is None,
        client_query_context().explicit_server_tag is None,
        !client_query_context().disable_cache,
        client_query_context().recursion_depth == 0,
{
}

/// A plain request carries what it was made of and nothing else.
pub proof fn law_plain_request_carries_its_message(
    raw_message: Seq<u8>,
    network: Network,
    inbound_tag: Seq<char>,
    peer: SocketView,
    destination: DestinationView,
)
    ensures
        ({
            let request = plain_request(raw_message, network, inbound_tag, peer, destination);
            &&& request.raw_message == raw_message
            &&& request.network == network
            &&& request.inbound_tag == inbound_tag
            &&& request.peer == peer
            &&& request.destination == destination
            &&& request.session_id is None
            &&& request.resolution_domain is None
            &&& request.resolve_context is None
            &&& request.buffered_payload.len() == 0
            &&& !request.disable_cache
        }),
{
}

/// A view shows every field of its value.
pub proof fn law_dial_and_context_views_show_everything(dial: Dial, context: ResolveContext)
    ensures
        dial@.detour == option_text(dial.detour),
        dial@.connect_timeout == dial.connect_timeout,
        dial@.routing_mark == dial.routing_mark,
        dial@.domain_resolver == option_text(dial.domain_resolver),
        context@.purpose == context.purpose,
        context@.caller_outbound_tag == option_text(context.caller_outbound_tag),
        context@.caller_dns_server_tag == option_text(context.caller_dns_server_tag),
        context@.explicit_server_tag == option_text(context.explicit_server_tag),
        context@.disable_cache == context.disable_cache,
        context@.recursion_depth == context.recursion_depth,
        option_context(Some(context)) == Some(context@),
        option_context(None) is None,
{
}

/// A view shows every field of its value.
pub proof fn law_request_view_shows_everything(request: DnsRequest)
    ensures
        request@.raw_message == request.raw_message@,
        request@.network == request.network,
        request@.inbound_tag == request.inbound_tag@,
        request@.peer == request.peer@,
        request@.destination == request.destination@,
        request@.session_id == request.session_id,
        request@.resolution_domain == option_text(request.resolution_domain),
        request.resolve_context matches Some(context) ==> request@.resolve_context == Some(context@),
        request.resolve_context is None ==> request@.resolve_context is None,
        request@.buffered_payload == request.buffered_payload@,
        request@.disable_cache == request.disable_cache,
{
}

/// A view shows every field of its value.
pub proof fn law_session_view_shows_everything(session: SessionContext)
    ensures
        session@.meta.id == session.meta.id,
        session@.meta.network == session.meta.network,
        session@.meta.inbound_tag == session.meta.inbound_tag@,
        session@.meta.peer == session.meta.peer@,
        session@.meta.destination == session.meta.destination@,
        session@.meta.start == session.meta.start,
        session@.meta == session.meta@,
        session@.buffered_payload == session.buffered_payload@,
        session@.route == option_text(session.route),
        session.resolve_context matches Some(context) ==> session@.resolve_context == Some(context@),
        session.resolve_context is None ==> session@.resolve_context is None,
{
}

} // verus!
