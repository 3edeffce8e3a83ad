//! The DNS executor: it answers clients' queries and resolves the domains the runtime dials.
//!
//! A query is begun, its candidates are asked outside, and what came back finishes it.

use vstd::prelude::*;
use vstd::string::*;
use vstd::utf8::encode_utf8;

use crate::dns::cache::{
    cache_key, law_bounded_by_capacity, law_key_holds_the_question, law_keys_tell_questions_apart,
    law_lookup_after_store, law_nothing_is_found_unstored, CacheView, DnsCache, DnsCacheKey,
    DnsCacheLookup, DnsCacheValue, EntryView, KeyView, LookupView, ValueView,
};
use crate::dns::dialer::{detour_outbound, DnsDialer};
use crate::dns::exchange::{on_port, socket_views, with_port, CandidateRace, QueryKind, RaceView};
use crate::dns::request::{
    bind_client_upstream_request, build_resolution_upstream_request, client_upstream_request,
    resolution_upstream_request,
};
use crate::dns::router::{
    first_rule, law_resolution_candidates_are_safe, route_views, rule_views, DnsRouter,
    DnsServerRoute, RouteView, RouterView,
};
use crate::dns::types::{
    server_outbound, DnsRuntimeConfig, DnsSelection, DnsServer, DnsServerTransport, SelectionView,
};
use crate::dns::upstream::{build_upstream, queries, Upstream};
use crate::dns::wire::{
    a_query, answers_of, build_a_query, law_built_query_parses, law_least_ttl, law_query_layout,
    law_rewrite_changes_id_only, parse_query_info, parse_response_ips, parse_response_min_ttl,
    query_of, response_ips, response_ttl, rewrite_message_id, with_id, DnsQueryInfo, QueryView,
    DNS_TYPE_A,
};
use crate::error::{
    config_error, protocol_error, resolve_error, ErrorKind, ErrorView, ProxyError, Result,
};
use crate::execution::catalog::{CatalogView, OutboundCatalog};
use crate::execution::outbound::missing_outbound;
use crate::session::{ContextView, DnsRequest, DnsResponse, RequestView, ResolveContext};
use crate::text::{
    clone_bytes, decimal, decimal_text, joined, normalized, same_text, split, texts,
};
use crate::time::{Duration, Instant, STD_DURATION_LIMIT_NANOS};
use crate::types::{Host, HostView, SocketAddr, SocketView};

verus! {

/// A name is resolved for the sake of resolving a name at most this deep.
pub const MAX_DNS_RECURSION_DEPTH: u8 = 4;

/// How long an answer is waited for, in seconds.
pub const DEFAULT_DNS_QUERY_TIMEOUT_SECS: u64 = 5;

/// A configured server with the way it is queried.
#[derive(Debug)]
pub struct DnsServerRuntime {
    pub server: DnsServer,
    pub upstream: Upstream,
}

/// The routes of the servers.
pub open spec fn server_routes_of(servers: Seq<DnsServerRuntime>) -> Seq<RouteView> {
    servers.map_values(
        |s: DnsServerRuntime| RouteView { tag: s.server.tag@, detour: server_outbound(s.server) },
    )
}

/// Why a server cannot be added to servers with these tags.
pub open spec fn server_fault(
    server: DnsServer,
    before: Seq<DnsServer>,
    catalog: CatalogView,
) -> Option<ErrorView> {
    if !(server.transport is Unsupported) && detour_outbound(catalog, server.dial@.detour) is None {
        Some(missing_outbound(server.dial@.detour->Some_0))
    } else if exists|i: int| 0 <= i < before.len() && (#[trigger] before[i]).tag@ == server.tag@ {
        Some(config_error("duplicate dns server tag in runtime"@))
    } else {
        None
    }
}

/// The first fault in a list of servers.
pub open spec fn first_fault(servers: Seq<DnsServer>, catalog: CatalogView) -> Option<ErrorView>
    decreases servers.len(),
{
    if servers.len() == 0 {
        None
    } else {
        match first_fault(servers.drop_last(), catalog) {
            Some(e) => Some(e),
            None => server_fault(servers.last(), servers.drop_last(), catalog),
        }
    }
}

/// Whether a server is queried as it is configured.
pub open spec fn built_for(runtime: DnsServerRuntime, catalog: CatalogView) -> bool {
    exists|dialer: Option<DnsDialer>|
        {
            &&& #[trigger] queries(
                runtime.upstream,
                runtime.server,
                dialer,
                Duration { nanos: (DEFAULT_DNS_QUERY_TIMEOUT_SECS * 1_000_000_000) as u128 },
            )
            &&& dialer matches Some(d) ==> d@.server_tag == runtime.server.tag@ && d@.dial
                == runtime.server.dial@ && Some(d@.outbound) == detour_outbound(
                catalog,
                runtime.server.dial@.detour,
            )
        }
}

/// A request to one of the candidates.
#[derive(Debug)]
pub struct UpstreamRequest {
    pub server_tag: String,
    pub request: DnsRequest,
}

/// The requests as mathematical values: the server and what it is asked.
pub open spec fn request_views(requests: Seq<UpstreamRequest>) -> Seq<(Seq<char>, RequestView)> {
    requests.map_values(|r: UpstreamRequest| (r.server_tag@, r.request@))
}

/// A query whose candidates are being asked.
#[derive(Debug)]
pub struct PendingQuery {
    pub query_id: u64,
    pub query: DnsQueryInfo,
    pub selection: DnsSelection,
    pub disable_cache: bool,
    pub requests: Vec<UpstreamRequest>,
    pub race: CandidateRace,
}

/// A pending query as mathematical values.
#[verifier::ext_equal]
pub struct PendingView {
    pub query_id: u64,
    pub query: QueryView,
    pub selection: SelectionView,
    pub disable_cache: bool,
    pub requests: Seq<(Seq<char>, RequestView)>,
    pub race: RaceView,
}

impl View for PendingQuery {
    type V = PendingView;

    open spec fn view(&self) -> PendingView {
        PendingView {
            query_id: self.query_id,
            query: self.query@,
            selection: self.selection@,
            disable_cache: self.disable_cache,
            requests: request_views(self.requests@),
            race: self.race@,
        }
    }
}

impl PendingView {
    /// The cache key of the query.
    pub open spec fn key(self) -> KeyView {
        cache_key(self.query.name, self.query.qtype, self.selection.candidate_server_tags)
    }
}

/// Where a client's query stands after it was begun.
#[derive(Debug)]
pub enum QueryStep {
    /// It was answered from the cache.
    Answered(DnsResponse),
    /// The candidates have to be asked.
    Exchange(PendingQuery),
}

/// Where a client's query stands, as mathematical values.
#[verifier::ext_equal]
pub enum QueryStepView {
    Answered(Seq<u8>),
    Exchange(PendingView),
}

impl View for QueryStep {
    type V = QueryStepView;

    open spec fn view(&self) -> QueryStepView {
        match self {
            QueryStep::Answered(response) => QueryStepView::Answered(response.raw_message@),
            QueryStep::Exchange(pending) => QueryStepView::Exchange(pending@),
        }
    }
}

/// Where a resolution stands after it was begun.
#[derive(Debug)]
pub enum ResolveStep {
    /// The addresses are known.
    Answered(Vec<SocketAddr>),
    /// The candidates have to be asked.
    Exchange(PendingQuery),
}

/// Where a resolution stands, as mathematical values.
#[verifier::ext_equal]
pub enum ResolveStepView {
    Answered(Seq<SocketView>),
    Exchange(PendingView),
}

impl View for ResolveStep {
    type V = ResolveStepView;

    open spec fn view(&self) -> ResolveStepView {
        match self {
            ResolveStep::Answered(addresses) => ResolveStepView::Answered(
                socket_views(addresses@),
            ),
            ResolveStep::Exchange(pending) => ResolveStepView::Exchange(pending@),
        }
    }
}

/// Answers DNS queries and resolves domains.
#[derive(Debug)]
pub struct DnsExecutor {
    router: DnsRouter,
    servers: Vec<DnsServerRuntime>,
    cache_enabled: bool,
    cache: DnsCache,
    next_query_id: u64,
}

/// The executor as mathematical values.
#[verifier::ext_equal]
pub struct ExecutorView {
    pub router: RouterView,
    pub servers: Seq<DnsServerRuntime>,
    pub cache_enabled: bool,
    pub cache: CacheView,
    pub next_query_id: u64,
}

impl View for DnsExecutor {
    type V = ExecutorView;

    closed spec fn view(&self) -> ExecutorView {
        ExecutorView {
            router: self.router@,
            servers: self.servers@,
            cache_enabled: self.cache_enabled,
            cache: self.cache@,
            next_query_id: self.next_query_id,
        }
    }
}

/// The server with the tag `tag`.
pub open spec fn server_tagged(servers: Seq<DnsServerRuntime>, tag: Seq<char>) -> Option<
    DnsServerRuntime,
>
    decreases servers.len(),
{
    if servers.len() == 0 {
        None
    } else if servers[0].server.tag@ == tag {
        Some(servers[0])
    } else {
        server_tagged(servers.drop_first(), tag)
    }
}

/// The error for a tag that no server has.
pub open spec fn missing_server(tag: Seq<char>) -> ErrorView {
    config_error("missing dns server tag: "@ + tag)
}

/// What each candidate is asked, where `ask` says it for one server.
pub open spec fn candidate_requests(
    servers: Seq<DnsServerRuntime>,
    tags: Seq<Seq<char>>,
    ask: spec_fn(DnsServer) -> RequestView,
) -> core::result::Result<Seq<(Seq<char>, RequestView)>, ErrorView>
    decreases tags.len(),
{
    if tags.len() == 0 {
        Ok(seq![])
    } else {
        match candidate_requests(servers, tags.drop_last(), ask) {
            Err(e) => Err(e),
            Ok(front) => match server_tagged(servers, tags.last()) {
                None => Err(missing_server(tags.last())),
                Some(found) => Ok(front.push((tags.last(), ask(found.server)))),
            },
        }
    }
}

impl ExecutorView {
    /// Whether a query leaves the cache alone.
    pub open spec fn bypasses(self, disable_cache: bool) -> bool {
        !self.cache_enabled || disable_cache
    }

    /// The cached response under `key`, and the executor after it was looked for.
    pub open spec fn cached(self, key: KeyView, disable_cache: bool, now: Instant) -> (
        Option<ValueView>,
        ExecutorView,
    ) {
        if self.bypasses(disable_cache) {
            (None, self)
        } else {
            (
                match self.cache.found(key, now) {
                    LookupView::Hit(value) => Some(value),
                    _ => None,
                },
                ExecutorView { cache: self.cache.after_lookup(key, now), ..self },
            )
        }
    }

    /// The executor after a query id was taken.
    pub open spec fn numbered(self) -> ExecutorView {
        ExecutorView {
            next_query_id: if self.next_query_id == u64::MAX {
                0
            } else {
                (self.next_query_id + 1) as u64
            },
            ..self
        }
    }

    /// The state of a query that the candidates have to be asked for.
    pub open spec fn asked(
        self,
        query_id: u64,
        query: QueryView,
        selection: SelectionView,
        disable_cache: bool,
        kind: QueryKind,
        ask: spec_fn(DnsServer) -> RequestView,
    ) -> core::result::Result<PendingView, ErrorView> {
        match candidate_requests(self.servers, selection.candidate_server_tags, ask) {
            Err(e) => Err(e),
            Ok(requests) => if requests.len() == 0 {
                Err(config_error("dns selection produced no upstream candidates"@))
            } else {
                Ok(
                    PendingView {
                        query_id,
                        query,
                        selection,
                        disable_cache,
                        requests,
                        race: RaceView::started(
                            kind,
                            query.name,
                            selection.candidate_server_tags,
                        ),
                    },
                )
            },
        }
    }

    /// The start of a client's query at `now`.
    ///
    /// The server is selected by the name that is asked about. A cached response is passed on under
    /// the id of the query; otherwise the server is asked.
    pub open spec fn query_begun(self, request: RequestView, now: Instant) -> (
        core::result::Result<QueryStepView, ErrorView>,
        ExecutorView,
    ) {
        match query_of(request.raw_message) {
            Err(e) => (Err(e), self),
            Ok(query) => match self.router.client_selection(
                query.name,
                server_routes_of(self.servers),
            ) {
                Err(e) => (Err(e), self),
                Ok(selection) => {
                    let disable_cache = request.disable_cache || selection.disable_cache;
                    let key = cache_key(
                        query.name,
                        query.qtype,
                        selection.candidate_server_tags,
                    );
                    let (hit, after) = self.numbered().cached(key, disable_cache, now);
                    match hit {
                        Some(value) => (
                            if value.raw_message.len() < 2 {
                                Err(
                                    protocol_error(
                                        "dns message is shorter than the transaction id"@,
                                    ),
                                )
                            } else {
                                Ok(QueryStepView::Answered(with_id(value.raw_message, query.id)))
                            },
                            after,
                        ),
                        None => (
                            match self.asked(
                                self.next_query_id,
                                query,
                                selection,
                                disable_cache,
                                QueryKind::ClientQuery,
                                |s: DnsServer|
                                    client_upstream_request(request, s, self.next_query_id),
                            ) {
                                Ok(pending) => Ok(QueryStepView::Exchange(pending)),
                                Err(e) => Err(e),
                            },
                            after,
                        ),
                    }
                },
            },
        }
    }

    /// The start of a resolution of `domain` at `now`.
    ///
    /// Beyond the recursion limit, and where no server is safe for the caller, it fails. A cached
    /// response gives the addresses; otherwise every candidate is asked.
    pub open spec fn resolution_begun(
        self,
        domain: Seq<char>,
        port: u16,
        context: ContextView,
        now: Instant,
    ) -> (core::result::Result<ResolveStepView, ErrorView>, ExecutorView) {
        if context.recursion_depth >= MAX_DNS_RECURSION_DEPTH {
            (
                Err(
                    resolve_error(
                        "domain resolver recursion depth exceeded for "@ + domain + ":"@ + decimal(
                            port as nat,
                        ) + " at depth "@ + decimal(context.recursion_depth as nat),
                    ),
                ),
                self,
            )
        } else {
            match self.router.resolution_selection(context, server_routes_of(self.servers)) {
                Err(e) => (Err(e), self),
                Ok(None) => (
                    Err(
                        resolve_error(
                            "no safe dns server available for dial-side resolution of "@ + domain,
                        ),
                    ),
                    self,
                ),
                Ok(Some(selection)) => match a_query(domain, (self.next_query_id % 65536) as u16) {
                    Err(e) => (Err(e), self.numbered()),
                    Ok(raw) => {
                        let query = query_of(raw)->Ok_0;
                        let key = cache_key(
                            query.name,
                            query.qtype,
                            selection.candidate_server_tags,
                        );
                        let (hit, after) = self.numbered().cached(
                            key,
                            context.disable_cache,
                            now,
                        );
                        match hit {
                            Some(value) => (
                                match response_ips(value.raw_message) {
                                    Err(e) => Err(e),
                                    Ok(ips) => Ok(ResolveStepView::Answered(on_port(ips, port))),
                                },
                                after,
                            ),
                            None => (
                                match self.asked(
                                    self.next_query_id,
                                    query,
                                    selection,
                                    context.disable_cache,
                                    QueryKind::DialSideResolve(port),
                                    |s: DnsServer|
                                        resolution_upstream_request(
                                            domain,
                                            s,
                                            raw,
                                            self.next_query_id,
                                            context,
                                        ),
                                ) {
                                    Ok(pending) => Ok(ResolveStepView::Exchange(pending)),
                                    Err(e) => Err(e),
                                },
                                after,
                            ),
                        }
                    },
                },
            }
        }
    }

    /// The executor after `winner` answered a pending query with `message` at `now`: a response
    /// with a lifetime is cached unless the query leaves the cache alone.
    pub open spec fn finished(
        self,
        pending: PendingView,
        winner: Seq<char>,
        message: Seq<u8>,
        now: Instant,
    ) -> ExecutorView {
        if self.bypasses(pending.disable_cache) {
            self
        } else {
            match response_ttl(message, pending.query.qtype) {
                Ok(Some(secs)) => ExecutorView {
                    cache: self.cache.after_store(
                        pending.key(),
                        ValueView {
                            raw_message: message,
                            stored_server_tag: winner,
                            ttl: Duration { nanos: (secs * 1_000_000_000) as u128 },
                        },
                        now,
                    ),
                    ..self
                },
                _ => self,
            }
        }
    }
}

impl DnsServerRuntime {
    /// A configured server with the way it is queried.
    pub fn new(
        server: DnsServer,
        outbounds: &OutboundCatalog,
        query_timeout: Duration,
    ) -> (r: Result<Self>)
        ensures
            if !(server.transport is Unsupported) && detour_outbound(
                outbounds@,
                server.dial@.detour,
            ) is None {
                r matches Err(err) && err@ == missing_outbound(server.dial@.detour->Some_0)
            } else {
                &&& r matches Ok(runtime)
                &&& runtime.server == server
                &&& query_timeout.nanos == DEFAULT_DNS_QUERY_TIMEOUT_SECS * 1_000_000_000
                    ==> built_for(runtime, outbounds@)
                &&& exists|dialer: Option<DnsDialer>|
                    {
                        &&& #[trigger] queries(runtime.upstream, server, dialer, query_timeout)
                        &&& dialer matches Some(d) ==> d@.server_tag == server.tag@ && d@.dial
                            == server.dial@ && Some(d@.outbound) == detour_outbound(
                            outbounds@,
                            server.dial@.detour,
                        )
                    }
            },
    {
        let dialer = match &server.transport {
            DnsServerTransport::Unsupported(_) => None,
            _ => match DnsDialer::new(server.tag.clone(), server.dial.clone(), outbounds) {
                Ok(dialer) => Some(dialer),
                Err(err) => {
                    return Err(err);
                },
            },
        };
        match build_upstream(&server, dialer, query_timeout) {
            Ok(upstream) => {
                let runtime = DnsServerRuntime { server, upstream };
                proof {
                    assert(queries(runtime.upstream, runtime.server, dialer, query_timeout));
                    if query_timeout.nanos == DEFAULT_DNS_QUERY_TIMEOUT_SECS * 1_000_000_000 {
                        let standard = Duration {
                            nanos: (DEFAULT_DNS_QUERY_TIMEOUT_SECS * 1_000_000_000) as u128,
                        };
                        assert(query_timeout == standard);
                        assert(queries(runtime.upstream, runtime.server, dialer, standard));
                    }
                }
                Ok(runtime)
            },
            Err(err) => Err(err),
        }
    }
}

impl DnsExecutor {
    /// Whether the executor is well formed.
    pub closed spec fn wf(&self) -> bool {
        self.cache.wf()
    }

    /// An executor for a configuration. The first server with a detour that the catalog does not
    /// know, or with a tag that is taken, is an error.
    pub fn new(config: DnsRuntimeConfig, outbounds: &OutboundCatalog) -> (r: Result<Self>)
        ensures
            match first_fault(config.servers@, outbounds@) {
                Some(e) => r matches Err(err) && err@ == e,
                None => {
                    &&& r matches Ok(executor)
                    &&& executor.wf()
                    &&& executor@.router == (RouterView {
                        final_server_tag: config.final_server_tag@,
                        rules: rule_views(config.rules@),
                    })
                    &&& executor@.cache_enabled == !config.disable_cache
                    &&& executor@.cache == (CacheView {
                        capacity: config.cache_capacity as nat,
                        next_tick: 1,
                        entries: Map::empty(),
                        lru: Seq::empty(),
                    })
                    &&& executor@.next_query_id == 1
                    &&& executor@.servers.len() == config.servers@.len()
                    &&& forall|i: int|
                        0 <= i < config.servers@.len() ==> (
                        #[trigger] executor@.servers[i]).server == config.servers@[i] && built_for(
                            executor@.servers[i],
                            outbounds@,
                        )
                },
            },
    {
        let query_timeout = Duration::from_secs(DEFAULT_DNS_QUERY_TIMEOUT_SECS);
        let mut servers: Vec<DnsServerRuntime> = Vec::new();
        let ghost all = config.servers@;
        let mut remaining = config.servers;
        let ghost mut done: int = 0;
        let mut reversed: Vec<DnsServer> = Vec::new();
        while remaining.len() > 0
            invariant
                all == remaining@ + reversed@.reverse(),
            decreases remaining@.len(),
        {
            let ghost before = reversed@;
            let ghost left = remaining@;
            let last = remaining.pop().unwrap();
            reversed.push(last);
            assert(reversed@.reverse() =~= seq![last] + before.reverse());
            assert(left =~= remaining@.push(last));
            assert(all =~= remaining@ + reversed@.reverse());
        }
        assert(all =~= reversed@.reverse());
        assert(all.take(0) =~= seq![]);
        while reversed.len() > 0
            invariant
                0 <= done <= all.len(),
                all == config.servers@,
                all.skip(done) == reversed@.reverse(),
                first_fault(all.take(done), outbounds@) is None,
                servers@.len() == done,
                query_timeout.nanos == DEFAULT_DNS_QUERY_TIMEOUT_SECS * 1_000_000_000,
                forall|i: int|
                    0 <= i < done ==> (#[trigger] servers@[i]).server == all[i] && built_for(
                        servers@[i],
                        outbounds@,
                    ),
            decreases reversed@.len(),
        {
            let ghost before = reversed@;
            let server = reversed.pop().unwrap();
            proof {
                assert(before.reverse()[0] == server);
                assert(all.skip(done).len() == before.len());
                assert(all.skip(done)[0] == all[done]);
                assert(all.skip(done + 1) =~= all.skip(done).drop_first());
                assert(reversed@.reverse() =~= before.reverse().drop_first());
                assert(all.take(done + 1).drop_last() =~= all.take(done));
                assert(all.take(done + 1).last() == server);
            }
            let taken = Self::find_runtime(&servers, server.tag.as_str()).is_some();
            let ghost tag = server.tag@;
            let runtime = match DnsServerRuntime::new(server, outbounds, query_timeout) {
                Ok(runtime) => runtime,
                Err(err) => {
                    proof {
                        lemma_first_fault_stays(all, done + 1, outbounds@);
                    }
                    return Err(err);
                },
            };
            if taken {
                proof {
                    let i = choose|i: int|
                        0 <= i < servers@.len() && (#[trigger] servers@[i]).server.tag@ == tag;
                    assert(all.take(done)[i].tag@ == tag);
                    lemma_first_fault_stays(all, done + 1, outbounds@);
                }
                return Err(ProxyError::config("duplicate dns server tag in runtime"));
            }
            proof {
                assert forall|i: int| 0 <= i < done implies (#[trigger] all.take(done)[i]).tag@
                    != tag by {
                    assert(servers@[i].server == all[i]);
                }
            }
            servers.push(runtime);
            proof {
                done = done + 1;
            }
        }
        proof {
            assert(done == all.len()) by {
                assert(all.skip(done).len() == 0);
            }
            assert(all.take(done) =~= all);
        }
        Ok(
            DnsExecutor {
                router: DnsRouter::new(config.final_server_tag.as_str(), config.rules),
                servers,
                cache_enabled: !config.disable_cache,
                cache: DnsCache::new(config.cache_capacity),
                next_query_id: 1,
            },
        )
    }

    fn find_runtime(servers: &Vec<DnsServerRuntime>, tag: &str) -> (r: Option<usize>)
        ensures
            match r {
                Some(i) => i < servers@.len() && servers@[i as int].server.tag@ == tag@
                    && server_tagged(servers@, tag@) == Some(servers@[i as int]),
                None => server_tagged(servers@, tag@) is None && forall|i: int|
                    0 <= i < servers@.len() ==> (#[trigger] servers@[i]).server.tag@ != tag@,
            },
    {
        let mut i: usize = 0;
        assert(servers@.skip(0) =~= servers@);
        while i < servers.len()
            invariant
                i <= servers@.len(),
                server_tagged(servers@, tag@) == server_tagged(servers@.skip(i as int), tag@),
                forall|j: int| 0 <= j < i ==> (#[trigger] servers@[j]).server.tag@ != tag@,
            decreases servers@.len() - i,
        {
            assert(servers@.skip(i as int)[0] == servers@[i as int]);
            assert(servers@.skip(i as int).drop_first() =~= servers@.skip(i + 1));
            if same_text(servers[i].server.tag.as_str(), tag) {
                return Some(i);
            }
            i += 1;
        }
        None
    }

    /// The server with the tag `tag`.
    pub fn lookup_server(&self, server_tag: &str) -> (r: Result<&DnsServerRuntime>)
        ensures
            match server_tagged(self@.servers, server_tag@) {
                Some(found) => r matches Ok(runtime) && *runtime == found,
                None => r matches Err(err) && err@ == missing_server(server_tag@),
            },
    {
        match Self::find_runtime(&self.servers, server_tag) {
            Some(i) => Ok(&self.servers[i]),
            None => Err(
                ProxyError::config(
                    "missing dns server tag: ".to_owned().concat(server_tag).as_str(),
                ),
            ),
        }
    }
}

/// What the candidates are asked for.
enum Ask<'a> {
    Client { request: &'a DnsRequest },
    Resolve { domain: &'a str, query: &'a [u8], context: &'a ResolveContext },
}

impl<'a> Ask<'a> {
    spec fn of(&self, query_id: u64) -> spec_fn(DnsServer) -> RequestView {
        match self {
            Ask::Client { request } => |s: DnsServer|
                client_upstream_request(request@, s, query_id),
            Ask::Resolve { domain, query, context } => |s: DnsServer|
                resolution_upstream_request(domain@, s, query@, query_id, context@),
        }
    }

    fn request(&self, server: &DnsServer, query_id: u64) -> (r: DnsRequest)
        ensures
            r@ == self.of(query_id)(*server),
    {
        match self {
            Ask::Client { request } => bind_client_upstream_request(request, server, query_id),
            Ask::Resolve { domain, query, context } => build_resolution_upstream_request(
                domain,
                server,
                query,
                query_id,
                context,
            ),
        }
    }
}

impl DnsExecutor {
    /// Begins a client's query at `now`.
    pub fn begin_query(&mut self, request: &DnsRequest, now: Instant) -> (r: Result<QueryStep>)
        requires
            old(self).wf(),
        ensures
            final(self).wf(),
            final(self)@ == old(self)@.query_begun(request@, now).1,
            match old(self)@.query_begun(request@, now).0 {
                Ok(step) => r matches Ok(s) && s@ == step,
                Err(e) => r matches Err(err) && err@ == e,
            },
    {
        let query = match parse_query_info(request.raw_message.as_slice()) {
            Ok(query) => query,
            Err(err) => {
                return Err(err);
            },
        };
        let selection = match self.select_client(query.name.as_str()) {
            Ok(selection) => selection,
            Err(err) => {
                return Err(err);
            },
        };
        let query_id: u64 = self.take_query_id();
        let disable_cache = request.disable_cache || selection.disable_cache;
        if let Some(cached) = self.lookup_cache(&query, &selection, disable_cache, now) {
            return match rewrite_message_id(cached.raw_message.as_slice(), query.id) {
                Ok(message) => Ok(QueryStep::Answered(DnsResponse::new(message))),
                Err(err) => Err(err),
            };
        }
        let ask = Ask::Client { request };
        proof {
            let expected = |s: DnsServer| client_upstream_request(request@, s, query_id);
            assert(ask.of(query_id) =~= expected);
        }
        match self.ask_candidates(
            query_id,
            query,
            selection,
            disable_cache,
            QueryKind::ClientQuery,
            &ask,
        ) {
            Ok(pending) => Ok(QueryStep::Exchange(pending)),
            Err(err) => Err(err),
        }
    }

    /// Begins the resolution of a host at `now`. An address needs none.
    pub fn begin_resolve_host(
        &mut self,
        host: &Host,
        port: u16,
        context: &ResolveContext,
        now: Instant,
    ) -> (r: Result<ResolveStep>)
        requires
            old(self).wf(),
        ensures
            final(self).wf(),
            match host@ {
                HostView::Ip(ip) => final(self)@ == old(self)@ && (r matches Ok(
                    ResolveStep::Answered(addresses),
                ) && socket_views(addresses@) == seq![SocketView { ip, port }]),
                HostView::Domain(domain) => {
                    let (outcome, after) = old(self)@.resolution_begun(
                        domain,
                        port,
                        context@,
                        now,
                    );
                    final(self)@ == after && match outcome {
                        Ok(step) => r matches Ok(s) && s@ == step,
                        Err(e) => r matches Err(err) && err@ == e,
                    }
                },
            },
    {
        match host {
            Host::Ip(ip) => {
                let mut addresses: Vec<SocketAddr> = Vec::new();
                addresses.push(SocketAddr::new(*ip, port));
                assert(socket_views(addresses@) =~= seq![SocketView { ip: ip@, port }]);
                Ok(ResolveStep::Answered(addresses))
            },
            Host::Domain(domain) => self.begin_resolve_domain(domain.as_str(), port, context, now),
        }
    }

    /// Begins the resolution of a domain at `now`.
    pub fn begin_resolve_domain(
        &mut self,
        domain: &str,
        port: u16,
        context: &ResolveContext,
        now: Instant,
    ) -> (r: Result<ResolveStep>)
        requires
            old(self).wf(),
        ensures
            final(self).wf(),
            final(self)@ == old(self)@.resolution_begun(domain@, port, context@, now).1,
            match old(self)@.resolution_begun(domain@, port, context@, now).0 {
                Ok(step) => r matches Ok(s) && s@ == step,
                Err(e) => r matches Err(err) && err@ == e,
            },
    {
        if context.recursion_depth >= MAX_DNS_RECURSION_DEPTH {
            return Err(
                ProxyError::resolve(
                    "domain resolver recursion depth exceeded for ".to_owned().concat(
                        domain,
                    ).concat(":").concat(decimal_text(port as u128).as_str()).concat(
                        " at depth ",
                    ).concat(decimal_text(context.recursion_depth as u128).as_str()).as_str(),
                ),
            );
        }
        let selection = match self.select_resolution(context) {
            Ok(Some(selection)) => selection,
            Ok(None) => {
                return Err(
                    ProxyError::resolve(
                        "no safe dns server available for dial-side resolution of ".to_owned().concat(
                            domain,
                        ).as_str(),
                    ),
                );
            },
            Err(err) => {
                return Err(err);
            },
        };
        let query_id: u64 = self.take_query_id();
        let raw_query = match build_a_query(domain, (query_id % 65536) as u16) {
            Ok(raw_query) => raw_query,
            Err(err) => {
                return Err(err);
            },
        };
        proof {
            law_built_query_parses(domain@, (query_id % 65536) as u16);
        }
        let query = match parse_query_info(raw_query.as_slice()) {
            Ok(query) => query,
            Err(err) => {
                return Err(err);
            },
        };
        if let Some(cached) = self.lookup_cache(&query, &selection, context.disable_cache, now) {
            return match parse_response_ips(cached.raw_message.as_slice()) {
                Ok(ips) => Ok(ResolveStep::Answered(with_port(&ips, port))),
                Err(err) => Err(err),
            };
        }
        let ask = Ask::Resolve { domain, query: raw_query.as_slice(), context };
        proof {
            let expected = |s: DnsServer|
                resolution_upstream_request(domain@, s, raw_query@, query_id, context@);
            assert(ask.of(query_id) =~= expected);
        }
        match self.ask_candidates(
            query_id,
            query,
            selection,
            context.disable_cache,
            QueryKind::DialSideResolve(port),
            &ask,
        ) {
            Ok(pending) => Ok(ResolveStep::Exchange(pending)),
            Err(err) => Err(err),
        }
    }

    /// Notes that `winner` answered a pending query with `response` at `now`.
    pub fn finish_query(
        &mut self,
        pending: &PendingQuery,
        winner: &str,
        response: &DnsResponse,
        now: Instant,
    )
        requires
            old(self).wf(),
            now.nanos < STD_DURATION_LIMIT_NANOS,
        ensures
            final(self).wf(),
            final(self)@ == old(self)@.finished(pending@, winner@, response.raw_message@, now),
    {
        if !self.cache_enabled || pending.disable_cache {
            return;
        }
        let ttl = match parse_response_min_ttl(
            response.raw_message.as_slice(),
            pending.query.qtype,
        ) {
            Ok(Some(ttl)) => ttl,
            _ => {
                return;
            },
        };
        let key = DnsCacheKey::new(
            pending.query.name.clone(),
            pending.query.qtype,
            &pending.selection.candidate_server_tags,
        );
        proof {
            let secs = response_ttl(response.raw_message@, pending@.query.qtype)->Ok_0->Some_0;
            assert(ttl == Duration { nanos: (secs * 1_000_000_000) as u128 });
        }
        self.cache.store_at(
            key,
            clone_bytes(response.raw_message.as_slice()),
            ttl,
            winner.to_owned(),
            now,
        );
    }

    fn take_query_id(&mut self) -> (query_id: u64)
        requires
            old(self).wf(),
        ensures
            final(self).wf(),
            query_id == old(self)@.next_query_id,
            final(self)@ == old(self)@.numbered(),
    {
        let query_id: u64 = self.next_query_id;
        self.next_query_id = self.next_query_id.wrapping_add(1);
        query_id
    }

    fn server_routes(&self) -> (r: Vec<DnsServerRoute<'_>>)
        ensures
            route_views(r@) == server_routes_of(self@.servers),
    {
        let mut routes: Vec<DnsServerRoute<'_>> = Vec::new();
        let ghost all = server_routes_of(self.servers@);
        let mut i: usize = 0;
        while i < self.servers.len()
            invariant
                i <= self.servers@.len(),
                all == server_routes_of(self.servers@),
                route_views(routes@) == all.take(i as int),
            decreases self.servers@.len() - i,
        {
            let ghost before = route_views(routes@);
            let server = &self.servers[i].server;
            routes.push(
                DnsServerRoute { tag: server.tag.as_str(), detour: server.outbound_tag() },
            );
            assert(route_views(routes@) =~= before.push(all[i as int]));
            assert(all.take(i + 1) =~= all.take(i as int).push(all[i as int]));
            i += 1;
        }
        assert(all.take(i as int) =~= all);
        routes
    }

    fn select_client(&self, name: &str) -> (r: Result<DnsSelection>)
        ensures
            match self@.router.client_selection(name@, server_routes_of(self@.servers)) {
                Ok(selection) => r matches Ok(s) && s@ == selection,
                Err(e) => r matches Err(err) && err@ == e,
            },
    {
        let routes = self.server_routes();
        self.router.select_client_upstream(name, routes.as_slice())
    }

    fn select_resolution(&self, context: &ResolveContext) -> (r: Result<Option<DnsSelection>>)
        ensures
            match self@.router.resolution_selection(context@, server_routes_of(self@.servers)) {
                Ok(Some(selection)) => r matches Ok(Some(s)) && s@ == selection,
                Ok(None) => r matches Ok(None),
                Err(e) => r matches Err(err) && err@ == e,
            },
    {
        let routes = self.server_routes();
        self.router.select_resolution_upstream(context, routes.as_slice())
    }

    fn lookup_cache(
        &mut self,
        query: &DnsQueryInfo,
        selection: &DnsSelection,
        disable_cache: bool,
        now: Instant,
    ) -> (r: Option<DnsCacheValue>)
        requires
            old(self).wf(),
        ensures
            final(self).wf(),
            ({
                let key = cache_key(
                    query@.name,
                    query@.qtype,
                    selection@.candidate_server_tags,
                );
                let (hit, after) = old(self)@.cached(key, disable_cache, now);
                final(self)@ == after && match hit {
                    Some(value) => r matches Some(v) && v@ == value,
                    None => r is None,
                }
            }),
    {
        if !self.cache_enabled || disable_cache {
            return None;
        }
        let key = DnsCacheKey::new(
            query.name.clone(),
            query.qtype,
            &selection.candidate_server_tags,
        );
        match self.cache.lookup_at(&key, now) {
            DnsCacheLookup::Hit(value) => Some(value),
            DnsCacheLookup::Miss => None,
            DnsCacheLookup::Expired => None,
        }
    }

    fn ask_candidates(
        &self,
        query_id: u64,
        query: DnsQueryInfo,
        selection: DnsSelection,
        disable_cache: bool,
        kind: QueryKind,
        ask: &Ask<'_>,
    ) -> (r: Result<PendingQuery>)
        ensures
            match self@.asked(
                query_id,
                query@,
                selection@,
                disable_cache,
                kind,
                ask.of(query_id),
            ) {
                Ok(pending) => r matches Ok(p) && p@ == pending,
                Err(e) => r matches Err(err) && err@ == e,
            },
    {
        let mut requests: Vec<UpstreamRequest> = Vec::new();
        let ghost tags = texts(selection.candidate_server_tags@);
        let ghost of = ask.of(query_id);
        let mut i: usize = 0;
        assert(tags.take(0) =~= seq![]);
        assert(request_views(requests@) =~= seq![]);
        while i < selection.candidate_server_tags.len()
            invariant
                i <= selection.candidate_server_tags@.len(),
                tags == texts(selection.candidate_server_tags@),
                of == ask.of(query_id),
                request_views(requests@).len() == i,
                candidate_requests(self@.servers, tags.take(i as int), of) == Ok::<
                    Seq<(Seq<char>, RequestView)>,
                    ErrorView,
                >(request_views(requests@)),
            decreases selection.candidate_server_tags@.len() - i,
        {
            let tag = selection.candidate_server_tags[i].as_str();
            let ghost before = request_views(requests@);
            proof {
                assert(tags.take(i + 1).drop_last() =~= tags.take(i as int));
                assert(tags.take(i + 1).last() == tag@);
            }
            let runtime = match self.lookup_server(tag) {
                Ok(runtime) => runtime,
                Err(err) => {
                    proof {
                        lemma_candidate_fault(self@.servers, tags, i + 1, of);
                    }
                    return Err(err);
                },
            };
            let request = ask.request(&runtime.server, query_id);
            let ghost view = (tag@, request@);
            requests.push(UpstreamRequest { server_tag: tag.to_owned(), request });
            assert(request_views(requests@) =~= before.push(view));
            i += 1;
        }
        assert(tags.take(i as int) =~= tags);
        let race = match CandidateRace::start(
            kind,
            query.name.as_str(),
            &selection.candidate_server_tags,
        ) {
            Ok(race) => race,
            Err(err) => {
                return Err(err);
            },
        };
        Ok(PendingQuery { query_id, query, selection, disable_cache, requests, race })
    }
}

proof fn lemma_candidate_fault(
    servers: Seq<DnsServerRuntime>,
    tags: Seq<Seq<char>>,
    n: int,
    ask: spec_fn(DnsServer) -> RequestView,
)
    requires
        0 <= n <= tags.len(),
        candidate_requests(servers, tags.take(n), ask) is Err,
    ensures
        candidate_requests(servers, tags, ask) == candidate_requests(servers, tags.take(n), ask),
    decreases tags.len(),
{
    if n == tags.len() {
        assert(tags.take(n) =~= tags);
    } else {
        let front = tags.drop_last();
        assert(front.take(n) =~= tags.take(n));
        lemma_candidate_fault(servers, front, n, ask);
    }
}

proof fn lemma_first_fault_stays(servers: Seq<DnsServer>, n: int, catalog: CatalogView)
    requires
        0 <= n <= servers.len(),
        first_fault(servers.take(n), catalog) is Some,
    ensures
        first_fault(servers, catalog) == first_fault(servers.take(n), catalog),
    decreases servers.len(),
{
    if n == servers.len() {
        assert(servers.take(n) =~= servers);
    } else {
        let front = servers.drop_last();
        assert(front.take(n) =~= servers.take(n));
        lemma_first_fault_stays(front, n, catalog);
    }
}

/// A response with a lifetime answers later queries: once a pending query was finished, a client
/// that asks the same before the response expires is given it from the cache, under the id of its
/// own query, and no server is asked.
pub proof fn law_query_is_answered_from_cache(
    executor: ExecutorView,
    pending: PendingView,
    winner: Seq<char>,
    message: Seq<u8>,
    stored: Instant,
    request: RequestView,
    asked: Instant,
    secs: u32,
    query: QueryView,
    selection: SelectionView,
)
    requires
        executor.cache.valid(),
        executor.cache_enabled,
        executor.cache.capacity >= 1,
        executor.cache.next_tick < u64::MAX,
        !pending.disable_cache,
        response_ttl(message, pending.query.qtype) == Ok::<Option<u32>, ErrorView>(Some(secs)),
        stored.nanos + secs * 1_000_000_000 <= u128::MAX,
        query_of(request.raw_message) == Ok::<QueryView, ErrorView>(query),
        executor.router.client_selection(query.name, server_routes_of(executor.servers)) == Ok::<
            SelectionView,
            ErrorView,
        >(selection),
        !request.disable_cache,
        !selection.disable_cache,
        cache_key(query.name, query.qtype, selection.candidate_server_tags) == pending.key(),
        asked.nanos < stored.nanos + secs * 1_000_000_000,
    ensures
        executor.finished(pending, winner, message, stored).query_begun(request, asked).0 == Ok::<
            QueryStepView,
            ErrorView,
        >(QueryStepView::Answered(with_id(message, query.id))),
{
    lemma_stored_response_is_found(executor, pending, winner, message, stored, secs, asked);
}

/// A response with a lifetime serves later resolutions: once a pending query was finished, a
/// resolution of the same name among the same candidates before the response expires is given its
/// addresses, and no server is asked.
pub proof fn law_resolution_is_answered_from_cache(
    executor: ExecutorView,
    pending: PendingView,
    winner: Seq<char>,
    message: Seq<u8>,
    stored: Instant,
    domain: Seq<char>,
    port: u16,
    context: ContextView,
    asked: Instant,
    secs: u32,
    selection: SelectionView,
)
    requires
        executor.cache.valid(),
        executor.cache_enabled,
        executor.cache.capacity >= 1,
        executor.cache.next_tick < u64::MAX,
        !pending.disable_cache,
        response_ttl(message, pending.query.qtype) == Ok::<Option<u32>, ErrorView>(Some(secs)),
        stored.nanos + secs * 1_000_000_000 <= u128::MAX,
        response_ips(message) is Ok,
        context.recursion_depth < MAX_DNS_RECURSION_DEPTH,
        executor.router.resolution_selection(context, server_routes_of(executor.servers)) == Ok::<
            Option<SelectionView>,
            ErrorView,
        >(Some(selection)),
        a_query(domain, (executor.next_query_id % 65536) as u16) is Ok,
        !context.disable_cache,
        cache_key(normalized(domain), DNS_TYPE_A, selection.candidate_server_tags)
            == pending.key(),
        asked.nanos < stored.nanos + secs * 1_000_000_000,
    ensures
        executor.finished(pending, winner, message, stored).resolution_begun(
            domain,
            port,
            context,
            asked,
        ).0 == Ok::<ResolveStepView, ErrorView>(
            ResolveStepView::Answered(on_port(response_ips(message)->Ok_0, port)),
        ),
{
    lemma_stored_response_is_found(executor, pending, winner, message, stored, secs, asked);
    law_built_query_parses(domain, (executor.next_query_id % 65536) as u16);
}

proof fn lemma_stored_response_is_found(
    executor: ExecutorView,
    pending: PendingView,
    winner: Seq<char>,
    message: Seq<u8>,
    stored: Instant,
    secs: u32,
    asked: Instant,
)
    requires
        executor.cache.valid(),
        executor.cache_enabled,
        executor.cache.capacity >= 1,
        executor.cache.next_tick < u64::MAX,
        !pending.disable_cache,
        response_ttl(message, pending.query.qtype) == Ok::<Option<u32>, ErrorView>(Some(secs)),
        stored.nanos + secs * 1_000_000_000 <= u128::MAX,
        asked.nanos < stored.nanos + secs * 1_000_000_000,
    ensures
        executor.finished(pending, winner, message, stored).cache.found(pending.key(), asked)
            == LookupView::Hit(
            ValueView {
                raw_message: message,
                stored_server_tag: winner,
                ttl: Duration { nanos: (secs * 1_000_000_000) as u128 },
            },
        ),
        message.len() >= 12,
{
    let value = ValueView {
        raw_message: message,
        stored_server_tag: winner,
        ttl: Duration { nanos: (secs * 1_000_000_000) as u128 },
    };
    law_least_ttl(answers_of(message)->Ok_0, pending.query.qtype);
    law_lookup_after_store(executor.cache, pending.key(), value, stored, asked);
}

/// Where the cache is switched off, by the query or for the whole executor, it is neither read nor
/// written, neither by queries nor by resolutions.
pub proof fn law_disabled_cache_is_left_alone(
    executor: ExecutorView,
    request: RequestView,
    asked: Instant,
    domain: Seq<char>,
    port: u16,
    context: ContextView,
    pending: PendingView,
    winner: Seq<char>,
    message: Seq<u8>,
    stored: Instant,
)
    ensures
        executor.bypasses(request.disable_cache) ==> {
            let (outcome, after) = executor.query_begun(request, asked);
            &&& after.cache == executor.cache
            &&& !(outcome matches Ok(QueryStepView::Answered(_)))
            &&& outcome matches Ok(QueryStepView::Exchange(p)) ==> after.bypasses(p.disable_cache)
        },
        executor.bypasses(context.disable_cache) ==> {
            let (outcome, after) = executor.resolution_begun(domain, port, context, asked);
            &&& after.cache == executor.cache
            &&& !(outcome matches Ok(ResolveStepView::Answered(_)))
            &&& outcome matches Ok(ResolveStepView::Exchange(p)) ==> after.bypasses(
                p.disable_cache,
            )
        },
        executor.bypasses(pending.disable_cache) ==> executor.finished(
            pending,
            winner,
            message,
            stored,
        ) == executor,
{
}

/// A rule that switches the cache off has the same effect for the domains it lists.
pub proof fn law_rule_disables_cache(
    executor: ExecutorView,
    request: RequestView,
    asked: Instant,
    query: QueryView,
)
    requires
        query_of(request.raw_message) == Ok::<QueryView, ErrorView>(query),
        first_rule(executor.router.rules, normalized(query.name)) matches Some(rule)
            && rule.disable_cache,
    ensures
        executor.query_begun(request, asked).1.cache == executor.cache,
        !(executor.query_begun(request, asked).0 matches Ok(QueryStepView::Answered(_))),
        executor.query_begun(request, asked).0 matches Ok(QueryStepView::Exchange(p))
            ==> p.disable_cache,
{
}

/// A resolution at the recursion limit is refused before any server is asked, and leaves the
/// executor as it was.
pub proof fn law_recursion_is_limited(
    executor: ExecutorView,
    domain: Seq<char>,
    port: u16,
    context: ContextView,
    now: Instant,
)
    requires
        context.recursion_depth >= MAX_DNS_RECURSION_DEPTH,
    ensures
        executor.resolution_begun(domain, port, context, now).0 is Err,
        executor.resolution_begun(domain, port, context, now).1 == executor,
{
}

/// A response that reports a failure, or none of whose answers has a lifetime, is not cached.
pub proof fn law_response_without_lifetime_is_not_cached(
    executor: ExecutorView,
    pending: PendingView,
    winner: Seq<char>,
    message: Seq<u8>,
    stored: Instant,
)
    requires
        !(response_ttl(message, pending.query.qtype) matches Ok(Some(_))),
    ensures
        executor.finished(pending, winner, message, stored) == executor,
{
}

/// The cache of a well-formed executor never holds more responses than its capacity.
pub proof fn law_executor_cache_is_bounded(executor: &DnsExecutor)
    requires
        executor.wf(),
    ensures
        executor@.cache.valid(),
        executor@.cache.entries.len() <= executor@.cache.capacity,
{
    law_bounded_by_capacity(&executor.cache);
}

/// The server found under a tag is the first one that has it, and there is none exactly where no
/// server has it.
pub proof fn law_server_is_found_by_its_tag(servers: Seq<DnsServerRuntime>, tag: Seq<char>)
    ensures
        match server_tagged(servers, tag) {
            Some(found) => exists|i: int|
                0 <= i < servers.len() && #[trigger] servers[i] == found && found.server.tag@ == tag
                    && forall|j: int| 0 <= j < i ==> (#[trigger] servers[j]).server.tag@ != tag,
            None => forall|i: int|
                0 <= i < servers.len() ==> (#[trigger] servers[i]).server.tag@ != tag,
        },
    decreases servers.len(),
{
    if servers.len() > 0 {
        if servers[0].server.tag@ == tag {
            assert(servers[0] == server_tagged(servers, tag)->Some_0);
        } else {
            let rest = servers.drop_first();
            law_server_is_found_by_its_tag(rest, tag);
            match server_tagged(rest, tag) {
                Some(found) => {
                    let k = choose|i: int|
                        0 <= i < rest.len() && #[trigger] rest[i] == found && found.server.tag@
                            == tag && forall|j: int|
                            0 <= j < i ==> (#[trigger] rest[j]).server.tag@ != tag;
                    assert(servers[k + 1] == found);
                    assert forall|j: int| 0 <= j < k + 1 implies (
                    #[trigger] servers[j]).server.tag@ != tag by {
                        if j > 0 {
                            assert(rest[j - 1] == servers[j]);
                        }
                    }
                },
                None => {
                    assert forall|i: int| 0 <= i < servers.len() implies (
                    #[trigger] servers[i]).server.tag@ != tag by {
                        if i > 0 {
                            assert(rest[i - 1] == servers[i]);
                        }
                    }
                },
            }
        }
    }
}

/// Every candidate is asked, in order, each what is asked of the server with its tag. Candidates
/// without a server are a configuration error.
pub proof fn law_every_candidate_is_asked(
    servers: Seq<DnsServerRuntime>,
    tags: Seq<Seq<char>>,
    ask: spec_fn(DnsServer) -> RequestView,
)
    ensures
        match candidate_requests(servers, tags, ask) {
            Ok(requests) => {
                &&& requests.len() == tags.len()
                &&& forall|i: int|
                    0 <= i < tags.len() ==> (#[trigger] requests[i]).0 == tags[i] && (server_tagged(
                        servers,
                        tags[i],
                    ) matches Some(found) && requests[i].1 == ask(found.server))
            },
            Err(e) => {
                &&& e.kind == ErrorKind::Config
                &&& exists|i: int|
                    0 <= i < tags.len() && server_tagged(servers, #[trigger] tags[i]) is None
            },
        },
    decreases tags.len(),
{
    if tags.len() > 0 {
        let front = tags.drop_last();
        law_every_candidate_is_asked(servers, front, ask);
        assert(tags[tags.len() - 1] == tags.last());
        match candidate_requests(servers, tags, ask) {
            Ok(requests) => {
                let before = candidate_requests(servers, front, ask)->Ok_0;
                assert forall|i: int| 0 <= i < tags.len() implies (#[trigger] requests[i]).0
                    == tags[i] && (server_tagged(servers, tags[i]) matches Some(found)
                    && requests[i].1 == ask(found.server)) by {
                    if i < front.len() {
                        assert(requests[i] == before[i]);
                        assert(front[i] == tags[i]);
                    }
                }
            },
            Err(_) => {
                if candidate_requests(servers, front, ask) is Err {
                    let k = choose|i: int|
                        0 <= i < front.len() && server_tagged(servers, #[trigger] front[i]) is None;
                    assert(tags[k] == front[k]);
                } else {
                    assert(server_tagged(servers, tags[tags.len() - 1]) is None);
                }
            },
        }
    }
}

/// A tag that the router knows is the tag of a server.
proof fn lemma_routed_server(servers: Seq<DnsServerRuntime>, tag: Seq<char>)
    ensures
        (exists|i: int|
            0 <= i < server_routes_of(servers).len() && (#[trigger] server_routes_of(
                servers,
            )[i]).tag == tag) <==> server_tagged(servers, tag) is Some,
{
    law_server_is_found_by_its_tag(servers, tag);
    let routes = server_routes_of(servers);
    if server_tagged(servers, tag) is Some {
        let k = choose|i: int|
            0 <= i < servers.len() && (#[trigger] servers[i]).server.tag@ == tag;
        assert(routes[k].tag == tag);
    }
    if exists|i: int| 0 <= i < routes.len() && (#[trigger] routes[i]).tag == tag {
        let k = choose|i: int| 0 <= i < routes.len() && (#[trigger] routes[i]).tag == tag;
        assert(servers[k].server.tag@ == tag);
    }
}

/// A client's query that the cache does not answer is put to the server that was selected: the
/// message goes out as the client sent it, under the number of the query, and the race is between
/// the candidates alone.
pub proof fn law_unanswered_query_is_asked(
    executor: ExecutorView,
    request: RequestView,
    now: Instant,
    query: QueryView,
    selection: SelectionView,
)
    requires
        query_of(request.raw_message) == Ok::<QueryView, ErrorView>(query),
        executor.router.client_selection(query.name, server_routes_of(executor.servers)) == Ok::<
            SelectionView,
            ErrorView,
        >(selection),
    ensures
        !executor.cache_enabled || request.disable_cache || selection.disable_cache
            || !(executor.cache.found(
            cache_key(query.name, query.qtype, selection.candidate_server_tags),
            now,
        ) is Hit) ==> {
            &&& executor.query_begun(request, now).0 matches Ok(QueryStepView::Exchange(pending))
            &&& pending.query_id == executor.next_query_id
            &&& pending.query == query
            &&& pending.selection == selection
            &&& pending.disable_cache == (request.disable_cache || selection.disable_cache)
            &&& pending.requests.len() == 1
            &&& pending.requests[0].0 == selection.server_tag
            &&& pending.requests[0].1.raw_message == request.raw_message
            &&& pending.requests[0].1.session_id == Some(executor.next_query_id)
            &&& server_tagged(executor.servers, selection.server_tag) matches Some(found)
            &&& pending.requests[0].1 == client_upstream_request(
                request,
                found.server,
                executor.next_query_id,
            )
            &&& pending.race.kind == QueryKind::ClientQuery
            &&& pending.race.query_name == query.name
            &&& pending.race.candidates == selection.candidate_server_tags
            &&& pending.race.pending == selection.candidate_server_tags
            &&& pending.race.failures.len() == 0
        },
{
    let tag = selection.server_tag;
    let ask = |s: DnsServer| client_upstream_request(request, s, executor.next_query_id);
    law_every_candidate_is_asked(executor.servers, selection.candidate_server_tags, ask);
    lemma_routed_server(executor.servers, tag);
    let tags = selection.candidate_server_tags;
    assert(tags =~= seq![tag]);
    assert(tags[0] == tag);
    assert(candidate_requests(executor.servers, tags, ask) is Ok);
    let requests = candidate_requests(executor.servers, tags, ask)->Ok_0;
    assert(requests[0].0 == tags[0]);
}

/// A query that was begun has spent a number, whatever came of it, and was looked up in the cache
/// unless that is switched off; nothing else has changed. One that could not be read, or that no
/// server was selected for, fails for that reason and has changed nothing.
pub proof fn law_begun_query_spends_a_number(
    executor: ExecutorView,
    request: RequestView,
    now: Instant,
)
    ensures
        ({
            let (outcome, after) = executor.query_begun(request, now);
            let selected = query_of(request.raw_message) is Ok && executor.router.client_selection(
                (query_of(request.raw_message)->Ok_0).name,
                server_routes_of(executor.servers),
            ) is Ok;
            &&& after.router == executor.router
            &&& after.servers == executor.servers
            &&& after.cache_enabled == executor.cache_enabled
            &&& !selected ==> after == executor && outcome is Err
            &&& query_of(request.raw_message) matches Err(e) ==> outcome == Err::<
                QueryStepView,
                ErrorView,
            >(e)
            &&& query_of(request.raw_message) matches Ok(query) ==> match executor.router.client_selection(
                query.name,
                server_routes_of(executor.servers),
            ) {
                Err(e) => outcome == Err::<QueryStepView, ErrorView>(e),
                Ok(selection) => after.cache == if !executor.cache_enabled || request.disable_cache
                    || selection.disable_cache {
                    executor.cache
                } else {
                    executor.cache.after_lookup(
                        cache_key(query.name, query.qtype, selection.candidate_server_tags),
                        now,
                    )
                },
            }
            &&& selected && executor.next_query_id < u64::MAX ==> after.next_query_id
                == executor.next_query_id + 1
            &&& selected && executor.next_query_id == u64::MAX ==> after.next_query_id == 0
        }),
{
}

/// An answer comes from a live response that is cached for the very question: for the name and the
/// record type that are asked, and for the server that is selected. It is that response under the
/// id of the query.
pub proof fn law_answer_is_a_cached_response(
    executor: ExecutorView,
    request: RequestView,
    now: Instant,
    query: QueryView,
    answer: Seq<u8>,
)
    requires
        query_of(request.raw_message) == Ok::<QueryView, ErrorView>(query),
        executor.query_begun(request, now).0 == Ok::<QueryStepView, ErrorView>(
            QueryStepView::Answered(answer),
        ),
    ensures
        executor.cache_enabled,
        !request.disable_cache,
        exists|key: KeyView|
            {
                &&& #[trigger] executor.cache.entries.contains_key(key)
                &&& key.query_name == query.name
                &&& key.query_type == query.qtype
                &&& executor.router.client_selection(
                    query.name,
                    server_routes_of(executor.servers),
                ) matches Ok(selection)
                &&& key.selection_scope == selection.server_tag
                &&& now.nanos < executor.cache.entries[key].expires_at.nanos
                &&& answer.len() == executor.cache.entries[key].value.raw_message.len()
                &&& answer.len() >= 2
                &&& answer.skip(2) == executor.cache.entries[key].value.raw_message.skip(2)
                &&& answer[0] * 256 + answer[1] == query.id
            },
{
    let selection = executor.router.client_selection(
        query.name,
        server_routes_of(executor.servers),
    )->Ok_0;
    let key = cache_key(query.name, query.qtype, selection.candidate_server_tags);
    law_key_holds_the_question(
        query.name,
        query.qtype,
        selection.candidate_server_tags,
        selection.candidate_server_tags,
    );
    let message = executor.cache.entries[key].value.raw_message;
    law_rewrite_changes_id_only(message, query.id);
    assert(answer == with_id(message, query.id));
    assert(executor.cache.entries.contains_key(key));
}

/// A response answers no other question: once one response was cached in an empty cache, a client
/// that asks for another name or another record type is not answered from the cache, and neither is
/// a resolution of another name.
pub proof fn law_other_questions_are_not_answered(
    executor: ExecutorView,
    pending: PendingView,
    winner: Seq<char>,
    message: Seq<u8>,
    stored: Instant,
    request: RequestView,
    query: QueryView,
    domain: Seq<char>,
    port: u16,
    context: ContextView,
    asked: Instant,
)
    requires
        executor.cache.entries == Map::<KeyView, EntryView>::empty(),
        query_of(request.raw_message) == Ok::<QueryView, ErrorView>(query),
    ensures
        query.name != pending.query.name || query.qtype != pending.query.qtype ==> !(
        executor.finished(pending, winner, message, stored).query_begun(request, asked).0 matches Ok(
            QueryStepView::Answered(_),
        )),
        normalized(domain) != pending.query.name || pending.query.qtype != 1 ==> !(
        executor.finished(pending, winner, message, stored).resolution_begun(
            domain,
            port,
            context,
            asked,
        ).0 matches Ok(ResolveStepView::Answered(_))),
{
    let after = executor.finished(pending, winner, message, stored);
    let routes = server_routes_of(executor.servers);
    if query.name != pending.query.name || query.qtype != pending.query.qtype {
        if let Ok(selection) = executor.router.client_selection(query.name, routes) {
            let key = cache_key(query.name, query.qtype, selection.candidate_server_tags);
            lemma_other_key_is_missed(executor, pending, winner, message, stored, key, asked);
            if key == pending.key() {
                law_keys_tell_questions_apart(
                    query.name,
                    query.qtype,
                    selection.candidate_server_tags,
                    pending.query.name,
                    pending.query.qtype,
                    pending.selection.candidate_server_tags,
                );
            }
        }
    }
    if normalized(domain) != pending.query.name || pending.query.qtype != 1 {
        let id = (executor.next_query_id % 65536) as u16;
        if let Ok(Some(selection)) = executor.router.resolution_selection(context, routes) {
            if a_query(domain, id) is Ok {
                law_built_query_parses(domain, id);
                let key = cache_key(normalized(domain), 1, selection.candidate_server_tags);
                lemma_other_key_is_missed(executor, pending, winner, message, stored, key, asked);
                if key == pending.key() {
                    law_keys_tell_questions_apart(
                        normalized(domain),
                        1,
                        selection.candidate_server_tags,
                        pending.query.name,
                        pending.query.qtype,
                        pending.selection.candidate_server_tags,
                    );
                }
            }
        }
    }
}

proof fn lemma_other_key_is_missed(
    executor: ExecutorView,
    pending: PendingView,
    winner: Seq<char>,
    message: Seq<u8>,
    stored: Instant,
    key: KeyView,
    asked: Instant,
)
    requires
        executor.cache.entries == Map::<KeyView, EntryView>::empty(),
    ensures
        ({
            let after = executor.finished(pending, winner, message, stored);
            &&& after.router == executor.router
            &&& after.servers == executor.servers
            &&& after.next_query_id == executor.next_query_id
            &&& key != pending.key() ==> after.cache.found(key, asked) is Miss
        }),
{
    if key != pending.key() {
        if let Ok(Some(secs)) = response_ttl(message, pending.query.qtype) {
            let value = ValueView {
                raw_message: message,
                stored_server_tag: winner,
                ttl: Duration { nanos: (secs * 1_000_000_000) as u128 },
            };
            law_nothing_is_found_unstored(
                executor.cache,
                pending.key(),
                value,
                stored,
                key,
                asked,
            );
        }
    }
}

/// A response that reports a lifetime answers the next client that asks the same: where a query
/// went out and was finished with a message, a later query for the same name and record type is
/// given that message, under its own id, until the lifetime has passed since the message came. Once
/// the tick counter of the cache is spent, uses can no longer be told apart, so the law speaks of a
/// counter that is not.
pub proof fn law_next_client_is_answered_from_the_cache(
    executor: ExecutorView,
    request: RequestView,
    begun: Instant,
    pending: PendingView,
    winner: Seq<char>,
    message: Seq<u8>,
    stored: Instant,
    secs: u32,
    again: RequestView,
    query: QueryView,
    asked: Instant,
)
    requires
        executor.cache.valid(),
        executor.cache_enabled,
        executor.cache.capacity >= 1,
        executor.cache.next_tick < u64::MAX,
        executor.query_begun(request, begun).0 == Ok::<QueryStepView, ErrorView>(
            QueryStepView::Exchange(pending),
        ),
        !pending.disable_cache,
        response_ttl(message, pending.query.qtype) == Ok::<Option<u32>, ErrorView>(Some(secs)),
        stored.nanos + secs * 1_000_000_000 <= u128::MAX,
        query_of(again.raw_message) == Ok::<QueryView, ErrorView>(query),
        query.name == pending.query.name,
        query.qtype == pending.query.qtype,
        !again.disable_cache,
        asked.nanos < stored.nanos + secs * 1_000_000_000,
    ensures
        executor.query_begun(request, begun).1.finished(pending, winner, message, stored).query_begun(
            again,
            asked,
        ).0 == Ok::<QueryStepView, ErrorView>(
            QueryStepView::Answered(with_id(message, query.id)),
        ),
{
    let middle = executor.query_begun(request, begun).1;
    let routes = server_routes_of(executor.servers);
    let first = query_of(request.raw_message)->Ok_0;
    let selection = executor.router.client_selection(first.name, routes)->Ok_0;
    let key = cache_key(first.name, first.qtype, selection.candidate_server_tags);
    lemma_miss_keeps_the_cache(executor.cache, key, begun);
    assert(pending.key() == key);
    lemma_stored_response_is_found(middle, pending, winner, message, stored, secs, asked);
}

/// A response with a lifetime serves the next resolution of the same name in the same context: it is
/// given the addresses of the message that came, on its own port, until the lifetime has passed.
/// Once the tick counter of the cache is spent, uses can no longer be told apart, so the law speaks
/// of a counter that is not.
pub proof fn law_next_resolution_is_answered_from_the_cache(
    executor: ExecutorView,
    domain: Seq<char>,
    port: u16,
    context: ContextView,
    begun: Instant,
    pending: PendingView,
    winner: Seq<char>,
    message: Seq<u8>,
    stored: Instant,
    secs: u32,
    again: Seq<char>,
    other_port: u16,
    asked: Instant,
)
    requires
        executor.cache.valid(),
        executor.cache_enabled,
        executor.cache.capacity >= 1,
        executor.cache.next_tick < u64::MAX,
        executor.resolution_begun(domain, port, context, begun).0 == Ok::<
            ResolveStepView,
            ErrorView,
        >(ResolveStepView::Exchange(pending)),
        !pending.disable_cache,
        response_ttl(message, 1) == Ok::<Option<u32>, ErrorView>(Some(secs)),
        response_ips(message) is Ok,
        stored.nanos + secs * 1_000_000_000 <= u128::MAX,
        normalized(again) == normalized(domain),
        asked.nanos < stored.nanos + secs * 1_000_000_000,
    ensures
        ({
            let finished = executor.resolution_begun(domain, port, context, begun).1.finished(
                pending,
                winner,
                message,
                stored,
            );
            let ips = response_ips(message)->Ok_0;
            &&& finished.resolution_begun(again, other_port, context, asked).0 matches Ok(
                ResolveStepView::Answered(addresses),
            )
            &&& addresses.len() == ips.len()
            &&& forall|i: int|
                0 <= i < ips.len() ==> (#[trigger] addresses[i]).ip == ips[i] && addresses[i].port
                    == other_port
        }),
{
    let middle = executor.resolution_begun(domain, port, context, begun).1;
    let routes = server_routes_of(executor.servers);
    let selection = executor.router.resolution_selection(context, routes)->Ok_0->Some_0;
    let id = (executor.next_query_id % 65536) as u16;
    law_built_query_parses(domain, id);
    let key = cache_key(normalized(domain), 1, selection.candidate_server_tags);
    lemma_miss_keeps_the_cache(executor.cache, key, begun);
    assert(pending.key() == key);
    lemma_stored_response_is_found(middle, pending, winner, message, stored, secs, asked);
    let next = (middle.next_query_id % 65536) as u16;
    law_query_layout(domain, id);
    law_query_layout(again, next);
    assert(a_query(again, next) is Ok);
    law_built_query_parses(again, next);
}

/// A lookup that is no hit leaves the cache valid and its ticks alone.
proof fn lemma_miss_keeps_the_cache(c: CacheView, key: KeyView, now: Instant)
    requires
        c.valid(),
        !(c.found(key, now) is Hit),
    ensures
        c.after_lookup(key, now).valid(),
        c.after_lookup(key, now).capacity == c.capacity,
        c.after_lookup(key, now).next_tick == c.next_tick,
{
    let d = c.after_lookup(key, now);
    assert forall|k: KeyView| #[trigger] d.entries.contains_key(k) implies d.lru.contains(
        (k, d.entries[k].lru_tick),
    ) by {
        assert(c.entries.contains_key(k));
    }
}

/// A resolution that the cache does not answer is put to every candidate: each is asked for the IPv4
/// addresses of the domain in its canonical form, at its own destination, under the number of the
/// query and with the domain noted; the race is for addresses on the port that is dialed.
pub proof fn law_resolution_asks_every_candidate(
    executor: ExecutorView,
    domain: Seq<char>,
    port: u16,
    context: ContextView,
    now: Instant,
    pending: PendingView,
    i: int,
)
    requires
        executor.resolution_begun(domain, port, context, now).0 == Ok::<
            ResolveStepView,
            ErrorView,
        >(ResolveStepView::Exchange(pending)),
    ensures
        pending.query_id == executor.next_query_id,
        pending.query.name == normalized(domain),
        pending.query.qtype == 1,
        pending.disable_cache == context.disable_cache,
        executor.router.resolution_selection(context, server_routes_of(executor.servers)) == Ok::<
            Option<SelectionView>,
            ErrorView,
        >(Some(pending.selection)),
        pending.requests.len() == pending.selection.candidate_server_tags.len(),
        pending.requests.len() > 0,
        0 <= i < pending.requests.len() ==> {
            let (tag, asked) = pending.requests[i];
            &&& tag == pending.selection.candidate_server_tags[i]
            &&& server_tagged(executor.servers, tag) matches Some(found)
            &&& asked.destination == found.server.destination@
            &&& asked.session_id == Some(executor.next_query_id)
            &&& asked.resolution_domain == Some(domain)
            &&& query_of(asked.raw_message) == Ok::<QueryView, ErrorView>(
                QueryView {
                    id: (executor.next_query_id % 65536) as u16,
                    name: normalized(domain),
                    qtype: 1,
                },
            )
        },
        pending.race.kind == QueryKind::DialSideResolve(port),
        pending.race.query_name == normalized(domain),
        pending.race.candidates == pending.selection.candidate_server_tags,
        pending.race.pending == pending.selection.candidate_server_tags,
        pending.race.failures.len() == 0,
{
    let id = (executor.next_query_id % 65536) as u16;
    let raw = a_query(domain, id)->Ok_0;
    law_built_query_parses(domain, id);
    let ask = |s: DnsServer|
        resolution_upstream_request(domain, s, raw, executor.next_query_id, context);
    law_every_candidate_is_asked(
        executor.servers,
        pending.selection.candidate_server_tags,
        ask,
    );
    if 0 <= i < pending.requests.len() {
        assert(pending.requests[i].0 == pending.selection.candidate_server_tags[i]);
    }
}

/// A name is resolved for the sake of resolving a name less than four levels deep: from there on it
/// is refused as a resolution error before a server is chosen. It is refused likewise where no
/// server is safe. Neither changes anything. Any other resolution spends a number and is looked up
/// in the cache unless that is switched off or the domain cannot be asked for.
pub proof fn law_resolution_is_refused_or_looked_up(
    executor: ExecutorView,
    domain: Seq<char>,
    port: u16,
    context: ContextView,
    now: Instant,
)
    ensures
        context.recursion_depth >= 4 ==> {
            let (outcome, after) = executor.resolution_begun(domain, port, context, now);
            (outcome matches Err(e) && e.kind == ErrorKind::Resolve && e.message
                == "domain resolver recursion depth exceeded for "@ + domain + ":"@ + decimal(
                port as nat,
            ) + " at depth "@ + decimal(context.recursion_depth as nat)) && after == executor
        },
        context.recursion_depth < 4 ==> match executor.router.resolution_selection(
            context,
            server_routes_of(executor.servers),
        ) {
            Err(e) => executor.resolution_begun(domain, port, context, now) == (
                Err::<ResolveStepView, ErrorView>(e),
                executor,
            ),
            Ok(None) => {
                let (outcome, after) = executor.resolution_begun(domain, port, context, now);
                (outcome matches Err(e) && e.kind == ErrorKind::Resolve && e.message
                    == "no safe dns server available for dial-side resolution of "@ + domain)
                    && after == executor
            },
            Ok(Some(selection)) => {
                let (outcome, after) = executor.resolution_begun(domain, port, context, now);
                let id = (executor.next_query_id % 65536) as u16;
                &&& a_query(domain, id) matches Err(e) ==> outcome == Err::<
                    ResolveStepView,
                    ErrorView,
                >(e) && after.cache == executor.cache
                &&& a_query(domain, id) is Ok ==> after.cache == if !executor.cache_enabled
                    || context.disable_cache {
                    executor.cache
                } else {
                    executor.cache.after_lookup(
                        cache_key(normalized(domain), 1, selection.candidate_server_tags),
                        now,
                    )
                }
                &&& after.router == executor.router
                &&& after.servers == executor.servers
                &&& after.cache_enabled == executor.cache_enabled
                &&& executor.next_query_id < u64::MAX ==> after.next_query_id
                    == executor.next_query_id + 1
                &&& executor.next_query_id == u64::MAX ==> after.next_query_id == 0
            },
        },
{
    let id = (executor.next_query_id % 65536) as u16;
    if a_query(domain, id) is Ok {
        law_built_query_parses(domain, id);
    }
}

/// A configuration is accepted exactly where no tag is given twice and every server that is
/// supported and has a detour has one that the catalog knows. What is wrong with its first servers
/// is what is wrong with all, and it is a configuration error.
pub proof fn law_configuration_faults(servers: Seq<DnsServer>, catalog: CatalogView, n: int)
    ensures
        first_fault(servers, catalog) is None <==> (forall|i: int|
            0 <= i < servers.len() && !((#[trigger] servers[i]).transport is Unsupported)
                && servers[i].dial.detour is Some ==> catalog.outbounds.contains_key(
                servers[i].dial.detour->Some_0@,
            )) && (forall|i: int, j: int|
            0 <= i < j < servers.len() ==> (#[trigger] servers[i]).tag@ != (
            #[trigger] servers[j]).tag@),
        first_fault(servers, catalog) matches Some(e) ==> e.kind == ErrorKind::Config,
        0 <= n <= servers.len() && first_fault(servers.take(n), catalog) is Some ==> first_fault(
            servers,
            catalog,
        ) == first_fault(servers.take(n), catalog),
    decreases servers.len(),
{
    if 0 <= n <= servers.len() && first_fault(servers.take(n), catalog) is Some {
        lemma_first_fault_stays(servers, n, catalog);
    }
    if servers.len() > 0 {
        let front = servers.drop_last();
        let last = servers.last();
        law_configuration_faults(front, catalog, 0);
        assert(servers[servers.len() - 1] == last);
        assert forall|i: int| 0 <= i < front.len() implies #[trigger] servers[i] == front[i] by {}
        if first_fault(servers, catalog) is None {
            assert forall|i: int, j: int| 0 <= i < j < servers.len() implies (
            #[trigger] servers[i]).tag@ != (#[trigger] servers[j]).tag@ by {
                assert(front[i] == servers[i]);
                if j < front.len() {
                    assert(front[j] == servers[j]);
                }
            }
        } else {
            if first_fault(front, catalog) is None {
                if exists|i: int| 0 <= i < front.len() && (#[trigger] front[i]).tag@ == last.tag@ {
                    let k = choose|i: int|
                        0 <= i < front.len() && (#[trigger] front[i]).tag@ == last.tag@;
                    assert(servers[k].tag@ == servers[servers.len() - 1].tag@);
                }
            } else if forall|i: int, j: int|
                0 <= i < j < servers.len() ==> (#[trigger] servers[i]).tag@ != (
                #[trigger] servers[j]).tag@ {
                assert forall|i: int, j: int| 0 <= i < j < front.len() implies (
                #[trigger] front[i]).tag@ != (#[trigger] front[j]).tag@ by {
                    assert(front[i] == servers[i] && front[j] == servers[j]);
                }
                let k = choose|i: int|
                    0 <= i < front.len() && !((#[trigger] front[i]).transport is Unsupported)
                        && front[i].dial.detour is Some && !catalog.outbounds.contains_key(
                        front[i].dial.detour->Some_0@,
                    );
                assert(servers[k] == front[k]);
            }
        }
    }
}

/// A server of a running executor is queried as it is configured: an answer is waited for five
/// seconds, and a server that is dialed is dialed under its own tag and settings, through the
/// outbound its detour names.
pub proof fn law_server_is_built_for_its_configuration(
    runtime: DnsServerRuntime,
    catalog: CatalogView,
)
    requires
        built_for(runtime, catalog),
    ensures
        runtime.server.transport is Local ==> (runtime.upstream matches Upstream::Local(u)
            && u.query_timeout.nanos == 5_000_000_000),
        runtime.server.transport is Udp ==> (runtime.upstream matches Upstream::Udp(u)
            && u.query_timeout.nanos == 5_000_000_000 && u.destination@
            == runtime.server.destination@ && u.dialer@.server_tag == runtime.server.tag@
            && u.dialer@.dial == runtime.server.dial@ && Some(u.dialer@.outbound)
            == detour_outbound(catalog, runtime.server.dial@.detour)),
        runtime.server.transport is Tcp ==> (runtime.upstream matches Upstream::Tcp(u)
            && u.query_timeout.nanos == 5_000_000_000 && u.destination@
            == runtime.server.destination@ && u.dialer@.server_tag == runtime.server.tag@
            && u.dialer@.dial == runtime.server.dial@ && Some(u.dialer@.outbound)
            == detour_outbound(catalog, runtime.server.dial@.detour)),
        runtime.server.transport is Tls ==> (runtime.upstream matches Upstream::Tls(u)
            && u.query_timeout.nanos == 5_000_000_000 && u.destination@
            == runtime.server.destination@ && u.dialer@.server_tag == runtime.server.tag@
            && u.dialer@.dial == runtime.server.dial@ && Some(u.dialer@.outbound)
            == detour_outbound(catalog, runtime.server.dial@.detour)),
        runtime.server.transport is Https ==> (runtime.upstream matches Upstream::Https(u)
            && u.query_timeout.nanos == 5_000_000_000 && u.destination@
            == runtime.server.destination@ && u.dialer@.server_tag == runtime.server.tag@
            && u.dialer@.dial == runtime.server.dial@ && Some(u.dialer@.outbound)
            == detour_outbound(catalog, runtime.server.dial@.detour)),
        runtime.server.transport is Unsupported ==> runtime.upstream is Unsupported,
{
}

/// The router knows every server by its tag and by the outbound it is reached through, in the order
/// in which the servers are configured.
pub proof fn law_router_knows_every_server(servers: Seq<DnsServerRuntime>)
    ensures
        server_routes_of(servers).len() == servers.len(),
        forall|i: int|
            0 <= i < servers.len() ==> (#[trigger] server_routes_of(servers)[i]).tag
                == servers[i].server.tag@ && server_routes_of(servers)[i].detour == if servers[i].server.transport is Unsupported {
                None
            } else {
                match servers[i].server.dial.detour {
                    Some(detour) => Some(detour@),
                    None => Some("direct"@),
                }
            },
{
}

/// A view shows every field of its value, and the requests of a query show each of them, in order.
pub proof fn law_query_views_show_everything(
    pending: PendingQuery,
    query: QueryStep,
    resolution: ResolveStep,
)
    ensures
        pending@.query_id == pending.query_id,
        pending@.query == pending.query@,
        pending@.selection == pending.selection@,
        pending@.disable_cache == pending.disable_cache,
        pending@.race == pending.race@,
        pending@.requests.len() == pending.requests@.len(),
        forall|i: int|
            0 <= i < pending.requests@.len() ==> (#[trigger] pending@.requests[i]).0
                == pending.requests@[i].server_tag@ && pending@.requests[i].1
                == pending.requests@[i].request@,
        match query {
            QueryStep::Answered(response) => query@ == QueryStepView::Answered(
                response.raw_message@,
            ),
            QueryStep::Exchange(asked) => query@ == QueryStepView::Exchange(asked@),
        },
        match resolution {
            ResolveStep::Answered(addresses) => resolution@ == ResolveStepView::Answered(
                socket_views(addresses@),
            ),
            ResolveStep::Exchange(asked) => resolution@ == ResolveStepView::Exchange(asked@),
        },
{
}

/// A response is cached as it came: under the name, the record type and the candidates of the query,
/// with the server that gave it, for the lifetime that it reports. It is found until that has
/// passed, and has expired from then on. Once the tick counter of the cache is spent, uses can no
/// longer be told apart, so the law speaks of a counter that is not.
pub proof fn law_response_is_cached_as_it_came(
    executor: ExecutorView,
    pending: PendingView,
    winner: Seq<char>,
    message: Seq<u8>,
    stored: Instant,
    secs: u32,
    asked: Instant,
)
    requires
        executor.cache.valid(),
        executor.cache_enabled,
        executor.cache.capacity >= 1,
        executor.cache.next_tick < u64::MAX,
        !pending.disable_cache,
        response_ttl(message, pending.query.qtype) == Ok::<Option<u32>, ErrorView>(Some(secs)),
        stored.nanos + secs * 1_000_000_000 <= u128::MAX,
    ensures
        ({
            let after = executor.finished(pending, winner, message, stored);
            let found = after.cache.found(
                cache_key(
                    pending.query.name,
                    pending.query.qtype,
                    pending.selection.candidate_server_tags,
                ),
                asked,
            );
            &&& after.router == executor.router
            &&& after.servers == executor.servers
            &&& after.cache_enabled == executor.cache_enabled
            &&& after.next_query_id == executor.next_query_id
            &&& asked.nanos < stored.nanos + secs * 1_000_000_000 ==> (found matches LookupView::Hit(
                value,
            ) && value.raw_message == message && value.stored_server_tag == winner
                && value.ttl.nanos == secs * 1_000_000_000)
            &&& asked.nanos >= stored.nanos + secs * 1_000_000_000 ==> found is Expired
        }),
{
    let value = ValueView {
        raw_message: message,
        stored_server_tag: winner,
        ttl: Duration { nanos: (secs * 1_000_000_000) as u128 },
    };
    law_least_ttl(answers_of(message)->Ok_0, pending.query.qtype);
    law_lookup_after_store(executor.cache, pending.key(), value, stored, asked);
}

/// A response that has expired answers nobody: a client that asks the same once the lifetime has
/// passed has its query put to the server again.
pub proof fn law_expired_response_is_asked_for_again(
    executor: ExecutorView,
    pending: PendingView,
    winner: Seq<char>,
    message: Seq<u8>,
    stored: Instant,
    secs: u32,
    request: RequestView,
    query: QueryView,
    selection: SelectionView,
    asked: Instant,
)
    requires
        executor.cache.valid(),
        executor.cache_enabled,
        executor.cache.capacity >= 1,
        executor.cache.next_tick < u64::MAX,
        !pending.disable_cache,
        response_ttl(message, pending.query.qtype) == Ok::<Option<u32>, ErrorView>(Some(secs)),
        stored.nanos + secs * 1_000_000_000 <= u128::MAX,
        query_of(request.raw_message) == Ok::<QueryView, ErrorView>(query),
        query.name == pending.query.name,
        query.qtype == pending.query.qtype,
        executor.router.client_selection(query.name, server_routes_of(executor.servers)) == Ok::<
            SelectionView,
            ErrorView,
        >(selection),
        selection.candidate_server_tags == pending.selection.candidate_server_tags,
        asked.nanos >= stored.nanos + secs * 1_000_000_000,
    ensures
        executor.finished(pending, winner, message, stored).query_begun(request, asked).0 matches Ok(
            QueryStepView::Exchange(_),
        ),
{
    law_response_is_cached_as_it_came(executor, pending, winner, message, stored, secs, asked);
    let after = executor.finished(pending, winner, message, stored);
    law_unanswered_query_is_asked(after, request, asked, query, selection);
}

/// Addresses that are known without asking come from a live response that is cached for the
/// canonical name, for IPv4 addresses and for the candidates that are selected: all addresses of
/// that response, in order, on the port that is dialed.
pub proof fn law_known_addresses_are_cached_ones(
    executor: ExecutorView,
    domain: Seq<char>,
    port: u16,
    context: ContextView,
    now: Instant,
    addresses: Seq<SocketView>,
)
    requires
        executor.resolution_begun(domain, port, context, now).0 == Ok::<
            ResolveStepView,
            ErrorView,
        >(ResolveStepView::Answered(addresses)),
    ensures
        executor.cache_enabled,
        !context.disable_cache,
        context.recursion_depth < 4,
        exists|key: KeyView|
            {
                &&& #[trigger] executor.cache.entries.contains_key(key)
                &&& key.query_name == normalized(domain)
                &&& key.query_type == 1
                &&& executor.router.resolution_selection(
                    context,
                    server_routes_of(executor.servers),
                ) matches Ok(Some(selection))
                &&& key.selection_scope == joined(selection.candidate_server_tags, seq![','])
                &&& now.nanos < executor.cache.entries[key].expires_at.nanos
                &&& response_ips(executor.cache.entries[key].value.raw_message) matches Ok(ips)
                &&& addresses.len() == ips.len()
                &&& forall|i: int|
                    0 <= i < ips.len() ==> (#[trigger] addresses[i]).ip == ips[i]
                        && addresses[i].port == port
            },
{
    let id = (executor.next_query_id % 65536) as u16;
    law_built_query_parses(domain, id);
    let selection = executor.router.resolution_selection(
        context,
        server_routes_of(executor.servers),
    )->Ok_0->Some_0;
    let key = cache_key(normalized(domain), 1, selection.candidate_server_tags);
    assert(executor.cache.entries.contains_key(key));
}

/// A resolution that is not too deep, for which servers are selected and whose domain can be asked
/// for, is put to the candidates wherever the cache does not answer it.
pub proof fn law_unanswered_resolution_is_asked(
    executor: ExecutorView,
    domain: Seq<char>,
    port: u16,
    context: ContextView,
    now: Instant,
    selection: SelectionView,
)
    requires
        context.recursion_depth < 4,
        executor.router.resolution_selection(context, server_routes_of(executor.servers)) == Ok::<
            Option<SelectionView>,
            ErrorView,
        >(Some(selection)),
        normalized(domain).len() > 0,
        forall|i: int|
            0 <= i < split(normalized(domain), '.').len() ==> 1 <= encode_utf8(
                #[trigger] split(normalized(domain), '.')[i],
            ).len() <= 63,
        !executor.cache_enabled || context.disable_cache || !(executor.cache.found(
            cache_key(normalized(domain), 1, selection.candidate_server_tags),
            now,
        ) is Hit),
    ensures
        executor.resolution_begun(domain, port, context, now).0 matches Ok(
            ResolveStepView::Exchange(_),
        ),
{
    let id = (executor.next_query_id % 65536) as u16;
    law_query_layout(domain, id);
    assert(a_query(domain, id) is Ok);
    law_built_query_parses(domain, id);
    let raw = a_query(domain, id)->Ok_0;
    let routes = server_routes_of(executor.servers);
    let tags = selection.candidate_server_tags;
    let ask = |s: DnsServer|
        resolution_upstream_request(domain, s, raw, executor.next_query_id, context);
    law_every_candidate_is_asked(executor.servers, tags, ask);
    assert forall|i: int| 0 <= i < tags.len() implies server_tagged(
        executor.servers,
        #[trigger] tags[i],
    ) is Some by {
        lemma_routed_server(executor.servers, tags[i]);
        if context.explicit_server_tag is None {
            assert(tags.contains(tags[i]));
            law_resolution_candidates_are_safe(executor.router, context, routes, tags[i]);
        }
    }
    if context.explicit_server_tag is None {
        assert(tags.len() > 0);
    }
    assert(candidate_requests(executor.servers, tags, ask) is Ok);
}

} // verus!
