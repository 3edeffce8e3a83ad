//! Which DNS servers answer a query.

use vstd::prelude::*;
use vstd::string::*;

use crate::dns::types::{DnsRouteReason, DnsRule, DnsSelection, RuleView, SelectionView};
use crate::error::{config_error, ErrorKind, ErrorView, ProxyError, Result};
use crate::session::{ContextView, ResolveContext};
use crate::text::{is_some_text, normalize_domain, normalized, same_text, texts};

verus! {

/// A server as the router sees it: its tag and the outbound it is reached through.
#[derive(Clone, Copy, Debug, PartialEq, Eq)]
pub struct DnsServerRoute<'a> {
    pub tag: &'a str,
    pub detour: Option<&'a str>,
}

/// A server route as mathematical values.
#[verifier::ext_equal]
pub struct RouteView {
    pub tag: Seq<char>,
    pub detour: Option<Seq<char>>,
}

impl<'a> View for DnsServerRoute<'a> {
    type V = RouteView;

    open spec fn view(&self) -> RouteView {
        RouteView {
            tag: self.tag@,
            detour: match self.detour {
                Some(detour) => Some(detour@),
                None => None,
            },
        }
    }
}

/// The routes as mathematical values.
pub open spec fn route_views<'a>(servers: Seq<DnsServerRoute<'a>>) -> Seq<RouteView> {
    servers.map_values(|s: DnsServerRoute<'a>| s@)
}

/// Selects DNS servers by rules, with a server of last resort.
#[derive(Debug)]
pub struct DnsRouter {
    final_server_tag: String,
    rules: Vec<DnsRule>,
}

/// The router as mathematical values.
#[verifier::ext_equal]
pub struct RouterView {
    pub final_server_tag: Seq<char>,
    pub rules: Seq<RuleView>,
}

/// The rules as mathematical values.
pub open spec fn rule_views(rules: Seq<DnsRule>) -> Seq<RuleView> {
    rules.map_values(|r: DnsRule| r@)
}

impl View for DnsRouter {
    type V = RouterView;

    closed spec fn view(&self) -> RouterView {
        RouterView { final_server_tag: self.final_server_tag@, rules: rule_views(self.rules@) }
    }
}

/// Whether a server with this tag exists.
pub open spec fn has_server(servers: Seq<RouteView>, tag: Seq<char>) -> bool {
    exists|i: int| 0 <= i < servers.len() && (#[trigger] servers[i]).tag == tag
}

/// The first rule that lists `domain`.
pub open spec fn first_rule(rules: Seq<RuleView>, domain: Seq<char>) -> Option<RuleView>
    decreases rules.len(),
{
    if rules.len() == 0 {
        None
    } else if rules[0].domain.contains(domain) {
        Some(rules[0])
    } else {
        first_rule(rules.drop_first(), domain)
    }
}

/// The selection of one existing server.
pub open spec fn single_selection(
    servers: Seq<RouteView>,
    tag: Seq<char>,
    reason: DnsRouteReason,
    disable_cache: bool,
) -> core::result::Result<SelectionView, ErrorView> {
    if has_server(servers, tag) {
        Ok(
            SelectionView {
                server_tag: tag,
                candidate_server_tags: seq![tag],
                reason,
                disable_cache,
            },
        )
    } else {
        Err(config_error("missing dns server tag: "@ + tag))
    }
}

/// Whether a server may resolve a name for `context`: it is not the server that is being dialed,
/// and it is not reached through the outbound that asks.
pub open spec fn is_safe(server: RouteView, context: ContextView) -> bool {
    &&& context.caller_dns_server_tag != Some(server.tag)
    &&& !(context.caller_outbound_tag is Some && server.detour is Some
        && context.caller_outbound_tag == server.detour)
}

/// The tags of the safe servers other than `last_resort` that are reached directly (or otherwise),
/// in order.
pub open spec fn safe_tags(
    servers: Seq<RouteView>,
    context: ContextView,
    last_resort: Seq<char>,
    direct: bool,
) -> Seq<Seq<char>>
    decreases servers.len(),
{
    if servers.len() == 0 {
        seq![]
    } else {
        let front = safe_tags(servers.drop_last(), context, last_resort, direct);
        let server = servers.last();
        if is_safe(server, context) && server.tag != last_resort && direct == (server.detour
            == Some("direct"@)) {
            front.push(server.tag)
        } else {
            front
        }
    }
}

/// The first server with the tag `tag`.
pub open spec fn first_server(servers: Seq<RouteView>, tag: Seq<char>) -> Option<RouteView>
    decreases servers.len(),
{
    if servers.len() == 0 {
        None
    } else if servers[0].tag == tag {
        Some(servers[0])
    } else {
        first_server(servers.drop_first(), tag)
    }
}

impl RouterView {
    /// The server for a client's query about `domain`: that of the first rule that lists the
    /// canonical form of the domain, else the server of last resort.
    pub open spec fn client_selection(
        self,
        domain: Seq<char>,
        servers: Seq<RouteView>,
    ) -> core::result::Result<SelectionView, ErrorView> {
        match first_rule(self.rules, normalized(domain)) {
            Some(rule) => single_selection(
                servers,
                rule.server_tag,
                DnsRouteReason::Rule,
                rule.disable_cache,
            ),
            None => single_selection(
                servers,
                self.final_server_tag,
                DnsRouteReason::Final,
                false,
            ),
        }
    }

    /// The safe servers in order of preference, without the server of last resort.
    pub open spec fn safe_defaults(self, context: ContextView, servers: Seq<RouteView>) -> Seq<
        Seq<char>,
    > {
        safe_tags(servers, context, self.final_server_tag, true) + safe_tags(
            servers,
            context,
            self.final_server_tag,
            false,
        )
    }

    /// The servers that resolve a name in `context`.
    ///
    /// An explicit server stands alone. Otherwise every safe server is a candidate: the server of
    /// last resort first, then the servers reached directly, then the others.
    pub open spec fn resolution_selection(
        self,
        context: ContextView,
        servers: Seq<RouteView>,
    ) -> core::result::Result<Option<SelectionView>, ErrorView> {
        match context.explicit_server_tag {
            Some(tag) => if has_server(servers, tag) {
                Ok(
                    Some(
                        SelectionView {
                            server_tag: tag,
                            candidate_server_tags: seq![tag],
                            reason: DnsRouteReason::ExplicitResolver,
                            disable_cache: context.disable_cache,
                        },
                    ),
                )
            } else {
                Err(
                    config_error(
                        "explicit domain_resolver points to missing dns server tag: "@ + tag,
                    ),
                )
            },
            None => {
                let rest = self.safe_defaults(context, servers);
                match first_server(servers, self.final_server_tag) {
                    Some(server) if is_safe(server, context) => Ok(
                        Some(
                            SelectionView {
                                server_tag: self.final_server_tag,
                                candidate_server_tags: seq![self.final_server_tag] + rest,
                                reason: DnsRouteReason::Final,
                                disable_cache: context.disable_cache,
                            },
                        ),
                    ),
                    _ => if rest.len() == 0 {
                        Ok(None)
                    } else {
                        Ok(
                            Some(
                                SelectionView {
                                    server_tag: rest[0],
                                    candidate_server_tags: rest,
                                    reason: DnsRouteReason::SafeDefault,
                                    disable_cache: context.disable_cache,
                                },
                            ),
                        )
                    },
                }
            },
        }
    }
}

fn lists(domains: &Vec<String>, domain: &str) -> (r: bool)
    ensures
        r == texts(domains@).contains(domain@),
{
    let mut i: usize = 0;
    while i < domains.len()
        invariant
            i <= domains@.len(),
            forall|j: int| 0 <= j < i ==> texts(domains@)[j] != domain@,
        decreases domains@.len() - i,
    {
        if same_text(domains[i].as_str(), domain) {
            assert(texts(domains@)[i as int] == domain@);
            return true;
        }
        i += 1;
    }
    false
}

fn is_safe_for_context(server: &DnsServerRoute<'_>, context: &ResolveContext) -> (r: bool)
    ensures
        r == is_safe(server@, context@),
{
    if is_some_text(&context.caller_dns_server_tag, server.tag) {
        return false;
    }
    if let Some(detour) = server.detour {
        if is_some_text(&context.caller_outbound_tag, detour) {
            return false;
        }
    }
    true
}

impl DnsRouter {
    /// A router with a server of last resort and rules in order of precedence.
    pub fn new(final_server_tag: &str, rules: Vec<DnsRule>) -> (r: Self)
        ensures
            r@ == (RouterView { final_server_tag: final_server_tag@, rules: rule_views(rules@) }),
    {
        DnsRouter { final_server_tag: final_server_tag.to_owned(), rules }
    }

    /// The server for a client's query about `domain`.
    pub fn select_client_upstream(
        &self,
        domain: &str,
        servers: &[DnsServerRoute<'_>],
    ) -> (r: Result<DnsSelection>)
        ensures
            match self@.client_selection(domain@, route_views(servers@)) {
                Ok(selection) => r matches Ok(s) && s@ == selection,
                Err(e) => r matches Err(err) && err@ == e,
            },
    {
        let canonical = normalize_domain(domain);
        let ghost rules = self@.rules;
        let mut i: usize = 0;
        assert(rules.skip(0) =~= rules);
        while i < self.rules.len()
            invariant
                i <= self.rules@.len(),
                rules == self@.rules,
                canonical@ == normalized(domain@),
                first_rule(rules, canonical@) == first_rule(rules.skip(i as int), canonical@),
            decreases self.rules@.len() - i,
        {
            let rule = &self.rules[i];
            assert(rules.skip(i as int)[0] == rule@);
            assert(rules.skip(i as int).drop_first() =~= rules.skip(i + 1));
            if lists(&rule.domain, canonical.as_str()) {
                return self.selection_for_tag(
                    rule.server_tag.as_str(),
                    DnsRouteReason::Rule,
                    rule.disable_cache,
                    servers,
                );
            }
            i += 1;
        }
        self.selection_for_tag(
            self.final_server_tag.as_str(),
            DnsRouteReason::Final,
            false,
            servers,
        )
    }

    /// The servers that resolve a name in `context`, or none where no server is safe.
    pub fn select_resolution_upstream(
        &self,
        context: &ResolveContext,
        servers: &[DnsServerRoute<'_>],
    ) -> (r: Result<Option<DnsSelection>>)
        ensures
            match self@.resolution_selection(context@, route_views(servers@)) {
                Ok(Some(selection)) => r matches Ok(Some(s)) && s@ == selection,
                Ok(None) => r matches Ok(None),
                Err(e) => r matches Err(err) && err@ == e,
            },
    {
        let ghost all = route_views(servers@);
        if let Some(server_tag) = &context.explicit_server_tag {
            if self.find_server(servers, server_tag.as_str()).is_none() {
                return Err(
                    ProxyError::config(
                        "explicit domain_resolver points to missing dns server tag: ".to_owned()
                            .concat(server_tag.as_str())
                            .as_str(),
                    ),
                );
            }
            let mut candidates: Vec<String> = Vec::new();
            candidates.push(server_tag.clone());
            assert(texts(candidates@) =~= seq![server_tag@]);
            return Ok(
                Some(
                    DnsSelection {
                        server_tag: server_tag.clone(),
                        candidate_server_tags: candidates,
                        reason: DnsRouteReason::ExplicitResolver,
                        disable_cache: context.disable_cache,
                    },
                ),
            );
        }
        let mut safe_direct: Vec<String> = Vec::new();
        let mut safe_other: Vec<String> = Vec::new();
        let ghost last_resort = self.final_server_tag@;
        let mut i: usize = 0;
        while i < servers.len()
            invariant
                i <= servers@.len(),
                all == route_views(servers@),
                last_resort == self.final_server_tag@,
                texts(safe_direct@) == safe_tags(all.take(i as int), context@, last_resort, true),
                texts(safe_other@) == safe_tags(all.take(i as int), context@, last_resort, false),
            decreases servers@.len() - i,
        {
            let server = &servers[i];
            let ghost direct_before = texts(safe_direct@);
            let ghost other_before = texts(safe_other@);
            proof {
                assert(all.take(i + 1).drop_last() =~= all.take(i as int));
                assert(all.take(i + 1).last() == server@);
            }
            if is_safe_for_context(server, context) && !same_text(
                server.tag,
                self.final_server_tag.as_str(),
            ) {
                let direct = match server.detour {
                    Some(detour) => same_text(detour, "direct"),
                    None => false,
                };
                if direct {
                    safe_direct.push(server.tag.to_owned());
                    assert(texts(safe_direct@) =~= direct_before.push(server.tag@));
                } else {
                    safe_other.push(server.tag.to_owned());
                    assert(texts(safe_other@) =~= other_before.push(server.tag@));
                }
            }
            i += 1;
        }
        assert(all.take(i as int) =~= all);
        let ghost rest = self@.safe_defaults(context@, all);
        let final_server = self.find_server(servers, self.final_server_tag.as_str());
        if let Some(index) = final_server {
            if is_safe_for_context(&servers[index], context) {
                let mut candidates: Vec<String> = Vec::new();
                candidates.push(self.final_server_tag.clone());
                candidates.append(&mut safe_direct);
                candidates.append(&mut safe_other);
                assert(texts(candidates@) =~= seq![last_resort] + rest);
                return Ok(
                    Some(
                        DnsSelection {
                            server_tag: self.final_server_tag.clone(),
                            candidate_server_tags: candidates,
                            reason: DnsRouteReason::Final,
                            disable_cache: context.disable_cache,
                        },
                    ),
                );
            }
        }
        let mut candidates = safe_direct;
        candidates.append(&mut safe_other);
        assert(texts(candidates@) =~= rest);
        if candidates.len() == 0 {
            return Ok(None);
        }
        assert(texts(candidates@)[0] == candidates@[0]@);
        Ok(
            Some(
                DnsSelection {
                    server_tag: candidates[0].clone(),
                    candidate_server_tags: candidates,
                    reason: DnsRouteReason::SafeDefault,
                    disable_cache: context.disable_cache,
                },
            ),
        )
    }

    fn find_server(&self, servers: &[DnsServerRoute<'_>], tag: &str) -> (r: Option<usize>)
        ensures
            r is Some == has_server(route_views(servers@), tag@),
            r is Some == first_server(route_views(servers@), tag@) is Some,
            r matches Some(i) ==> i < servers@.len() && first_server(route_views(servers@), tag@)
                == Some(servers@[i as int]@),
    {
        let ghost all = route_views(servers@);
        let mut i: usize = 0;
        assert(all.skip(0) =~= all);
        while i < servers.len()
            invariant
                i <= servers@.len(),
                all == route_views(servers@),
                first_server(all, tag@) == first_server(all.skip(i as int), tag@),
                forall|j: int| 0 <= j < i ==> (#[trigger] all[j]).tag != tag@,
            decreases servers@.len() - i,
        {
            assert(all.skip(i as int)[0] == all[i as int]);
            assert(all.skip(i as int).drop_first() =~= all.skip(i + 1));
            if same_text(servers[i].tag, tag) {
                assert(all[i as int].tag == tag@);
                return Some(i);
            }
            i += 1;
        }
        None
    }

    fn selection_for_tag(
        &self,
        server_tag: &str,
        reason: DnsRouteReason,
        disable_cache: bool,
        servers: &[DnsServerRoute<'_>],
    ) -> (r: Result<DnsSelection>)
        ensures
            match single_selection(route_views(servers@), server_tag@, reason, disable_cache) {
                Ok(selection) => r matches Ok(s) && s@ == selection,
                Err(e) => r matches Err(err) && err@ == e,
            },
    {
        if self.find_server(servers, server_tag).is_none() {
            return Err(
                ProxyError::config(
                    "missing dns server tag: ".to_owned().concat(server_tag).as_str(),
                ),
            );
        }
        let mut candidates: Vec<String> = Vec::new();
        candidates.push(server_tag.to_owned());
        assert(texts(candidates@) =~= seq![server_tag@]);
        Ok(
            DnsSelection {
                server_tag: server_tag.to_owned(),
                candidate_server_tags: candidates,
                reason,
                disable_cache,
            },
        )
    }
}

proof fn lemma_safe_tags(
    servers: Seq<RouteView>,
    context: ContextView,
    last_resort: Seq<char>,
    direct: bool,
    tag: Seq<char>,
)
    ensures
        safe_tags(servers, context, last_resort, direct).contains(tag) <==> exists|i: int|
            0 <= i < servers.len() && (#[trigger] servers[i]).tag == tag && tag != last_resort
                && is_safe(servers[i], context) && direct == (servers[i].detour == Some(
                "direct"@,
            )),
    decreases servers.len(),
{
    let found = safe_tags(servers, context, last_resort, direct);
    if servers.len() == 0 {
        assert(!found.contains(tag));
    } else {
        let front = servers.drop_last();
        lemma_safe_tags(front, context, last_resort, direct, tag);
        let before = safe_tags(front, context, last_resort, direct);
        let last = servers.last();
        assert(servers[servers.len() - 1] == last);
        assert forall|i: int| 0 <= i < front.len() implies #[trigger] servers[i] == front[i] by {}
        if found != before {
            assert(found == before.push(last.tag));
            assert(found[before.len() as int] == last.tag);
            if before.contains(tag) {
                let i = choose|i: int| 0 <= i < before.len() && before[i] == tag;
                assert(found[i] == tag);
            }
            if found.contains(tag) && tag != last.tag {
                let i = choose|i: int| 0 <= i < found.len() && found[i] == tag;
                assert(before[i] == tag);
            }
        }
        if before.contains(tag) {
            let i = choose|i: int|
                0 <= i < front.len() && (#[trigger] front[i]).tag == tag && tag != last_resort
                    && is_safe(front[i], context) && direct == (front[i].detour == Some("direct"@));
            assert(servers[i].tag == tag);
        }
        if exists|i: int|
            0 <= i < servers.len() && (#[trigger] servers[i]).tag == tag && tag != last_resort
                && is_safe(servers[i], context) && direct == (servers[i].detour == Some(
                "direct"@,
            )) {
            let i = choose|i: int|
                0 <= i < servers.len() && (#[trigger] servers[i]).tag == tag && tag != last_resort
                    && is_safe(servers[i], context) && direct == (servers[i].detour == Some(
                    "direct"@,
                ));
            if i < front.len() {
                assert(front[i].tag == tag);
            }
        }
    }
}

proof fn lemma_first_server(servers: Seq<RouteView>, tag: Seq<char>)
    ensures
        first_server(servers, tag) is Some <==> has_server(servers, tag),
        first_server(servers, tag) matches Some(s) ==> s.tag == tag && servers.contains(s),
    decreases servers.len(),
{
    if servers.len() > 0 {
        let rest = servers.drop_first();
        lemma_first_server(rest, tag);
        assert(servers[0].tag == tag || forall|i: int|
            0 <= i < rest.len() ==> #[trigger] rest[i] == servers[i + 1]);
        if servers[0].tag != tag {
            if has_server(rest, tag) {
                let i = choose|i: int| 0 <= i < rest.len() && (#[trigger] rest[i]).tag == tag;
                assert(servers[i + 1].tag == tag);
            }
            if has_server(servers, tag) {
                let i = choose|i: int| 0 <= i < servers.len() && (#[trigger] servers[i]).tag == tag;
                assert(rest[i - 1].tag == tag);
            }
            if let Some(s) = first_server(rest, tag) {
                let i = choose|i: int| 0 <= i < rest.len() && rest[i] == s;
                assert(servers[i + 1] == s);
            }
        } else {
            assert(servers[0] == first_server(servers, tag)->Some_0);
        }
    }
}

/// Where no explicit server is named, every candidate for a resolution is a configured server that
/// is safe for the caller. The preferred server comes first.
pub proof fn law_resolution_candidates_are_safe(
    router: RouterView,
    context: ContextView,
    servers: Seq<RouteView>,
    tag: Seq<char>,
)
    requires
        context.explicit_server_tag is None,
        router.resolution_selection(context, servers) matches Ok(Some(_)),
        (router.resolution_selection(context, servers)->Ok_0->Some_0).candidate_server_tags.contains(
            tag,
        ),
    ensures
        exists|i: int|
            0 <= i < servers.len() && (#[trigger] servers[i]).tag == tag && is_safe(
                servers[i],
                context,
            ),
        ({
            let s = router.resolution_selection(context, servers)->Ok_0->Some_0;
            s.candidate_server_tags.len() > 0 && s.candidate_server_tags[0] == s.server_tag
        }),
{
    let s = router.resolution_selection(context, servers)->Ok_0->Some_0;
    let last_resort = router.final_server_tag;
    let direct = safe_tags(servers, context, last_resort, true);
    let other = safe_tags(servers, context, last_resort, false);
    lemma_first_server(servers, last_resort);
    lemma_safe_tags(servers, context, last_resort, true, tag);
    lemma_safe_tags(servers, context, last_resort, false, tag);
    let i = choose|i: int|
        0 <= i < s.candidate_server_tags.len() && s.candidate_server_tags[i] == tag;
    let rest = direct + other;
    if s.reason == DnsRouteReason::Final && i == 0 {
        let server = first_server(servers, last_resort)->Some_0;
        let j = choose|j: int| 0 <= j < servers.len() && servers[j] == server;
        assert(servers[j].tag == tag);
    } else {
        let k = if s.reason == DnsRouteReason::Final {
            i - 1
        } else {
            i
        };
        assert(rest[k] == tag);
        if k < direct.len() {
            assert(direct[k] == tag);
        } else {
            assert(other[k - direct.len()] == tag);
        }
    }
}

/// Where no explicit server is named, every safe server is a candidate, provided the tags are
/// distinct; there is no selection exactly where no server is safe.
pub proof fn law_every_safe_server_is_a_candidate(
    router: RouterView,
    context: ContextView,
    servers: Seq<RouteView>,
    index: int,
)
    requires
        context.explicit_server_tag is None,
        forall|i: int, j: int|
            0 <= i < j < servers.len() ==> (#[trigger] servers[i]).tag != (
            #[trigger] servers[j]).tag,
        0 <= index < servers.len(),
        is_safe(servers[index], context),
    ensures
        router.resolution_selection(context, servers) matches Ok(Some(s))
            && s.candidate_server_tags.contains(servers[index].tag),
{
    let last_resort = router.final_server_tag;
    let server = servers[index];
    let direct = safe_tags(servers, context, last_resort, true);
    let other = safe_tags(servers, context, last_resort, false);
    let rest = direct + other;
    lemma_first_server(servers, last_resort);
    if server.tag == last_resort {
        let found = first_server(servers, last_resort)->Some_0;
        let j = choose|j: int| 0 <= j < servers.len() && servers[j] == found;
        assert(j == index);
        assert((seq![last_resort] + rest)[0] == server.tag);
    } else {
        lemma_safe_tags(servers, context, last_resort, server.detour == Some("direct"@), server.tag);
        if server.detour == Some("direct"@) {
            let i = choose|i: int| 0 <= i < direct.len() && direct[i] == server.tag;
            assert(rest[i] == server.tag);
        } else {
            let i = choose|i: int| 0 <= i < other.len() && other[i] == server.tag;
            assert(rest[direct.len() + i] == server.tag);
        }
        let i = choose|i: int| 0 <= i < rest.len() && rest[i] == server.tag;
        assert((seq![last_resort] + rest)[i + 1] == server.tag);
    }
}

/// An explicit server is the only candidate, whatever the rules and the other servers are.
pub proof fn law_explicit_server_stands_alone(
    first: RouterView,
    second: RouterView,
    context: ContextView,
    servers: Seq<RouteView>,
)
    requires
        context.explicit_server_tag is Some,
    ensures
        first.resolution_selection(context, servers) == second.resolution_selection(
            context,
            servers,
        ),
        first.resolution_selection(context, servers) matches Ok(Some(s)) ==> s.candidate_server_tags
            == seq![context.explicit_server_tag->Some_0] && s.reason
            == DnsRouteReason::ExplicitResolver,
{
}

/// Selection does not depend on the case of a domain's letters or on trailing dots.
pub proof fn law_client_selection_ignores_spelling(
    router: RouterView,
    first: Seq<char>,
    second: Seq<char>,
    servers: Seq<RouteView>,
)
    requires
        normalized(first) == normalized(second),
    ensures
        router.client_selection(first, servers) == router.client_selection(second, servers),
{
}

/// The rule that decides about a domain is the first one whose list holds that very domain: it
/// stands in the list of rules, it lists the domain, and no rule before it does. There is none
/// exactly where no rule lists the domain.
pub proof fn law_first_listing_rule_decides(rules: Seq<RuleView>, domain: Seq<char>, rule: RuleView)
    ensures
        first_rule(rules, domain) == Some(rule) <==> exists|i: int|
            {
                &&& 0 <= i < rules.len()
                &&& #[trigger] rules[i] == rule
                &&& rule.domain.contains(domain)
                &&& forall|j: int| 0 <= j < i ==> !(#[trigger] rules[j]).domain.contains(domain)
            },
        first_rule(rules, domain) is None <==> forall|i: int|
            0 <= i < rules.len() ==> !(#[trigger] rules[i]).domain.contains(domain),
{
    lemma_first_rule(rules, domain);
    match first_rule(rules, domain) {
        Some(found) => {
            let k = choose|k: int|
                {
                    &&& 0 <= k < rules.len()
                    &&& #[trigger] rules[k] == found
                    &&& found.domain.contains(domain)
                    &&& forall|j: int| 0 <= j < k ==> !(#[trigger] rules[j]).domain.contains(domain)
                };
            assert(rules[k].domain.contains(domain));
            if exists|i: int|
                {
                    &&& 0 <= i < rules.len()
                    &&& #[trigger] rules[i] == rule
                    &&& rule.domain.contains(domain)
                    &&& forall|j: int| 0 <= j < i ==> !(#[trigger] rules[j]).domain.contains(domain)
                } {
                let i = choose|i: int|
                    {
                        &&& 0 <= i < rules.len()
                        &&& #[trigger] rules[i] == rule
                        &&& rule.domain.contains(domain)
                        &&& forall|j: int|
                            0 <= j < i ==> !(#[trigger] rules[j]).domain.contains(domain)
                    };
                assert(rules[i].domain.contains(domain));
                assert(i == k);
            }
        },
        None => {},
    }
}

proof fn lemma_first_rule(rules: Seq<RuleView>, domain: Seq<char>)
    ensures
        match first_rule(rules, domain) {
            Some(found) => exists|i: int|
                {
                    &&& 0 <= i < rules.len()
                    &&& #[trigger] rules[i] == found
                    &&& found.domain.contains(domain)
                    &&& forall|j: int| 0 <= j < i ==> !(#[trigger] rules[j]).domain.contains(domain)
                },
            None => forall|i: int|
                0 <= i < rules.len() ==> !(#[trigger] rules[i]).domain.contains(domain),
        },
    decreases rules.len(),
{
    if rules.len() > 0 {
        if rules[0].domain.contains(domain) {
            assert(rules[0] == first_rule(rules, domain)->Some_0);
        } else {
            let rest = rules.drop_first();
            lemma_first_rule(rest, domain);
            match first_rule(rest, domain) {
                Some(found) => {
                    let k = choose|i: int|
                        {
                            &&& 0 <= i < rest.len()
                            &&& #[trigger] rest[i] == found
                            &&& found.domain.contains(domain)
                            &&& forall|j: int|
                                0 <= j < i ==> !(#[trigger] rest[j]).domain.contains(domain)
                        };
                    assert(rules[k + 1] == found);
                    assert forall|j: int| 0 <= j < k + 1 implies !(
                    #[trigger] rules[j]).domain.contains(domain) by {
                        if j > 0 {
                            assert(rest[j - 1] == rules[j]);
                        }
                    }
                },
                None => {
                    assert forall|i: int| 0 <= i < rules.len() implies !(
                    #[trigger] rules[i]).domain.contains(domain) by {
                        if i > 0 {
                            assert(rest[i - 1] == rules[i]);
                        }
                    }
                },
            }
        }
    }
}

/// A client's query goes to the server that the first rule with the canonical form of the domain
/// names, with that rule's word on the cache; where a rule stands at `index` and no rule before it
/// lists the domain, it is that rule. A query that no rule lists goes to the server of last resort
/// and may be cached. A server that is not configured is a configuration error.
pub proof fn law_client_query_goes_where_the_rules_say(
    router: RouterView,
    domain: Seq<char>,
    servers: Seq<RouteView>,
    index: int,
)
    ensures
        ({
            let name = normalized(domain);
            let outcome = router.client_selection(domain, servers);
            let decided = 0 <= index < router.rules.len() && router.rules[index].domain.contains(name)
                && forall|j: int|
                0 <= j < index ==> !(#[trigger] router.rules[j]).domain.contains(name);
            let undecided = forall|j: int|
                0 <= j < router.rules.len() ==> !(#[trigger] router.rules[j]).domain.contains(name);
            &&& decided ==> {
                let rule = router.rules[index];
                let known = exists|i: int|
                    0 <= i < servers.len() && (#[trigger] servers[i]).tag == rule.server_tag;
                &&& known ==> (outcome matches Ok(s) && s.server_tag == rule.server_tag
                    && s.candidate_server_tags == seq![rule.server_tag] && s.reason
                    == DnsRouteReason::Rule && s.disable_cache == rule.disable_cache)
                &&& !known ==> (outcome matches Err(e) && e.kind == ErrorKind::Config && e.message
                    == "missing dns server tag: "@ + rule.server_tag)
            }
            &&& undecided ==> {
                let known = exists|i: int|
                    0 <= i < servers.len() && (#[trigger] servers[i]).tag == router.final_server_tag;
                &&& known ==> (outcome matches Ok(s) && s.server_tag == router.final_server_tag
                    && s.candidate_server_tags == seq![router.final_server_tag] && s.reason
                    == DnsRouteReason::Final && !s.disable_cache)
                &&& !known ==> (outcome matches Err(e) && e.kind == ErrorKind::Config && e.message
                    == "missing dns server tag: "@ + router.final_server_tag)
            }
        }),
{
    let name = normalized(domain);
    if 0 <= index < router.rules.len() {
        law_first_listing_rule_decides(router.rules, name, router.rules[index]);
    }
    lemma_first_rule(router.rules, name);
}

/// A server is safe for a resolution unless it is the server that is being dialed, or is reached
/// through the outbound that asks.
pub proof fn law_safety_rules_out_loops(server: RouteView, context: ContextView)
    ensures
        context.caller_dns_server_tag == Some(server.tag) ==> !is_safe(server, context),
        context.caller_outbound_tag is Some && server.detour is Some
            && context.caller_outbound_tag->Some_0 == server.detour->Some_0 ==> !is_safe(
            server,
            context,
        ),
        context.caller_dns_server_tag != Some(server.tag) && (context.caller_outbound_tag is None
            || server.detour is None || context.caller_outbound_tag->Some_0
            != server.detour->Some_0) ==> is_safe(server, context),
{
}

/// Safe servers are found server by server: the tags for two lists are those for the first followed
/// by those for the second, and a single server gives its tag exactly where it is safe, is not the
/// server of last resort and is reached through `direct`, or otherwise, as asked.
pub proof fn law_safe_tags_are_found_server_by_server(
    first: Seq<RouteView>,
    second: Seq<RouteView>,
    server: RouteView,
    context: ContextView,
    last_resort: Seq<char>,
    direct: bool,
)
    ensures
        safe_tags(first + second, context, last_resort, direct) == safe_tags(
            first,
            context,
            last_resort,
            direct,
        ) + safe_tags(second, context, last_resort, direct),
        safe_tags(seq![server], context, last_resort, direct) == if context.caller_dns_server_tag
            != Some(server.tag) && (context.caller_outbound_tag is None || server.detour is None
            || context.caller_outbound_tag->Some_0 != server.detour->Some_0) && server.tag
            != last_resort && direct == (server.detour is Some && server.detour->Some_0
            == "direct"@) {
            seq![server.tag]
        } else {
            seq![]
        },
    decreases second.len(),
{
    let one = seq![server];
    assert(one.drop_last() =~= seq![]);
    assert(safe_tags(one.drop_last(), context, last_resort, direct) =~= seq![]);
    if second.len() == 0 {
        assert(first + second =~= first);
        assert(safe_tags(first, context, last_resort, direct) + Seq::<Seq<char>>::empty()
            =~= safe_tags(first, context, last_resort, direct));
    } else {
        let front = second.drop_last();
        law_safe_tags_are_found_server_by_server(
            first,
            front,
            server,
            context,
            last_resort,
            direct,
        );
        assert((first + second).drop_last() =~= first + front);
        assert((first + second).last() == second.last());
        assert(safe_tags(first + second, context, last_resort, direct) =~= safe_tags(
            first,
            context,
            last_resort,
            direct,
        ) + safe_tags(second, context, last_resort, direct));
    }
}

/// Where the tag of a safe server stands among the safe tags.
proof fn lemma_safe_position(
    servers: Seq<RouteView>,
    context: ContextView,
    last_resort: Seq<char>,
    direct: bool,
    i: int,
)
    requires
        0 <= i < servers.len(),
        is_safe(servers[i], context),
        servers[i].tag != last_resort,
        direct == (servers[i].detour == Some("direct"@)),
    ensures
        ({
            let p = safe_tags(servers.take(i), context, last_resort, direct).len() as int;
            let all = safe_tags(servers, context, last_resort, direct);
            p < all.len() && all[p] == servers[i].tag
        }),
        forall|j: int|
            i < j <= servers.len() ==> safe_tags(servers.take(i), context, last_resort, direct).len()
                < #[trigger] safe_tags(servers.take(j), context, last_resort, direct).len(),
{
    let one = seq![servers[i]];
    let before = servers.take(i);
    let upto = servers.take(i + 1);
    assert(upto =~= before + one);
    law_safe_tags_are_found_server_by_server(
        before,
        one,
        servers[i],
        context,
        last_resort,
        direct,
    );
    assert forall|j: int| i < j <= servers.len() implies safe_tags(
        before,
        context,
        last_resort,
        direct,
    ).len() < #[trigger] safe_tags(servers.take(j), context, last_resort, direct).len() by {
        let more = servers.subrange(i + 1, j);
        assert(servers.take(j) =~= upto + more);
        law_safe_tags_are_found_server_by_server(
            upto,
            more,
            servers[i],
            context,
            last_resort,
            direct,
        );
    }
    let more = servers.skip(i + 1);
    assert(servers =~= upto + more);
    law_safe_tags_are_found_server_by_server(
        upto,
        more,
        servers[i],
        context,
        last_resort,
        direct,
    );
}

/// Where no explicit server is named, the candidates come in order of preference: the server of last
/// resort stands before every other, a server reached through `direct` before one that is not, and
/// among equals the one configured first. The preferred server is the first candidate, and the
/// reason tells whether it is the server of last resort.
pub proof fn law_candidates_come_in_order(
    router: RouterView,
    context: ContextView,
    servers: Seq<RouteView>,
    i: int,
    j: int,
)
    requires
        context.explicit_server_tag is None,
        router.resolution_selection(context, servers) matches Ok(Some(_)),
        0 <= i < servers.len(),
        0 <= j < servers.len(),
        is_safe(servers[i], context),
        is_safe(servers[j], context),
        servers[j].tag != router.final_server_tag,
    ensures
        ({
            let s = router.resolution_selection(context, servers)->Ok_0->Some_0;
            let tags = s.candidate_server_tags;
            let nearer = servers[i].detour == Some("direct"@) && servers[j].detour != Some("direct"@);
            let level = (servers[i].detour == Some("direct"@)) == (servers[j].detour == Some(
                "direct"@,
            ));
            &&& tags.len() > 0 && tags[0] == s.server_tag
            &&& s.disable_cache == context.disable_cache
            &&& s.reason == DnsRouteReason::Final ==> tags[0] == router.final_server_tag
            &&& s.reason != DnsRouteReason::Final ==> s.reason == DnsRouteReason::SafeDefault
                && !tags.contains(router.final_server_tag)
            &&& servers[i].tag != router.final_server_tag && (nearer || (level && i < j))
                ==> exists|p: int, q: int|
                0 <= p < q < tags.len() && #[trigger] tags[p] == servers[i].tag && #[trigger] tags[q]
                    == servers[j].tag
        }),
{
    let s = router.resolution_selection(context, servers)->Ok_0->Some_0;
    let tags = s.candidate_server_tags;
    let last_resort = router.final_server_tag;
    let direct = safe_tags(servers, context, last_resort, true);
    let other = safe_tags(servers, context, last_resort, false);
    let rest = direct + other;
    let off: int = if s.reason == DnsRouteReason::Final {
        1
    } else {
        0
    };
    assert forall|k: int| 0 <= k < rest.len() implies #[trigger] rest[k] == tags[k + off] by {}
    if s.reason != DnsRouteReason::Final && tags.contains(last_resort) {
        let k = choose|k: int| 0 <= k < tags.len() && tags[k] == last_resort;
        lemma_safe_tags(servers, context, last_resort, true, last_resort);
        lemma_safe_tags(servers, context, last_resort, false, last_resort);
        if k < direct.len() {
            assert(direct[k] == last_resort);
        } else {
            assert(other[k - direct.len()] == last_resort);
        }
    }
    if servers[i].tag != last_resort {
        let near_i = servers[i].detour == Some("direct"@);
        let near_j = servers[j].detour == Some("direct"@);
        lemma_safe_position(servers, context, last_resort, near_i, i);
        lemma_safe_position(servers, context, last_resort, near_j, j);
        let a = safe_tags(servers.take(i), context, last_resort, near_i).len() as int;
        let b = safe_tags(servers.take(j), context, last_resort, near_j).len() as int;
        let p = if near_i {
            a
        } else {
            direct.len() + a
        };
        let q = if near_j {
            b
        } else {
            direct.len() + b
        };
        if (near_i && !near_j) || (near_i == near_j && i < j) {
            assert(rest[p] == servers[i].tag);
            assert(rest[q] == servers[j].tag);
            assert(p < q);
            assert(tags[p + off] == servers[i].tag);
            assert(tags[q + off] == servers[j].tag);
        }
    }
}

/// No server is a candidate twice, provided the configured tags are distinct.
pub proof fn law_no_candidate_twice(
    router: RouterView,
    context: ContextView,
    servers: Seq<RouteView>,
)
    requires
        context.explicit_server_tag is None,
        router.resolution_selection(context, servers) matches Ok(Some(_)),
        forall|i: int, j: int|
            0 <= i < j < servers.len() ==> (#[trigger] servers[i]).tag != (
            #[trigger] servers[j]).tag,
    ensures
        (router.resolution_selection(context, servers)->Ok_0->Some_0).candidate_server_tags.no_duplicates(),
{
    let s = router.resolution_selection(context, servers)->Ok_0->Some_0;
    let tags = s.candidate_server_tags;
    let last_resort = router.final_server_tag;
    let direct = safe_tags(servers, context, last_resort, true);
    let other = safe_tags(servers, context, last_resort, false);
    let rest = direct + other;
    lemma_safe_tags_distinct(servers, context, last_resort, true);
    lemma_safe_tags_distinct(servers, context, last_resort, false);
    assert(rest.no_duplicates()) by {
        assert forall|p: int, q: int| 0 <= p < q < rest.len() implies rest[p] != rest[q] by {
            if p < direct.len() && q >= direct.len() && rest[p] == rest[q] {
                let tag = rest[p];
                assert(direct[p] == tag);
                assert(other[q - direct.len()] == tag);
                lemma_safe_tags(servers, context, last_resort, true, tag);
                lemma_safe_tags(servers, context, last_resort, false, tag);
                assert(direct.contains(tag) && other.contains(tag));
            }
        }
    }
    if s.reason == DnsRouteReason::Final {
        assert(tags =~= seq![last_resort] + rest);
        assert forall|p: int, q: int| 0 <= p < q < tags.len() implies tags[p] != tags[q] by {
            assert(tags[q] == rest[q - 1]);
            if p > 0 {
                assert(tags[p] == rest[p - 1]);
            } else if tags[q] == last_resort {
                lemma_safe_tags(servers, context, last_resort, true, last_resort);
                lemma_safe_tags(servers, context, last_resort, false, last_resort);
                if q - 1 < direct.len() {
                    assert(direct[q - 1] == last_resort);
                } else {
                    assert(other[q - 1 - direct.len()] == last_resort);
                }
            }
        }
    }
}

proof fn lemma_safe_tags_distinct(
    servers: Seq<RouteView>,
    context: ContextView,
    last_resort: Seq<char>,
    direct: bool,
)
    requires
        forall|i: int, j: int|
            0 <= i < j < servers.len() ==> (#[trigger] servers[i]).tag != (
            #[trigger] servers[j]).tag,
    ensures
        safe_tags(servers, context, last_resort, direct).no_duplicates(),
    decreases servers.len(),
{
    if servers.len() > 0 {
        let front = servers.drop_last();
        assert forall|i: int, j: int| 0 <= i < j < front.len() implies (#[trigger] front[i]).tag != (
        #[trigger] front[j]).tag by {
            assert(front[i] == servers[i] && front[j] == servers[j]);
        }
        lemma_safe_tags_distinct(front, context, last_resort, direct);
        let before = safe_tags(front, context, last_resort, direct);
        let last = servers.last();
        lemma_safe_tags(front, context, last_resort, direct, last.tag);
        if before.contains(last.tag) {
            let i = choose|i: int| 0 <= i < front.len() && (#[trigger] front[i]).tag == last.tag;
            assert(servers[i].tag == servers[servers.len() - 1].tag);
        }
    }
}

/// Without an explicit server a resolution never fails for want of configuration: there is a
/// selection where some server is safe, and none where every server is the one that is being dialed
/// or is reached through the outbound that asks. An explicit server is selected exactly where it is
/// configured, and otherwise it is a configuration error.
pub proof fn law_resolution_needs_a_safe_server(
    router: RouterView,
    context: ContextView,
    servers: Seq<RouteView>,
)
    requires
        forall|i: int, j: int|
            0 <= i < j < servers.len() ==> (#[trigger] servers[i]).tag != (
            #[trigger] servers[j]).tag,
    ensures
        match context.explicit_server_tag {
            None => {
                let usable = exists|i: int|
                    {
                        &&& 0 <= i < servers.len()
                        &&& context.caller_dns_server_tag != Some((#[trigger] servers[i]).tag)
                        &&& context.caller_outbound_tag is None || servers[i].detour is None
                            || context.caller_outbound_tag->Some_0 != servers[i].detour->Some_0
                    };
                &&& usable ==> (router.resolution_selection(context, servers) matches Ok(Some(_)))
                &&& !usable ==> (router.resolution_selection(context, servers) matches Ok(None))
            },
            Some(tag) => {
                let known = exists|i: int|
                    0 <= i < servers.len() && (#[trigger] servers[i]).tag == tag;
                &&& known ==> (router.resolution_selection(context, servers) matches Ok(Some(s))
                    && s.server_tag == tag && s.candidate_server_tags == seq![tag]
                    && s.disable_cache == context.disable_cache && s.reason
                    == DnsRouteReason::ExplicitResolver)
                &&& !known ==> (router.resolution_selection(context, servers) matches Err(e)
                    && e.kind == ErrorKind::Config && e.message
                    == "explicit domain_resolver points to missing dns server tag: "@ + tag)
            },
        },
{
    if context.explicit_server_tag is None {
        if exists|i: int| 0 <= i < servers.len() && is_safe(#[trigger] servers[i], context) {
            let i = choose|i: int| 0 <= i < servers.len() && is_safe(#[trigger] servers[i], context);
            law_every_safe_server_is_a_candidate(router, context, servers, i);
        } else if let Ok(Some(s)) = router.resolution_selection(context, servers) {
            let first = s.candidate_server_tags[0];
            assert(s.candidate_server_tags.contains(first));
            law_resolution_candidates_are_safe(router, context, servers, first);
        }
        assert forall|i: int| 0 <= i < servers.len() implies is_safe(#[trigger] servers[i], context)
            == (context.caller_dns_server_tag != Some(servers[i].tag) && (
        context.caller_outbound_tag is None || servers[i].detour is None
            || context.caller_outbound_tag->Some_0 != servers[i].detour->Some_0)) by {}
    }
}

/// The server found under a tag is the first one that has it, and there is none exactly where no
/// server has it.
pub proof fn law_first_server_with_a_tag(servers: Seq<RouteView>, tag: Seq<char>)
    ensures
        match first_server(servers, tag) {
            Some(found) => exists|i: int|
                0 <= i < servers.len() && #[trigger] servers[i] == found && found.tag == tag
                    && forall|j: int| 0 <= j < i ==> (#[trigger] servers[j]).tag != tag,
            None => forall|i: int| 0 <= i < servers.len() ==> (#[trigger] servers[i]).tag != tag,
        },
    decreases servers.len(),
{
    if servers.len() > 0 {
        if servers[0].tag == tag {
            assert(servers[0] == first_server(servers, tag)->Some_0);
        } else {
            let rest = servers.drop_first();
            law_first_server_with_a_tag(rest, tag);
            match first_server(rest, tag) {
                Some(found) => {
                    let k = choose|i: int|
                        0 <= i < rest.len() && #[trigger] rest[i] == found && found.tag == tag
                            && forall|j: int| 0 <= j < i ==> (#[trigger] rest[j]).tag != tag;
                    assert(servers[k + 1] == found);
                    assert forall|j: int| 0 <= j < k + 1 implies (#[trigger] servers[j]).tag
                        != tag by {
                        if j > 0 {
                            assert(rest[j - 1] == servers[j]);
                        }
                    }
                },
                None => {
                    assert forall|i: int| 0 <= i < servers.len() implies (#[trigger] servers[i]).tag
                        != tag by {
                        if i > 0 {
                            assert(rest[i - 1] == servers[i]);
                        }
                    }
                },
            }
        }
    }
}

/// The routes and the rules show each configured one, in order and with every field.
pub proof fn law_router_views_show_everything<'a>(
    servers: Seq<DnsServerRoute<'a>>,
    rules: Seq<DnsRule>,
)
    ensures
        route_views(servers).len() == servers.len(),
        forall|i: int|
            0 <= i < servers.len() ==> (#[trigger] route_views(servers)[i]).tag == servers[i].tag@
                && (servers[i].detour matches Some(detour) ==> route_views(servers)[i].detour
                == Some(detour@)) && (servers[i].detour is None ==> route_views(
                servers,
            )[i].detour is None),
        rule_views(rules).len() == rules.len(),
        forall|i: int| 0 <= i < rules.len() ==> #[trigger] rule_views(rules)[i] == rules[i]@,
{
}

} // verus!
