use veex::dns::router::{DnsRouter, DnsServerRoute};
use veex::dns::types::{DnsRouteReason, DnsRule};
use veex::error::ErrorKind;
use veex::session::{ResolveContext, ResolvePurpose};

#[test]
fn dns_router_prefers_matching_rule_before_final() {
    let router = DnsRouter::new(
        "remote",
        vec![DnsRule {
            domain: vec!["trojan.example.com".into()],
            server_tag: "direct".into(),
            disable_cache: true,
        }],
    );

    let servers = [
        DnsServerRoute {
            tag: "direct",
            detour: Some("direct"),
        },
        DnsServerRoute {
            tag: "remote",
            detour: Some("proxy"),
        },
    ];

    let matched = router
        .select_client_upstream("Trojan.Example.Com.", &servers)
        .expect("matching rule should select an upstream");
    let fallback = router
        .select_client_upstream("www.example.com", &servers)
        .expect("final server should select an upstream");

    assert_eq!(matched.server_tag, "direct");
    assert_eq!(matched.reason, DnsRouteReason::Rule);
    assert!(matched.disable_cache);
    assert_eq!(fallback.server_tag, "remote");
    assert_eq!(fallback.reason, DnsRouteReason::Final);
    assert_eq!(fallback.candidate_server_tags, vec!["remote".to_string()]);
}

#[test]
fn resolution_selection_bypasses_rules_for_explicit_resolver() {
    let router = DnsRouter::new("remote", Vec::new());
    let servers = [DnsServerRoute {
        tag: "bootstrap",
        detour: Some("direct"),
    }];

    let selection = router
        .select_resolution_upstream(
            &ResolveContext::outbound_dial("proxy", Some("bootstrap".into())),
            &servers,
        )
        .expect("router should resolve explicit upstream")
        .expect("explicit resolver should select a server");

    assert_eq!(selection.server_tag, "bootstrap");
    assert_eq!(selection.reason, DnsRouteReason::ExplicitResolver);
    assert_eq!(
        selection.candidate_server_tags,
        vec!["bootstrap".to_string()]
    );
}

#[test]
fn resolution_selection_falls_back_to_safe_direct_server() {
    let router = DnsRouter::new("remote", Vec::new());
    let servers = [
        DnsServerRoute {
            tag: "remote",
            detour: Some("proxy"),
        },
        DnsServerRoute {
            tag: "bootstrap",
            detour: Some("direct"),
        },
    ];

    let selection = router
        .select_resolution_upstream(&ResolveContext::outbound_dial("proxy", None), &servers)
        .expect("router should resolve safe default upstream")
        .expect("safe default should select a server");

    assert_eq!(selection.server_tag, "bootstrap");
    assert_eq!(selection.reason, DnsRouteReason::SafeDefault);
    assert_eq!(
        selection.candidate_server_tags,
        vec!["bootstrap".to_string()]
    );
}

#[test]
fn resolution_selection_prefers_safe_final_server_before_safe_default() {
    let router = DnsRouter::new("remote", Vec::new());
    let servers = [
        DnsServerRoute {
            tag: "remote",
            detour: Some("dns-egress"),
        },
        DnsServerRoute {
            tag: "bootstrap",
            detour: Some("direct"),
        },
    ];

    let selection = router
        .select_resolution_upstream(&ResolveContext::outbound_dial("proxy", None), &servers)
        .expect("router should resolve safe final upstream")
        .expect("safe final should select a server");

    assert_eq!(selection.server_tag, "remote");
    assert_eq!(selection.reason, DnsRouteReason::Final);
    assert_eq!(
        selection.candidate_server_tags,
        vec!["remote".to_string(), "bootstrap".to_string()]
    );
}

#[test]
fn resolution_selection_skips_final_server_when_caller_dns_server_matches() {
    let router = DnsRouter::new("remote", Vec::new());
    let servers = [
        DnsServerRoute {
            tag: "remote",
            detour: Some("proxy"),
        },
        DnsServerRoute {
            tag: "bootstrap",
            detour: Some("direct"),
        },
    ];
    let context = ResolveContext {
        purpose: ResolvePurpose::DnsUpstreamDial,
        caller_outbound_tag: Some("proxy".into()),
        caller_dns_server_tag: Some("remote".into()),
        explicit_server_tag: None,
        disable_cache: false,
        recursion_depth: 1,
    };

    let selection = router
        .select_resolution_upstream(&context, &servers)
        .expect("router should resolve safe fallback upstream")
        .expect("safe fallback should select a server");

    assert_eq!(selection.server_tag, "bootstrap");
    assert_eq!(selection.reason, DnsRouteReason::SafeDefault);
}

#[test]
fn resolution_selection_returns_none_when_no_safe_server_exists() {
    let router = DnsRouter::new("remote", Vec::new());
    let servers = [DnsServerRoute {
        tag: "remote",
        detour: Some("proxy"),
    }];

    let selection = router
        .select_resolution_upstream(&ResolveContext::outbound_dial("proxy", None), &servers)
        .expect("unsafe-only resolver set should not error");

    assert!(selection.is_none());
}

#[test]
fn explicit_resolver_missing_server_returns_config_error() {
    let router = DnsRouter::new("remote", Vec::new());

    let err = match router.select_resolution_upstream(
        &ResolveContext::outbound_dial("proxy", Some("missing".into())),
        &[],
    ) {
        Ok(_) => panic!("missing explicit resolver should fail"),
        Err(err) => err,
    };

    assert!(err
        .message()
        .contains("explicit domain_resolver points to missing dns server tag: missing"));
    assert_eq!(err.kind(), ErrorKind::Config);
}

#[test]
fn candidates_are_final_direct_then_others() {
    let router = DnsRouter::new("last", Vec::new());
    let servers = [
        DnsServerRoute {
            tag: "tunnel",
            detour: Some("egress"),
        },
        DnsServerRoute {
            tag: "near",
            detour: Some("direct"),
        },
        DnsServerRoute {
            tag: "unsupported",
            detour: None,
        },
        DnsServerRoute {
            tag: "looping",
            detour: Some("proxy"),
        },
        DnsServerRoute {
            tag: "last",
            detour: Some("egress"),
        },
    ];
    let selection = router
        .select_resolution_upstream(
            &ResolveContext::outbound_dial("proxy", None).with_disable_cache(true),
            &servers,
        )
        .expect("selection should succeed")
        .expect("a server is safe");
    assert_eq!(
        selection.candidate_server_tags,
        vec!["last", "near", "tunnel", "unsupported"]
    );
    assert_eq!(selection.server_tag, "last");
    assert!(selection.disable_cache);
}

#[test]
fn the_first_matching_rule_counts_and_its_server_must_exist() {
    let rule = |domain: &str, server: &str| DnsRule {
        domain: vec!["other.example".into(), domain.into()],
        server_tag: server.into(),
        disable_cache: false,
    };
    let router = DnsRouter::new("absent", vec![rule("a.example", "one"), rule("a.example", "two")]);
    let servers = [
        DnsServerRoute {
            tag: "two",
            detour: None,
        },
        DnsServerRoute {
            tag: "one",
            detour: None,
        },
    ];
    let selection = router
        .select_client_upstream("A.example", &servers)
        .expect("rule should select");
    assert_eq!(selection.server_tag, "one");
    assert_eq!(selection.candidate_server_tags, vec!["one"]);

    let err = router
        .select_client_upstream("b.example", &servers)
        .expect_err("final server is missing");
    assert_eq!(err.message(), "missing dns server tag: absent");
    // Rules hold canonical names: an entry that is not one never matches.
    let strict = DnsRouter::new("two", vec![rule("Upper.example", "one")]);
    assert_eq!(
        strict
            .select_client_upstream("upper.example", &servers)
            .expect("final should select")
            .reason,
        DnsRouteReason::Final
    );
}

#[test]
fn reasons_have_labels() {
    assert_eq!(DnsRouteReason::Rule.as_str(), "rule");
    assert_eq!(DnsRouteReason::Final.as_str(), "final");
    assert_eq!(DnsRouteReason::ExplicitResolver.as_str(), "explicit_resolver");
    assert_eq!(DnsRouteReason::SafeDefault.as_str(), "safe_default");
}
