use std::collections::VecDeque;

use veex::dns::exchange::RaceStep;
use veex::dns::executor::{
    DnsExecutor, PendingQuery, QueryStep, ResolveStep, MAX_DNS_RECURSION_DEPTH,
};
use veex::dns::types::{
    DnsRule, DnsRuntimeConfig, DnsServer, DnsServerTransport, DEFAULT_DNS_CACHE_CAPACITY,
};
use veex::dns::upstream::Upstream;
use veex::dns::wire::{build_a_query, parse_query_info, parse_response_ips};
use veex::error::{ErrorKind, ProxyError};
use veex::execution::catalog::OutboundCatalog;
use veex::execution::outbound::OutboundHandle;
use veex::session::{Dial, DnsRequest, DnsResponse, ResolveContext, ResolvePurpose};
use veex::time::{Duration, Instant};
use veex::types::{Destination, Host, IpAddr, Network, SocketAddr};

/// What a server does when it is asked.
enum Behaviour {
    Answer(Vec<u8>),
    Fail(ProxyError),
    Hang,
}

/// The servers behind the executor: what they will do, and what they were asked.
struct Servers {
    scripts: Vec<(String, VecDeque<Behaviour>)>,
    asked: Vec<(String, DnsRequest)>,
    cancelled: Vec<String>,
}

impl Servers {
    fn new(scripts: Vec<(&str, Vec<Behaviour>)>) -> Self {
        Self {
            scripts: scripts
                .into_iter()
                .map(|(tag, script)| (tag.to_string(), script.into_iter().collect()))
                .collect(),
            asked: Vec::new(),
            cancelled: Vec::new(),
        }
    }

    fn behave(&mut self, tag: &str) -> Behaviour {
        for (server, script) in &mut self.scripts {
            if server == tag {
                if let Some(behaviour) = script.pop_front() {
                    return behaviour;
                }
            }
        }
        Behaviour::Fail(ProxyError::protocol("test packet session closed"))
    }

    fn exchange(
        &mut self,
        pending: &mut PendingQuery,
    ) -> Result<(String, DnsResponse, Vec<SocketAddr>), ProxyError> {
        let mut running = Vec::new();
        for request in &pending.requests {
            running.push(request.server_tag.clone());
            self.asked
                .push((request.server_tag.clone(), request.request.clone()));
        }
        for tag in running {
            let result = match self.behave(&tag) {
                Behaviour::Answer(message) => Ok(DnsResponse::new(message)),
                Behaviour::Fail(err) => Err(err),
                Behaviour::Hang => continue,
            };
            match pending.race.on_result(&tag, result) {
                RaceStep::Wait => {}
                RaceStep::Won {
                    server_tag,
                    response,
                    addresses,
                    cancelled,
                } => {
                    self.cancelled = cancelled;
                    return Ok((server_tag, response, addresses));
                }
                RaceStep::Lost(err) => return Err(err),
            }
        }
        Err(pending.race.all_failed())
    }

    fn query(
        &mut self,
        executor: &mut DnsExecutor,
        request: DnsRequest,
        now: Instant,
    ) -> Result<DnsResponse, ProxyError> {
        match executor.begin_query(&request, now)? {
            QueryStep::Answered(response) => Ok(response),
            QueryStep::Exchange(mut pending) => {
                let (winner, response, _) = self.exchange(&mut pending)?;
                executor.finish_query(&pending, &winner, &response, now);
                Ok(response)
            }
        }
    }

    fn resolve(
        &mut self,
        executor: &mut DnsExecutor,
        host: Host,
        port: u16,
        context: ResolveContext,
        now: Instant,
    ) -> Result<Vec<SocketAddr>, ProxyError> {
        match executor.begin_resolve_host(&host, port, &context, now)? {
            ResolveStep::Answered(addresses) => Ok(addresses),
            ResolveStep::Exchange(mut pending) => {
                let (winner, response, addresses) = self.exchange(&mut pending)?;
                executor.finish_query(&pending, &winner, &response, now);
                Ok(addresses)
            }
        }
    }

    fn destinations_of(&self, tag: &str) -> Vec<Destination> {
        self.asked
            .iter()
            .filter(|(server, _)| server == tag)
            .map(|(_, request)| request.destination.clone())
            .collect()
    }
}

fn at(millis: u64) -> Instant {
    Instant { nanos: 0 }.plus(Duration::from_millis(millis))
}

fn localhost() -> IpAddr {
    IpAddr::V4([127, 0, 0, 1])
}

fn handle(id: u64, tag: &str) -> OutboundHandle {
    OutboundHandle {
        id,
        tag: tag.to_string(),
    }
}

fn catalog(tags: &[&str]) -> OutboundCatalog {
    let outbounds = tags
        .iter()
        .enumerate()
        .map(|(id, tag)| (tag.to_string(), handle(id as u64, tag)))
        .collect();
    OutboundCatalog::new(outbounds, handle(0, tags[0]))
}

fn udp_server(tag: &str, port: u16, detour: &str) -> DnsServer {
    DnsServer {
        tag: tag.into(),
        transport: DnsServerTransport::Udp,
        destination: Destination::new(Host::Ip(localhost()), port),
        dial: Dial {
            detour: Some(detour.into()),
            connect_timeout: None,
            routing_mark: None,
            domain_resolver: None,
        },
    }
}

fn dns_runtime_config(
    final_server_tag: &str,
    servers: Vec<DnsServer>,
    rules: Vec<DnsRule>,
) -> DnsRuntimeConfig {
    DnsRuntimeConfig {
        final_server_tag: final_server_tag.into(),
        disable_cache: false,
        cache_capacity: DEFAULT_DNS_CACHE_CAPACITY,
        servers,
        rules,
    }
}

fn single_server() -> DnsExecutor {
    DnsExecutor::new(
        dns_runtime_config("direct", vec![udp_server("direct", 53, "direct")], Vec::new()),
        &catalog(&["direct"]),
    )
    .expect("dns executor should build")
}

fn dns_query_request(domain: &str, id: u16) -> DnsRequest {
    DnsRequest::new(
        build_a_query(domain, id).expect("query should build"),
        Network::Udp,
        "dns-in",
        SocketAddr::new(localhost(), 53000),
        Destination::new(Host::Ip(localhost()), 5353),
    )
}

fn build_dns_answer_response(domain: &str, ip: [u8; 4]) -> Vec<u8> {
    build_dns_answer_response_with_id(domain, ip, 60, 0x1234)
}

fn build_dns_answer_response_with_ttl(domain: &str, ip: [u8; 4], ttl_secs: u32) -> Vec<u8> {
    build_dns_answer_response_with_id(domain, ip, ttl_secs, 0x1234)
}

fn build_dns_answer_response_with_id(
    domain: &str,
    ip: [u8; 4],
    ttl_secs: u32,
    query_id: u16,
) -> Vec<u8> {
    let query = build_a_query(domain, query_id).expect("query should build");
    let mut response = Vec::new();
    response.extend_from_slice(&query[..2]);
    response.extend_from_slice(&[0x81, 0x80]);
    response.extend_from_slice(&1u16.to_be_bytes());
    response.extend_from_slice(&1u16.to_be_bytes());
    response.extend_from_slice(&0u16.to_be_bytes());
    response.extend_from_slice(&0u16.to_be_bytes());
    response.extend_from_slice(&query[12..]);
    response.extend_from_slice(&[0xc0, 0x0c]);
    response.extend_from_slice(&1u16.to_be_bytes());
    response.extend_from_slice(&1u16.to_be_bytes());
    response.extend_from_slice(&ttl_secs.to_be_bytes());
    response.extend_from_slice(&4u16.to_be_bytes());
    response.extend_from_slice(&ip);
    response
}

fn build_dns_empty_response(domain: &str) -> Vec<u8> {
    let query = build_a_query(domain, 0x1234).expect("query should build");
    let mut response = Vec::new();
    response.extend_from_slice(&query[..2]);
    response.extend_from_slice(&[0x81, 0x80]);
    response.extend_from_slice(&1u16.to_be_bytes());
    response.extend_from_slice(&0u16.to_be_bytes());
    response.extend_from_slice(&0u16.to_be_bytes());
    response.extend_from_slice(&0u16.to_be_bytes());
    response.extend_from_slice(&query[12..]);
    response
}

#[test]
fn tests_dns_executor_uses_dns_rule_and_returns_upstream_response() {
    let mut executor = DnsExecutor::new(
        DnsRuntimeConfig {
            final_server_tag: "fallback".into(),
            disable_cache: false,
            cache_capacity: 4096,
            servers: vec![
                udp_server("direct", 53, "direct"),
                udp_server("fallback", 54, "direct"),
            ],
            rules: vec![DnsRule {
                domain: vec!["trojan.example.com".into()],
                server_tag: "direct".into(),
                disable_cache: false,
            }],
        },
        &catalog(&["direct"]),
    )
    .expect("dns executor should build");
    let mut network = Servers::new(vec![("direct", vec![Behaviour::Answer(vec![0x12, 0x34])])]);

    let response = network
        .query(
            &mut executor,
            DnsRequest::new(
                vec![
                    0x00, 0x01, 0x01, 0x00, 0x00, 0x01, 0x00, 0x00, 0x00, 0x00, 0x00, 0x00, 0x06,
                    b't', b'r', b'o', b'j', b'a', b'n', 0x07, b'e', b'x', b'a', b'm', b'p', b'l',
                    b'e', 0x03, b'c', b'o', b'm', 0x00, 0x00, 0x01, 0x00, 0x01,
                ],
                Network::Udp,
                "dns-in",
                SocketAddr::new(localhost(), 53000),
                Destination::new(Host::Ip(localhost()), 5353),
            ),
            at(0),
        )
        .expect("dns query should succeed");

    assert_eq!(response.raw_message, vec![0x12, 0x34]);
}

#[test]
fn tests_dns_executor_cache_hit_avoids_second_upstream_exchange() {
    let mut executor = single_server();
    let mut network = Servers::new(vec![(
        "direct",
        vec![Behaviour::Answer(build_dns_answer_response_with_id(
            "cache.example.com",
            [203, 0, 113, 20],
            60,
            0x1001,
        ))],
    )]);

    network
        .query(&mut executor, dns_query_request("cache.example.com", 0x1001), at(0))
        .expect("first query should succeed");
    let second = network
        .query(&mut executor, dns_query_request("cache.example.com", 0x1002), at(1))
        .expect("second query should hit cache");

    assert_eq!(network.asked.len(), 1);
    assert_eq!(&second.raw_message[..2], &[0x10, 0x02]);
    assert_eq!(
        parse_response_ips(&second.raw_message).expect("cached response should remain usable"),
        vec![IpAddr::V4([203, 0, 113, 20])]
    );
}

#[test]
fn tests_dns_executor_expired_cache_triggers_new_upstream_exchange() {
    let mut executor = single_server();
    let mut network = Servers::new(vec![(
        "direct",
        vec![
            Behaviour::Answer(build_dns_answer_response_with_ttl(
                "expire.example.com",
                [203, 0, 113, 21],
                1,
            )),
            Behaviour::Answer(build_dns_answer_response_with_ttl(
                "expire.example.com",
                [203, 0, 113, 22],
                60,
            )),
        ],
    )]);

    network
        .query(&mut executor, dns_query_request("expire.example.com", 0x2001), at(0))
        .expect("first query should succeed");
    let refreshed = network
        .query(&mut executor, dns_query_request("expire.example.com", 0x2002), at(1100))
        .expect("expired cache should trigger refresh");

    assert_eq!(network.asked.len(), 2);
    assert_eq!(
        parse_response_ips(&refreshed.raw_message).expect("refreshed response should parse"),
        vec![IpAddr::V4([203, 0, 113, 22])]
    );
}

#[test]
fn tests_dns_rule_disable_cache_bypasses_cache() {
    let mut executor = DnsExecutor::new(
        dns_runtime_config(
            "direct",
            vec![udp_server("direct", 53, "direct")],
            vec![DnsRule {
                domain: vec!["bypass.example.com".into()],
                server_tag: "direct".into(),
                disable_cache: true,
            }],
        ),
        &catalog(&["direct"]),
    )
    .expect("dns executor should build");
    let mut network = Servers::new(vec![(
        "direct",
        vec![
            Behaviour::Answer(build_dns_answer_response("bypass.example.com", [203, 0, 113, 30])),
            Behaviour::Answer(build_dns_answer_response("bypass.example.com", [203, 0, 113, 30])),
        ],
    )]);

    network
        .query(&mut executor, dns_query_request("bypass.example.com", 0x3001), at(0))
        .expect("first query should succeed");
    network
        .query(&mut executor, dns_query_request("bypass.example.com", 0x3002), at(1))
        .expect("second query should also hit upstream");

    assert_eq!(network.asked.len(), 2);
}

#[test]
fn tests_domain_resolver_uses_explicit_server_and_parses_addresses() {
    let mut executor = DnsExecutor::new(
        DnsRuntimeConfig {
            final_server_tag: "remote".into(),
            disable_cache: false,
            cache_capacity: 4096,
            servers: vec![
                udp_server("direct", 53, "direct"),
                udp_server("remote", 54, "proxy"),
            ],
            rules: vec![DnsRule {
                domain: vec!["resolver.example.com".into()],
                server_tag: "remote".into(),
                disable_cache: false,
            }],
        },
        &catalog(&["direct", "proxy"]),
    )
    .expect("dns executor should build");
    let mut network = Servers::new(vec![(
        "direct",
        vec![Behaviour::Answer(build_dns_answer_response(
            "resolver.example.com",
            [203, 0, 113, 9],
        ))],
    )]);

    let addresses = network
        .resolve(
            &mut executor,
            Host::Domain("resolver.example.com".into()),
            443,
            ResolveContext::outbound_dial("proxy", Some("direct".into())),
            at(0),
        )
        .expect("domain resolver should succeed");

    assert_eq!(
        addresses,
        vec![SocketAddr::new(IpAddr::V4([203, 0, 113, 9]), 443)]
    );
    assert_eq!(network.asked.len(), 1);
    assert_eq!(
        network.destinations_of("direct"),
        vec![Destination::new(Host::Ip(localhost()), 53)]
    );
}

#[test]
fn tests_domain_resolver_cache_hit_avoids_second_exchange() {
    let mut executor = single_server();
    let mut network = Servers::new(vec![(
        "direct",
        vec![Behaviour::Answer(build_dns_answer_response(
            "resolve-cache.example.com",
            [203, 0, 113, 40],
        ))],
    )]);
    let mut resolve = || {
        network.resolve(
            &mut executor,
            Host::Domain("resolve-cache.example.com".into()),
            443,
            ResolveContext::outbound_dial("proxy", None),
            at(0),
        )
    };

    let first = resolve().expect("first resolve should succeed");
    let second = resolve().expect("second resolve should hit cache");

    assert_eq!(first, second);
    assert_eq!(network.asked.len(), 1);
}

#[test]
fn domain_resolver_disable_cache_bypasses_cache() {
    let mut executor = single_server();
    let mut network = Servers::new(vec![(
        "direct",
        vec![
            Behaviour::Answer(build_dns_answer_response(
                "resolve-bypass.example.com",
                [203, 0, 113, 41],
            )),
            Behaviour::Answer(build_dns_answer_response(
                "resolve-bypass.example.com",
                [203, 0, 113, 41],
            )),
        ],
    )]);
    let context = ResolveContext::outbound_dial("proxy", None).with_disable_cache(true);
    let mut resolve = |context| {
        network.resolve(
            &mut executor,
            Host::Domain("resolve-bypass.example.com".into()),
            443,
            context,
            at(0),
        )
    };

    resolve(context.clone()).expect("first resolve should succeed");
    resolve(context).expect("second resolve should bypass cache");

    assert_eq!(network.asked.len(), 2);
}

#[test]
fn tests_concurrent_resolution_uses_first_success_and_cancels_loser() {
    let mut executor = DnsExecutor::new(
        dns_runtime_config(
            "remote",
            vec![
                udp_server("remote", 53, "dns-egress"),
                udp_server("bootstrap", 54, "direct"),
            ],
            Vec::new(),
        ),
        &catalog(&["direct", "dns-egress", "proxy"]),
    )
    .expect("dns executor should build");
    let mut network = Servers::new(vec![
        ("remote", vec![Behaviour::Hang]),
        (
            "bootstrap",
            vec![Behaviour::Answer(build_dns_answer_response(
                "concurrent.example.com",
                [203, 0, 113, 50],
            ))],
        ),
    ]);

    let addresses = network
        .resolve(
            &mut executor,
            Host::Domain("concurrent.example.com".into()),
            443,
            ResolveContext::outbound_dial("proxy", None),
            at(0),
        )
        .expect("concurrent resolution should succeed");

    assert_eq!(
        addresses,
        vec![SocketAddr::new(IpAddr::V4([203, 0, 113, 50]), 443)]
    );
    assert_eq!(
        network.destinations_of("bootstrap"),
        vec![Destination::new(Host::Ip(localhost()), 54)]
    );
    assert_eq!(network.destinations_of("remote").len(), 1);
    assert_eq!(network.cancelled, vec!["remote"]);
}

#[test]
fn tests_concurrent_resolution_returns_clear_all_failed_error() {
    let mut executor = DnsExecutor::new(
        dns_runtime_config(
            "remote",
            vec![
                udp_server("remote", 53, "dns-egress"),
                udp_server("bootstrap", 54, "direct"),
            ],
            Vec::new(),
        ),
        &catalog(&["direct", "dns-egress", "proxy"]),
    )
    .expect("dns executor should build");
    let mut network = Servers::new(Vec::new());

    let err = network
        .resolve(
            &mut executor,
            Host::Domain("all-failed.example.com".into()),
            443,
            ResolveContext::outbound_dial("proxy", None),
            at(0),
        )
        .expect_err("all candidates should fail");

    assert!(err.message().contains(
        "all dns upstream queries failed for dial_side_resolve 'all-failed.example.com'"
    ));
    assert!(err.message().contains("[remote,bootstrap]"));
    assert_eq!(
        err,
        ProxyError::Protocol(
            "all dns upstream queries failed for dial_side_resolve 'all-failed.example.com' \
             across candidates [remote,bootstrap]: remote: test packet session closed; \
             bootstrap: test packet session closed"
                .into()
        )
    );
}

#[test]
fn tests_domain_resolver_rejects_recursive_default_path_without_safe_server() {
    let mut executor = DnsExecutor::new(
        dns_runtime_config("remote", vec![udp_server("remote", 53, "proxy")], Vec::new()),
        &catalog(&["proxy"]),
    )
    .expect("dns executor should build");
    let mut network = Servers::new(Vec::new());

    let err = network
        .resolve(
            &mut executor,
            Host::Domain("loop.example.com".into()),
            443,
            ResolveContext::outbound_dial("proxy", None),
            at(0),
        )
        .expect_err("recursive default resolver path should be rejected");

    assert!(err.message().contains("no safe dns server"));
    assert_eq!(err.kind(), ErrorKind::Resolve);
}

#[test]
fn tests_domain_resolver_uses_safe_final_server_when_allowed() {
    let mut executor = DnsExecutor::new(
        dns_runtime_config(
            "remote",
            vec![
                udp_server("remote", 54, "dns-egress"),
                udp_server("bootstrap", 53, "direct"),
            ],
            Vec::new(),
        ),
        &catalog(&["direct", "dns-egress"]),
    )
    .expect("dns executor should build");
    let mut network = Servers::new(vec![(
        "remote",
        vec![Behaviour::Answer(build_dns_answer_response(
            "safe-final.example.com",
            [203, 0, 113, 10],
        ))],
    )]);

    let addresses = network
        .resolve(
            &mut executor,
            Host::Domain("safe-final.example.com".into()),
            443,
            ResolveContext::outbound_dial("proxy", None),
            at(0),
        )
        .expect("domain resolver should use safe final server");

    assert_eq!(
        addresses,
        vec![SocketAddr::new(IpAddr::V4([203, 0, 113, 10]), 443)]
    );
    assert_eq!(
        network.destinations_of("remote"),
        vec![Destination::new(Host::Ip(localhost()), 54)]
    );
}

#[test]
fn tests_domain_resolver_skips_caller_dns_server_and_uses_safe_fallback() {
    let mut executor = DnsExecutor::new(
        dns_runtime_config(
            "remote",
            vec![
                udp_server("remote", 54, "proxy"),
                udp_server("bootstrap", 53, "direct"),
            ],
            Vec::new(),
        ),
        &catalog(&["direct", "proxy"]),
    )
    .expect("dns executor should build");
    let mut network = Servers::new(vec![(
        "bootstrap",
        vec![Behaviour::Answer(build_dns_answer_response(
            "fallback.example.com",
            [203, 0, 113, 11],
        ))],
    )]);

    let addresses = network
        .resolve(
            &mut executor,
            Host::Domain("fallback.example.com".into()),
            443,
            ResolveContext {
                purpose: ResolvePurpose::DnsUpstreamDial,
                caller_outbound_tag: Some("proxy".into()),
                caller_dns_server_tag: Some("remote".into()),
                explicit_server_tag: None,
                disable_cache: false,
                recursion_depth: 1,
            },
            at(0),
        )
        .expect("domain resolver should skip caller dns server");

    assert_eq!(
        addresses,
        vec![SocketAddr::new(IpAddr::V4([203, 0, 113, 11]), 443)]
    );
    assert_eq!(network.asked.len(), 1);
    assert_eq!(
        network.destinations_of("bootstrap"),
        vec![Destination::new(Host::Ip(localhost()), 53)]
    );
}

#[test]
fn tests_domain_resolver_rejects_missing_explicit_server() {
    let mut executor = single_server();
    let mut network = Servers::new(Vec::new());

    let err = network
        .resolve(
            &mut executor,
            Host::Domain("missing.example.com".into()),
            443,
            ResolveContext::outbound_dial("proxy", Some("missing".into())),
            at(0),
        )
        .expect_err("missing explicit resolver should fail");

    assert!(err
        .message()
        .contains("explicit domain_resolver points to missing dns server tag: missing"));
}

#[test]
fn tests_domain_resolver_rejects_empty_answer_response() {
    let mut executor = single_server();
    let mut network = Servers::new(vec![(
        "direct",
        vec![Behaviour::Answer(build_dns_empty_response(
            "empty.example.com",
        ))],
    )]);

    let err = network
        .resolve(
            &mut executor,
            Host::Domain("empty.example.com".into()),
            443,
            ResolveContext::outbound_dial("proxy", None),
            at(0),
        )
        .expect_err("empty response should fail resolution");

    assert!(err
        .message()
        .contains("dns response did not contain usable A/AAAA answers"));
}

#[test]
fn tests_domain_resolver_propagates_upstream_exchange_failure() {
    let mut executor = single_server();
    let mut network = Servers::new(Vec::new());

    let err = network
        .resolve(
            &mut executor,
            Host::Domain("failure.example.com".into()),
            443,
            ResolveContext::outbound_dial("proxy", None),
            at(0),
        )
        .expect_err("upstream exchange failure should surface");

    assert!(err.message().contains("test packet session closed"));
}

#[test]
fn tests_domain_resolver_rejects_excessive_recursion_depth() {
    let mut executor = single_server();
    let mut network = Servers::new(Vec::new());

    let err = network
        .resolve(
            &mut executor,
            Host::Domain("depth.example.com".into()),
            443,
            ResolveContext::outbound_dial("direct", None).with_depth(MAX_DNS_RECURSION_DEPTH),
            at(0),
        )
        .expect_err("resolver should enforce recursion depth");

    assert!(err.message().contains("recursion depth exceeded"));
    assert_eq!(
        err.message(),
        "domain resolver recursion depth exceeded for depth.example.com:443 at depth 4"
    );
}

fn local_config() -> DnsRuntimeConfig {
    DnsRuntimeConfig {
        final_server_tag: "local".into(),
        disable_cache: false,
        cache_capacity: 4096,
        servers: vec![DnsServer {
            tag: "local".into(),
            transport: DnsServerTransport::Local,
            destination: Destination::new(Host::Domain("local".into()), 53),
            dial: Dial::default(),
        }],
        rules: Vec::new(),
    }
}

#[test]
fn tests_local_dns_executor_builds_with_default_outbound() {
    let executor = DnsExecutor::new(
        local_config(),
        &OutboundCatalog::new(Vec::new(), handle(0, "direct")),
    );

    assert!(executor.is_ok());
}

#[test]
fn executor_local_dns_executor_builds_with_default_outbound() {
    let executor = DnsExecutor::new(
        local_config(),
        &OutboundCatalog::new(Vec::new(), handle(0, "direct")),
    );

    assert!(executor.is_ok());
}

#[test]
fn configurations_with_faults_are_refused() {
    let build = |servers| {
        DnsExecutor::new(
            dns_runtime_config("a", servers, Vec::new()),
            &catalog(&["direct"]),
        )
        .map(|_| ())
    };
    assert_eq!(
        build(vec![udp_server("a", 53, "direct"), udp_server("a", 54, "direct")]),
        Err(ProxyError::Config("duplicate dns server tag in runtime".into()))
    );
    assert_eq!(
        build(vec![udp_server("a", 53, "direct"), udp_server("b", 54, "nowhere")]),
        Err(ProxyError::Config("missing outbound tag: nowhere".into()))
    );
    assert_eq!(
        build(vec![udp_server("a", 53, "nowhere"), udp_server("a", 54, "elsewhere")]),
        Err(ProxyError::Config("missing outbound tag: nowhere".into()))
    );
    assert_eq!(build(Vec::new()), Ok(()));
}

#[test]
fn servers_keep_their_configured_transport() {
    let executor = single_server();
    let runtime = executor.lookup_server("direct").expect("server should exist");
    match &runtime.upstream {
        Upstream::Udp(udp) => {
            assert_eq!(udp.destination, Destination::new(Host::Ip(localhost()), 53));
            assert_eq!(udp.query_timeout, Duration::from_secs(5));
            assert_eq!(udp.dialer.outbound.tag, "direct");
        }
        other => panic!("unexpected upstream {other:?}"),
    }
    assert_eq!(
        executor.lookup_server("other").map(|_| ()),
        Err(ProxyError::Config("missing dns server tag: other".into()))
    );
}

#[test]
fn requests_carry_ids_and_contexts() {
    let mut executor = single_server();
    let mut network = Servers::new(Vec::new());
    for _ in 0..2 {
        let _ = network.query(&mut executor, dns_query_request("ids.example.com", 9), at(0));
    }
    let _ = network.resolve(
        &mut executor,
        Host::Domain("Ids.example.com".into()),
        1,
        ResolveContext::outbound_dial("proxy", None),
        at(0),
    );
    let ids: Vec<_> = network.asked.iter().map(|(_, r)| r.session_id).collect();
    assert_eq!(ids, vec![Some(1), Some(2), Some(3)]);
    let client = network.asked[0].1.resolve_context.as_ref().expect("context");
    assert_eq!(client.purpose, ResolvePurpose::DnsUpstreamDial);
    assert_eq!(client.recursion_depth, 1);
    assert_eq!(client.caller_dns_server_tag.as_deref(), Some("direct"));

    let resolve = &network.asked[2].1;
    assert_eq!(resolve.inbound_tag, "dns-resolver");
    assert_eq!(resolve.resolution_domain.as_deref(), Some("Ids.example.com"));
    let question = parse_query_info(&resolve.raw_message).expect("question");
    assert_eq!((question.id, question.name.as_str()), (3, "ids.example.com"));
}

#[test]
fn an_address_needs_no_resolution() {
    let mut executor = single_server();
    let mut network = Servers::new(Vec::new());
    let addresses = network.resolve(
        &mut executor,
        Host::Ip(localhost()),
        80,
        ResolveContext::outbound_dial("proxy", None).with_depth(200),
        at(0),
    );
    assert_eq!(addresses, Ok(vec![SocketAddr::new(localhost(), 80)]));
    assert!(network.asked.is_empty());
}

#[test]
fn a_name_that_is_no_domain_is_refused_by_resolution() {
    let mut executor = single_server();
    let mut network = Servers::new(Vec::new());
    let err = network.resolve(
        &mut executor,
        Host::Domain("a..b".into()),
        80,
        ResolveContext::outbound_dial("proxy", None),
        at(0),
    );
    assert_eq!(
        err,
        Err(ProxyError::Protocol("dns label length is invalid".into()))
    );
}

#[test]
fn a_disabled_cache_is_never_used() {
    let mut config =
        dns_runtime_config("direct", vec![udp_server("direct", 53, "direct")], Vec::new());
    config.disable_cache = true;
    let mut executor =
        DnsExecutor::new(config, &catalog(&["direct"])).expect("dns executor should build");
    let answer = || Behaviour::Answer(build_dns_answer_response("x.example", [1, 2, 3, 4]));
    let mut network = Servers::new(vec![("direct", vec![answer(), answer()])]);
    for id in 0..2 {
        network
            .query(&mut executor, dns_query_request("x.example", id), at(0))
            .expect("query should succeed");
    }
    assert_eq!(network.asked.len(), 2);

    let mut cached = single_server();
    let mut network = Servers::new(vec![("direct", vec![answer(), answer()])]);
    for id in 0..2 {
        network
            .query(
                &mut cached,
                dns_query_request("x.example", id).with_disable_cache(true),
                at(0),
            )
            .expect("query should succeed");
    }
    assert_eq!(network.asked.len(), 2);
}

#[test]
fn a_failed_race_has_the_kind_of_its_last_failure() {
    let mut executor = DnsExecutor::new(
        dns_runtime_config(
            "remote",
            vec![
                udp_server("remote", 53, "dns-egress"),
                udp_server("bootstrap", 54, "direct"),
            ],
            Vec::new(),
        ),
        &catalog(&["direct", "dns-egress"]),
    )
    .expect("dns executor should build");
    let mut kind_after = |first, second| {
        Servers::new(vec![
            ("remote", vec![Behaviour::Fail(first)]),
            ("bootstrap", vec![second]),
        ])
        .resolve(
            &mut executor,
            Host::Domain("kinds.example".into()),
            1,
            ResolveContext::outbound_dial("proxy", None),
            at(0),
        )
        .expect_err("both fail")
    };
    let slow = || ProxyError::timeout("slow");
    assert_eq!(
        kind_after(
            ProxyError::Io("gone".into()),
            Behaviour::Fail(slow())
        )
        .kind(),
        ErrorKind::Timeout
    );
    assert_eq!(
        kind_after(slow(), Behaviour::Fail(ProxyError::Io("gone".into()))).kind(),
        ErrorKind::Protocol
    );
    assert_eq!(
        kind_after(slow(), Behaviour::Answer(build_dns_empty_response("kinds.example"))).kind(),
        ErrorKind::Resolve
    );
    let silent = kind_after(slow(), Behaviour::Hang);
    assert_eq!(silent.kind(), ErrorKind::Timeout);
    assert!(silent.message().ends_with("]: remote: slow"));
}

#[test]
fn a_race_without_any_report_says_so() {
    let mut executor = DnsExecutor::new(
        dns_runtime_config(
            "remote",
            vec![
                udp_server("remote", 53, "dns-egress"),
                udp_server("bootstrap", 54, "direct"),
            ],
            Vec::new(),
        ),
        &catalog(&["direct", "dns-egress"]),
    )
    .expect("dns executor should build");
    let err = Servers::new(vec![
        ("remote", vec![Behaviour::Hang]),
        ("bootstrap", vec![Behaviour::Hang]),
    ])
    .resolve(
        &mut executor,
        Host::Domain("silent.example".into()),
        1,
        ResolveContext::outbound_dial("proxy", None),
        at(0),
    )
    .expect_err("nobody answers");
    assert_eq!(err.kind(), ErrorKind::Resolve);
    assert!(err
        .message()
        .ends_with("]: no upstream failure details were captured"));
}
