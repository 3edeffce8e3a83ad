use veex::dns::cache::{DnsCache, DnsCacheKey, DnsCacheLookup};
use veex::time::{Duration, Instant};

fn now() -> Instant {
    Instant { nanos: 5_000_000_000 }
}

fn tags(list: &[&str]) -> Vec<String> {
    list.iter().map(|tag| tag.to_string()).collect()
}

fn key(name: &str) -> DnsCacheKey {
    DnsCacheKey::new(name.into(), 1, &tags(&["remote"]))
}

#[test]
fn cache_hit_and_expiry_follow_ttl() {
    let now = now();
    let mut cache = DnsCache::new(4);
    let key = DnsCacheKey::new("example.com".into(), 1, &vec!["remote".into()]);

    assert_eq!(cache.lookup_at(&key, now), DnsCacheLookup::Miss);

    cache.store_at(
        key.clone(),
        vec![1, 2, 3],
        Duration::from_secs(30),
        "remote".into(),
        now,
    );

    assert!(matches!(cache.lookup_at(&key, now), DnsCacheLookup::Hit(_)));
    assert_eq!(
        cache.lookup_at(&key, now.plus(Duration::from_secs(30))),
        DnsCacheLookup::Expired
    );
}

#[test]
fn cache_evicts_least_recently_used_entry() {
    let now = now();
    let mut cache = DnsCache::new(1);
    let first = DnsCacheKey::new("one.example".into(), 1, &vec!["remote".into()]);
    let second = DnsCacheKey::new("two.example".into(), 1, &vec!["remote".into()]);

    cache.store_at(
        first.clone(),
        vec![1],
        Duration::from_secs(30),
        "remote".into(),
        now,
    );
    cache.store_at(
        second.clone(),
        vec![2],
        Duration::from_secs(30),
        "remote".into(),
        now.plus(Duration::from_secs(1)),
    );

    assert_eq!(
        cache.lookup_at(&first, now.plus(Duration::from_secs(2))),
        DnsCacheLookup::Miss
    );
    assert!(matches!(
        cache.lookup_at(&second, now.plus(Duration::from_secs(2))),
        DnsCacheLookup::Hit(_)
    ));
}

#[test]
fn lookup_returns_the_stored_response_until_it_expires() {
    let now = now();
    let mut cache = DnsCache::new(2);
    cache.store_at(
        key("a.example"),
        vec![9, 8],
        Duration::from_millis(1500),
        "remote".into(),
        now,
    );

    let last = now.plus(Duration { nanos: 1_499_999_999 });
    match cache.lookup_at(&key("a.example"), last) {
        DnsCacheLookup::Hit(value) => {
            assert_eq!(value.raw_message, vec![9, 8]);
            assert_eq!(value.stored_server_tag, "remote");
            assert_eq!(value.ttl, Duration::from_millis(1500));
        }
        other => panic!("expected a hit, got {other:?}"),
    }
    let expired = now.plus(Duration { nanos: 1_500_000_000 });
    assert_eq!(
        cache.lookup_at(&key("a.example"), expired),
        DnsCacheLookup::Expired
    );
    assert_eq!(
        cache.lookup_at(&key("a.example"), now),
        DnsCacheLookup::Miss
    );
}

#[test]
fn a_hit_protects_an_entry_from_eviction() {
    let now = now();
    let ttl = Duration::from_secs(30);
    let mut cache = DnsCache::new(2);
    cache.store_at(key("a"), vec![1], ttl, "remote".into(), now);
    cache.store_at(key("b"), vec![2], ttl, "remote".into(), now);
    assert!(matches!(
        cache.lookup_at(&key("a"), now),
        DnsCacheLookup::Hit(_)
    ));
    cache.store_at(key("c"), vec![3], ttl, "remote".into(), now);

    assert_eq!(cache.lookup_at(&key("b"), now), DnsCacheLookup::Miss);
    assert!(matches!(
        cache.lookup_at(&key("a"), now),
        DnsCacheLookup::Hit(_)
    ));
    assert!(matches!(
        cache.lookup_at(&key("c"), now),
        DnsCacheLookup::Hit(_)
    ));
}

#[test]
fn storing_again_replaces_the_response_and_its_expiry() {
    let now = now();
    let mut cache = DnsCache::new(1);
    cache.store_at(
        key("a"),
        vec![1],
        Duration::from_secs(1),
        "remote".into(),
        now,
    );
    cache.store_at(
        key("a"),
        vec![2],
        Duration::from_secs(9),
        "other".into(),
        now,
    );
    match cache.lookup_at(&key("a"), now.plus(Duration::from_secs(5))) {
        DnsCacheLookup::Hit(value) => {
            assert_eq!(value.raw_message, vec![2]);
            assert_eq!(value.stored_server_tag, "other");
        }
        other => panic!("expected a hit, got {other:?}"),
    }
}

#[test]
fn nothing_is_kept_without_a_lifetime_or_without_capacity() {
    let now = now();
    let mut cache = DnsCache::new(1);
    cache.store_at(
        key("a"),
        vec![1],
        Duration::from_secs(0),
        "remote".into(),
        now,
    );
    assert_eq!(cache.lookup_at(&key("a"), now), DnsCacheLookup::Miss);

    let mut empty = DnsCache::new(0);
    empty.store_at(
        key("a"),
        vec![1],
        Duration::from_secs(5),
        "remote".into(),
        now,
    );
    assert_eq!(empty.lookup_at(&key("a"), now), DnsCacheLookup::Miss);
}

#[test]
fn the_clock_drives_lookup_and_store() {
    let mut cache = DnsCache::new(4);
    cache.store(key("a"), vec![1], Duration::from_secs(3600), "remote".into());
    assert!(matches!(cache.lookup(&key("a")), DnsCacheLookup::Hit(_)));
    cache.store(key("b"), vec![1], Duration { nanos: 1 }, "remote".into());
    let stored = std::time::Instant::now();
    while stored.elapsed() < std::time::Duration::from_millis(2) {}
    assert_eq!(cache.lookup(&key("b")), DnsCacheLookup::Expired);
}

#[test]
fn the_scope_of_a_key_is_the_joined_tags() {
    let key = DnsCacheKey::new("a".into(), 28, &tags(&["remote", "bootstrap"]));
    assert_eq!(key.selection_scope, "remote,bootstrap");
    assert_eq!(key.query_type, 28);
    let none = DnsCacheKey::new("a".into(), 28, &Vec::new());
    assert_eq!(none.selection_scope, "");
}
