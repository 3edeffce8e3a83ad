use veex::error::ProxyError;
use veex::execution::catalog::OutboundCatalog;
use veex::execution::outbound::{packet_not_supported, OutboundHandle};
use veex::execution::registry::OutboundRegistryBuilder;
use veex::types::Network;

fn outbound(id: u64, tag: &str) -> OutboundHandle {
    OutboundHandle {
        id,
        tag: tag.to_string(),
    }
}

#[test]
fn catalog_resolves_missing_detour_to_default_outbound() {
    let default_outbound = outbound(1, "direct");
    let catalog = OutboundCatalog::new(Vec::new(), default_outbound.clone());

    let resolved = catalog.default_outbound();

    assert!(resolved.same(&default_outbound));
}

#[test]
fn catalog_resolves_explicit_detour_without_using_default() {
    let explicit_outbound = outbound(2, "proxy");
    let catalog = OutboundCatalog::new(
        vec![("proxy".to_string(), explicit_outbound.clone())],
        outbound(1, "direct"),
    );

    let resolved = catalog
        .require("proxy")
        .expect("explicit detour should resolve");

    assert!(resolved.same(&explicit_outbound));
}

#[test]
fn catalog_rejects_missing_explicit_detour() {
    let catalog = OutboundCatalog::new(Vec::new(), outbound(1, "direct"));

    let err = match catalog.require("missing") {
        Ok(_) => panic!("missing explicit detour should remain an error"),
        Err(err) => err,
    };

    assert!(err.message().contains("missing outbound tag: missing"));
}

#[test]
fn catalog_lookups_agree() {
    let catalog = OutboundCatalog::new(
        vec![
            ("a".to_string(), outbound(1, "a")),
            ("b".to_string(), outbound(2, "b")),
            ("a".to_string(), outbound(3, "a")),
        ],
        outbound(9, "d"),
    );
    // The later of two entries under a tag counts.
    assert_eq!(catalog.get("a").expect("a").id, 3);
    assert_eq!(catalog.get("b").expect("b").id, 2);
    assert!(catalog.contains("a"));
    assert!(!catalog.contains("d"));
    assert!(catalog.get("d").is_none());
}

#[test]
fn registry_resolves_missing_detour_to_default_outbound() {
    let default_outbound = outbound(1, "direct");
    let registry = OutboundRegistryBuilder::default().finalize(default_outbound.clone());

    let resolved = registry.default_outbound();

    assert!(resolved.same(&default_outbound));
}

#[test]
fn registry_resolves_explicit_detour_without_using_default() {
    let explicit_outbound = outbound(2, "proxy");
    let mut registry = OutboundRegistryBuilder::default();
    registry
        .register(explicit_outbound.clone())
        .expect("explicit outbound should register");
    let registry = registry.finalize(outbound(1, "direct"));

    let resolved = registry
        .require("proxy")
        .expect("explicit detour should resolve");

    assert!(resolved.same(&explicit_outbound));
}

#[test]
fn registry_rejects_missing_explicit_detour() {
    let registry = OutboundRegistryBuilder::default().finalize(outbound(1, "direct"));

    let err = match registry.require("missing") {
        Ok(_) => panic!("missing explicit detour should remain an error"),
        Err(err) => err,
    };

    assert!(err.message().contains("missing outbound tag: missing"));
}

#[test]
fn lifecycle_iter_does_not_duplicate_registered_default_outbound() {
    let default_outbound = outbound(1, "direct");
    let mut registry = OutboundRegistryBuilder::default();
    registry
        .register(default_outbound.clone())
        .expect("default outbound should register");
    let registry = registry.finalize(default_outbound);

    assert_eq!(registry.lifecycle_iter().len(), 1);
}

#[test]
fn registry_keeps_the_order_and_refuses_taken_tags() {
    let mut builder = OutboundRegistryBuilder::default();
    builder.register(outbound(3, "c")).expect("free tag");
    builder.register(outbound(1, "a")).expect("free tag");
    assert_eq!(
        builder.register(outbound(8, "c")),
        Err(ProxyError::Config(
            "duplicate outbound tag in registry: c".into()
        ))
    );
    let registry = builder.finalize(outbound(9, "a"));
    assert_eq!(registry.len(), 2);
    assert!(!registry.is_empty());
    assert!(registry.contains("a"));
    assert!(!registry.contains("b"));
    assert_eq!(registry.get("c").expect("c").id, 3);
    let ids: Vec<_> = registry.iter().iter().map(|o| o.id).collect();
    assert_eq!(ids, vec![3, 1]);
    let owned: Vec<_> = registry.lifecycle_iter().iter().map(|o| o.id).collect();
    assert_eq!(owned, vec![3, 1, 9]);

    let empty = OutboundRegistryBuilder::default().finalize(outbound(1, "d"));
    assert!(empty.is_empty());
    assert_eq!(empty.lifecycle_iter().len(), 1);
}

#[test]
fn streams_only_outbounds_say_so() {
    let err = packet_not_supported("direct", Network::Udp);
    assert!(err.message().contains("direct"));
    assert!(err.message().contains("udp"));
}
