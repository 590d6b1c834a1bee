use stead::resources::{ClaimResult, ResourceError, ResourceEvent, ResourceKey, ResourceLease, ResourceRegistry};

#[test]
fn claiming_free_resource_creates_owned_lease() {
    let mut registry = ResourceRegistry::default();

    let result = registry.claim(ResourceKey::port(3000), "agent-a");

    match result {
        ClaimResult::Claimed(lease) => {
            assert_eq!(lease.resource, ResourceKey::port(3000));
            assert_eq!(lease.owner, "agent-a");
        }
        other => panic!("unexpected result: {other:?}"),
    }
}

#[test]
fn owner_can_release_and_other_agent_can_claim_afterwards() {
    let mut registry = ResourceRegistry::default();

    let first = registry.claim(ResourceKey::port(3000), "agent-a");
    assert!(matches!(first, ClaimResult::Claimed(_)));

    registry
        .release(ResourceKey::port(3000), "agent-a")
        .expect("owner should be able to release lease");

    let second = registry.claim(ResourceKey::port(3000), "agent-b");
    assert!(matches!(second, ClaimResult::Claimed(_)));
}

#[test]
fn non_owner_cannot_release_lease() {
    let mut registry = ResourceRegistry::default();

    let first = registry.claim(ResourceKey::port(3000), "agent-a");
    assert!(matches!(first, ClaimResult::Claimed(_)));

    let error = registry
        .release(ResourceKey::port(3000), "agent-b")
        .expect_err("non-owner release should fail");

    assert_eq!(error.code(), "not_owner");
}

#[test]
fn conflicting_port_claim_negotiates_next_free_port() {
    let mut registry = ResourceRegistry::with_port_range(3000, 3003);

    assert!(matches!(
        registry.claim(ResourceKey::port(3000), "agent-a"),
        ClaimResult::Claimed(_)
    ));

    let result = registry.claim(ResourceKey::port(3000), "agent-b");

    match result {
        ClaimResult::Negotiated {
            requested,
            assigned,
            held_by,
        } => {
            assert_eq!(requested, ResourceKey::port(3000));
            assert_eq!(held_by.owner, "agent-a");
            assert_eq!(assigned.resource, ResourceKey::port(3001));
            assert_eq!(assigned.owner, "agent-b");
        }
        other => panic!("expected negotiated claim, got {other:?}"),
    }
}

#[test]
fn negotiation_is_deterministic_and_selects_lowest_available_port() {
    let mut registry = ResourceRegistry::with_port_range(3000, 3005);

    assert!(matches!(
        registry.claim(ResourceKey::port(3000), "agent-a"),
        ClaimResult::Claimed(_)
    ));
    assert!(matches!(
        registry.claim(ResourceKey::port(3001), "agent-z"),
        ClaimResult::Claimed(_)
    ));
    assert!(matches!(
        registry.claim(ResourceKey::port(3002), "agent-y"),
        ClaimResult::Claimed(_)
    ));

    let result = registry.claim(ResourceKey::port(3000), "agent-b");

    match result {
        ClaimResult::Negotiated { assigned, .. } => {
            assert_eq!(assigned.resource, ResourceKey::port(3003));
        }
        other => panic!("expected negotiated claim, got {other:?}"),
    }
}

#[test]
fn conflict_is_explicit_when_port_range_exhausted() {
    let mut registry = ResourceRegistry::with_port_range(3000, 3001);

    assert!(matches!(
        registry.claim(ResourceKey::port(3000), "agent-a"),
        ClaimResult::Claimed(_)
    ));
    assert!(matches!(
        registry.claim(ResourceKey::port(3001), "agent-c"),
        ClaimResult::Claimed(_)
    ));

    let result = registry.claim(ResourceKey::port(3000), "agent-b");

    match result {
        ClaimResult::Conflict(conflict) => {
            assert_eq!(conflict.requested, ResourceKey::port(3000));
            assert_eq!(conflict.held_by.owner, "agent-a");
        }
        other => panic!("expected conflict, got {other:?}"),
    }
}

#[test]
fn emits_conflict_escalation_event_when_negotiation_fails() {
    let mut registry = ResourceRegistry::with_port_range(3000, 3001);

    assert!(matches!(
        registry.claim(ResourceKey::port(3000), "agent-a"),
        ClaimResult::Claimed(_)
    ));
    assert!(matches!(
        registry.claim(ResourceKey::port(3001), "agent-c"),
        ClaimResult::Claimed(_)
    ));

    let result = registry.claim(ResourceKey::port(3000), "agent-b");
    assert!(matches!(result, ClaimResult::Conflict(_)));

    let events = registry.drain_events();
    assert_eq!(events.len(), 1);

    match &events[0] {
        ResourceEvent::ConflictEscalated {
            requested,
            requested_by,
            held_by,
            reason,
        } => {
            assert_eq!(*requested, ResourceKey::port(3000));
            assert_eq!(requested_by, "agent-b");
            assert_eq!(held_by, "agent-a");
            assert_eq!(*reason, "port_range_exhausted");
        }
    }
}

#[test]
fn silent_negotiation_does_not_emit_escalation_event() {
    let mut registry = ResourceRegistry::with_port_range(3000, 3003);

    assert!(matches!(
        registry.claim(ResourceKey::port(3000), "agent-a"),
        ClaimResult::Claimed(_)
    ));

    let result = registry.claim(ResourceKey::port(3000), "agent-b");
    assert!(matches!(result, ClaimResult::Negotiated { .. }));

    let events = registry.drain_events();
    assert!(events.is_empty());
}

#[test]
fn port_contention_negotiates_then_escalates() {
    let mut registry = ResourceRegistry::with_port_range(3000, 3001);

    let a = registry.claim(ResourceKey::port(3000), "a");
    assert_eq!(
        a,
        ClaimResult::Claimed(ResourceLease { resource: ResourceKey::Port(3000), owner: "a".to_string() })
    );

    let b = registry.claim(ResourceKey::port(3000), "b");
    assert_eq!(
        b,
        ClaimResult::Negotiated {
            requested: ResourceKey::Port(3000),
            assigned: ResourceLease { resource: ResourceKey::Port(3001), owner: "b".to_string() },
            held_by: ResourceLease { resource: ResourceKey::Port(3000), owner: "a".to_string() },
        }
    );

    let c = registry.claim(ResourceKey::port(3000), "c");
    assert!(matches!(c, ClaimResult::Conflict(_)));
    let events = registry.drain_events();
    assert_eq!(
        events,
        vec![ResourceEvent::ConflictEscalated {
            requested: ResourceKey::Port(3000),
            requested_by: "c".to_string(),
            held_by: "a".to_string(),
            reason: "port_range_exhausted",
        }]
    );
    assert!(registry.drain_events().is_empty());
}

#[test]
fn owner_reclaim_is_idempotent() {
    let mut registry = ResourceRegistry::with_port_range(3000, 3001);
    let first = registry.claim(ResourceKey::port(3001), "a");
    let second = registry.claim(ResourceKey::port(3001), "a");
    assert_eq!(first, second);
    assert_eq!(registry.export_leases().len(), 1);
}

#[test]
fn release_of_unknown_resource_is_not_found() {
    let mut registry = ResourceRegistry::default();
    let err = registry.release(ResourceKey::port(3999), "a").unwrap_err();
    assert_eq!(err, ResourceError::NotFound(ResourceKey::Port(3999)));
    assert_eq!(err.code(), "not_found");
}

#[test]
fn negotiation_never_wraps_below_the_request() {
    let mut registry = ResourceRegistry::with_port_range(3000, 3002);
    registry.claim(ResourceKey::port(3002), "a");
    let result = registry.claim(ResourceKey::port(3002), "b");
    assert!(matches!(result, ClaimResult::Conflict(_)));
}

#[test]
fn resource_export_then_import_preserves_leases() {
    let mut source = ResourceRegistry::with_port_range(3000, 3010);
    source.claim(ResourceKey::port(3000), "a");
    source.claim(ResourceKey::port(3000), "b");
    source.claim(ResourceKey::port(3005), "c");
    let exported = source.export_leases();

    let mut restored = ResourceRegistry::with_port_range(3000, 3010);
    restored.import_leases(exported.clone());
    assert_eq!(restored.export_leases(), exported);
    let err = restored.release(ResourceKey::port(3001), "a").unwrap_err();
    assert_eq!(err.code(), "not_owner");
    assert!(restored.release(ResourceKey::port(3001), "b").is_ok());
}

#[test]
fn claim_sequences_keep_one_lease_per_port_inside_the_range() {
    let mut registry = ResourceRegistry::with_port_range(3000, 3003);
    for owner in ["a", "b", "c", "d", "e", "f"] {
        registry.claim(ResourceKey::port(3000), owner);
    }
    let leases = registry.export_leases();
    let mut ports: Vec<u16> = leases
        .iter()
        .map(|l| match l.resource {
            ResourceKey::Port(p) => p,
        })
        .collect();
    ports.sort();
    assert_eq!(ports, vec![3000, 3001, 3002, 3003]);
    assert_eq!(registry.drain_events().len(), 2);
}

#[test]
fn same_claim_sequence_gives_same_ports() {
    let run = || {
        let mut registry = ResourceRegistry::with_port_range(3000, 3004);
        let mut assigned = Vec::new();
        for (port, owner) in [(3001, "a"), (3001, "b"), (3000, "c"), (3001, "d"), (3001, "b")] {
            assigned.push(registry.claim(ResourceKey::port(port), owner));
        }
        assigned
    };
    assert_eq!(run(), run());
}

#[test]
fn free_port_outside_the_range_is_refused() {
    let mut registry = ResourceRegistry::with_port_range(3000, 3001);
    let result = registry.claim(ResourceKey::port(1), "a");
    assert_eq!(result, ClaimResult::OutOfRange { requested: ResourceKey::Port(1) });
    assert!(registry.export_leases().is_empty());
    assert!(registry.drain_events().is_empty());
}

#[test]
fn import_drops_leases_outside_the_range() {
    let mut registry = ResourceRegistry::with_port_range(3000, 3001);
    registry.import_leases(vec![
        ResourceLease { resource: ResourceKey::Port(3001), owner: "a".to_string() },
        ResourceLease { resource: ResourceKey::Port(80), owner: "b".to_string() },
    ]);
    assert_eq!(
        registry.export_leases(),
        vec![ResourceLease { resource: ResourceKey::Port(3001), owner: "a".to_string() }]
    );
}
