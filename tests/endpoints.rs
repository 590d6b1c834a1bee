use stead::endpoints::{EndpointClaimResult, EndpointError, EndpointEvent, EndpointLease, EndpointRegistry};

#[test]
fn claim_new_endpoint_returns_name_owner_assigned_port() {
    let mut registry = EndpointRegistry::with_port_range(4100, 4105);

    let lease = registry.claim("api", "agent-a", Some(4102)).unwrap_claimed();
    assert_eq!(lease.name, "api");
    assert_eq!(lease.owner, "agent-a");
    assert_eq!(lease.port, 4102);
    assert_eq!(lease.url(), "http://api.localhost:4102");
}

#[test]
fn reclaim_same_owner_is_idempotent() {
    let mut registry = EndpointRegistry::with_port_range(4100, 4105);

    let first = registry.claim("api", "agent-a", Some(4102)).unwrap_claimed();
    let second = registry.claim("api", "agent-a", Some(4104)).unwrap_claimed();

    assert_eq!(first, second);
    assert_eq!(second.port, 4102);
}

#[test]
fn release_requires_owner() {
    let mut registry = EndpointRegistry::with_port_range(4100, 4105);
    registry.claim("api", "agent-a", Some(4102));

    let err = registry
        .release("api", "agent-b")
        .expect_err("non-owner release must fail");

    assert_eq!(
        err,
        EndpointError::NotOwner {
            name: "api".to_string(),
            expected_owner: "agent-a".to_string(),
            attempted_by: "agent-b".to_string(),
        }
    );

    let released = registry.release("api", "agent-a").unwrap();
    assert_eq!(released.port, 4102);
}

#[test]
fn export_import_round_trip_preserves_state() {
    let mut source = EndpointRegistry::with_port_range(4100, 4105);
    source.claim("api", "agent-a", Some(4101));
    source.claim("dashboard", "agent-b", Some(4103));

    let exported = source.export_leases();

    let mut restored = EndpointRegistry::with_port_range(4100, 4105);
    restored.import_leases(exported);

    let mut names = restored
        .list()
        .into_iter()
        .map(|lease| lease.name)
        .collect::<Vec<_>>();
    names.sort();

    assert_eq!(names, vec!["api".to_string(), "dashboard".to_string()]);
}

#[test]
fn conflict_resolves_to_lowest_available_next_port_in_range() {
    let mut registry = EndpointRegistry::with_port_range(4100, 4103);

    registry.claim("alpha", "agent-a", Some(4101));
    registry.claim("bravo", "agent-b", Some(4102));

    let third = registry.claim("charlie", "agent-c", Some(4101));

    match third {
        EndpointClaimResult::Negotiated {
            requested_port,
            assigned,
            ..
        } => {
            assert_eq!(requested_port, 4101);
            assert_eq!(assigned.port, 4103);
            assert_eq!(assigned.name, "charlie");
        }
        other => panic!("expected negotiated claim, got {other:?}"),
    }
}

#[test]
fn exhausted_range_emits_escalation_event() {
    let mut registry = EndpointRegistry::with_port_range(4100, 4101);

    registry.claim("alpha", "agent-a", Some(4100));
    registry.claim("bravo", "agent-b", Some(4101));

    let exhausted = registry.claim("charlie", "agent-c", Some(4100));
    assert!(matches!(exhausted, EndpointClaimResult::Conflict(_)));

    let events = registry.drain_events();
    assert_eq!(events.len(), 1);
    assert_eq!(
        events[0],
        EndpointEvent::RangeExhausted {
            name: "charlie".to_string(),
            owner: "agent-c".to_string(),
            requested_port: 4100,
            reason: "endpoint_range_exhausted",
        }
    );
}

#[test]
fn negotiation_is_deterministic_for_ordered_claim_sequence() {
    let mut registry = EndpointRegistry::with_port_range(4100, 4104);

    registry.claim("alpha", "agent-a", Some(4100));
    registry.claim("bravo", "agent-b", Some(4101));

    let c1 = registry.claim("charlie", "agent-c", Some(4100));
    let c2 = registry.claim("delta", "agent-d", Some(4100));

    let assigned = [c1, c2]
        .into_iter()
        .map(|result| match result {
            EndpointClaimResult::Negotiated { assigned, .. } => assigned.port,
            other => panic!("expected negotiated result, got {other:?}"),
        })
        .collect::<Vec<_>>();

    assert_eq!(assigned, vec![4102, 4103]);
}

#[test]
fn endpoint_negotiation_assigns_next_port_above_request() {
    let mut registry = EndpointRegistry::with_port_range(4100, 4103);
    registry.claim("alpha", "a", Some(4101));
    registry.claim("bravo", "b", Some(4102));
    let third = registry.claim("charlie", "c", Some(4101));
    assert_eq!(
        third,
        EndpointClaimResult::Negotiated {
            requested_port: 4101,
            assigned: EndpointLease { name: "charlie".to_string(), owner: "c".to_string(), port: 4103 },
            held_by: EndpointLease { name: "alpha".to_string(), owner: "a".to_string(), port: 4101 },
        }
    );
}

#[test]
fn negotiation_wraps_to_the_start_of_the_range() {
    let mut registry = EndpointRegistry::with_port_range(4100, 4103);
    registry.claim("alpha", "a", Some(4102));
    registry.claim("bravo", "b", Some(4103));
    let result = registry.claim("charlie", "c", Some(4102));
    match result {
        EndpointClaimResult::Negotiated { assigned, .. } => assert_eq!(assigned.port, 4100),
        other => panic!("expected negotiated claim, got {other:?}"),
    }
}

#[test]
fn taken_name_with_other_owner_is_a_conflict() {
    let mut registry = EndpointRegistry::with_port_range(4100, 4103);
    registry.claim("api", "a", Some(4100));
    let result = registry.claim("api", "b", Some(4101));
    match result {
        EndpointClaimResult::Conflict(conflict) => {
            assert_eq!(conflict.name, "api");
            assert_eq!(conflict.requested_port, 4101);
            assert_eq!(conflict.held_by.unwrap().owner, "a");
        }
        other => panic!("expected conflict, got {other:?}"),
    }
    assert!(registry.drain_events().is_empty());
}

#[test]
fn default_request_uses_range_start_and_out_of_range_is_refused() {
    let mut registry = EndpointRegistry::default();
    let lease = registry.claim("web", "a", None).unwrap_claimed();
    assert_eq!(lease.port, 4100);
    assert_eq!(lease.url(), "http://web.localhost:4100");
    let result = registry.claim("far", "a", Some(80));
    assert!(matches!(result, EndpointClaimResult::Conflict(_)));
    assert_eq!(registry.drain_events().len(), 1);
}

#[test]
fn release_of_unknown_endpoint_is_not_found() {
    let mut registry = EndpointRegistry::default();
    let err = registry.release("ghost", "a").unwrap_err();
    assert_eq!(err, EndpointError::NotFound { name: "ghost".to_string() });
    assert_eq!(err.code(), "not_found");
}

#[test]
fn list_is_sorted_by_name_and_exhaustion_reports_holder() {
    let mut registry = EndpointRegistry::with_port_range(4100, 4101);
    registry.claim("zeta", "a", Some(4100));
    registry.claim("alpha", "b", Some(4101));
    let names: Vec<String> = registry.list().into_iter().map(|l| l.name).collect();
    assert_eq!(names, vec!["alpha", "zeta"]);
    match registry.claim("mid", "c", Some(4100)) {
        EndpointClaimResult::Conflict(conflict) => {
            assert_eq!(conflict.held_by.unwrap().name, "zeta");
        }
        other => panic!("expected conflict, got {other:?}"),
    }
    let exported = registry.export_leases();
    assert_eq!(exported, registry.list());
}

#[test]
fn endpoint_claims_keep_names_and_ports_unique() {
    let mut registry = EndpointRegistry::with_port_range(4100, 4102);
    for (name, owner) in [("a", "x"), ("b", "y"), ("c", "z"), ("d", "w"), ("a", "x")] {
        registry.claim(name, owner, Some(4100));
    }
    let leases = registry.list();
    let mut ports: Vec<u16> = leases.iter().map(|l| l.port).collect();
    ports.sort();
    assert_eq!(ports, vec![4100, 4101, 4102]);
    assert_eq!(leases.len(), 3);
}

#[test]
fn import_keeps_ports_unique_and_inside_the_range() {
    let mut registry = EndpointRegistry::with_port_range(4100, 4102);
    registry.import_leases(vec![
        EndpointLease { name: "a".to_string(), owner: "x".to_string(), port: 4100 },
        EndpointLease { name: "b".to_string(), owner: "y".to_string(), port: 4100 },
        EndpointLease { name: "c".to_string(), owner: "z".to_string(), port: 80 },
        EndpointLease { name: "a".to_string(), owner: "x".to_string(), port: 4101 },
    ]);
    let leases = registry.list();
    assert_eq!(leases, vec![EndpointLease { name: "a".to_string(), owner: "x".to_string(), port: 4101 }]);
}
