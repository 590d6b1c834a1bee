use std::time::Duration;

use stead::daemon::{ApiRequest, ApiResponse, Daemon, DaemonEventKind, API_VERSION};
use stead::lifecycle::ContractStatus;
use stead::resources::{ClaimResult, ResourceKey};

#[test]
fn responses_use_versioned_envelope() {
    let dir = tempfile::tempdir().unwrap();
    let db_path = dir.path().join("daemon.db");
    let mut daemon = Daemon::new(db_path.to_str().unwrap()).unwrap();

    let envelope = daemon.handle(ApiRequest::Health).unwrap();
    assert_eq!(envelope.version, API_VERSION);
    assert_eq!(
        envelope.data,
        ApiResponse::Health {
            status: "ok".into()
        }
    );
}

#[test]
fn create_transition_and_get_contract_end_to_end() {
    let dir = tempfile::tempdir().unwrap();
    let db_path = dir.path().join("daemon.db");
    let mut daemon = Daemon::new(db_path.to_str().unwrap()).unwrap();

    let created = daemon
        .handle(ApiRequest::CreateContract {
            id: "m3-c1".into(),
            blocked_by: vec![],
        })
        .unwrap();

    match created.data {
        ApiResponse::ContractState(contract) => {
            assert_eq!(contract.id, "m3-c1");
            assert_eq!(contract.status, ContractStatus::Ready);
        }
        _ => panic!("expected contract response"),
    }

    let transitioned = daemon
        .handle(ApiRequest::TransitionContract {
            id: "m3-c1".into(),
            to: ContractStatus::Claimed,
        })
        .unwrap();

    match transitioned.data {
        ApiResponse::ContractState(contract) => {
            assert_eq!(contract.status, ContractStatus::Claimed);
        }
        _ => panic!("expected contract response"),
    }

    let fetched = daemon
        .handle(ApiRequest::GetContract { id: "m3-c1".into() })
        .unwrap();

    match fetched.data {
        ApiResponse::ContractState(contract) => {
            assert_eq!(contract.id, "m3-c1");
            assert_eq!(contract.status, ContractStatus::Claimed);
        }
        _ => panic!("expected contract response"),
    }
}

#[test]
fn lists_contracts_via_daemon_api() {
    let dir = tempfile::tempdir().unwrap();
    let db = dir.path().join("stead.db");
    let mut daemon = Daemon::new(db.to_str().unwrap()).unwrap();

    daemon
        .handle(ApiRequest::CreateContract {
            id: "c-1".into(),
            blocked_by: vec![],
        })
        .unwrap();

    let response = daemon.handle(ApiRequest::ListContracts).unwrap();

    match response.data {
        ApiResponse::Contracts(contracts) => {
            assert_eq!(contracts.len(), 1);
            assert_eq!(contracts[0].id, "c-1");
        }
        other => panic!("unexpected response: {other:?}"),
    }
}

#[test]
fn reports_attention_counts_via_daemon_api() {
    let dir = tempfile::tempdir().unwrap();
    let db = dir.path().join("stead.db");
    let mut daemon = Daemon::new(db.to_str().unwrap()).unwrap();

    daemon
        .handle(ApiRequest::CreateContract {
            id: "c-queued".into(),
            blocked_by: vec!["dep".into()],
        })
        .unwrap();

    let response = daemon.handle(ApiRequest::AttentionStatus).unwrap();

    match response.data {
        ApiResponse::Attention(counts) => {
            assert_eq!(counts.queued, 1);
            assert_eq!(counts.running, 0);
        }
        other => panic!("unexpected response: {other:?}"),
    }
}

#[test]
fn two_agents_contending_for_same_port_get_deterministic_negotiation() {
    let dir = tempfile::tempdir().unwrap();
    let db = dir.path().join("stead.db");
    let mut daemon = Daemon::new(db.to_str().unwrap()).unwrap();

    let first = daemon
        .handle(ApiRequest::ClaimResource {
            resource: ResourceKey::port(3000),
            owner: "agent-a".to_string(),
        })
        .unwrap();

    match first.data {
        ApiResponse::ResourceClaim(result) => {
            assert!(matches!(result, ClaimResult::Claimed(_)));
        }
        other => panic!("unexpected response: {other:?}"),
    }

    let second = daemon
        .handle(ApiRequest::ClaimResource {
            resource: ResourceKey::port(3000),
            owner: "agent-b".to_string(),
        })
        .unwrap();

    match second.data {
        ApiResponse::ResourceClaim(ClaimResult::Negotiated { assigned, .. }) => {
            assert_eq!(assigned.resource, ResourceKey::port(3001));
            assert_eq!(assigned.owner, "agent-b");
        }
        other => panic!("unexpected response: {other:?}"),
    }
}

#[test]
fn unresolved_conflict_emits_escalation_event() {
    let dir = tempfile::tempdir().unwrap();
    let db = dir.path().join("stead.db");
    let mut daemon = Daemon::with_port_range(db.to_str().unwrap(), 3000, 3000).unwrap();
    let stream = daemon.subscribe();

    daemon
        .handle(ApiRequest::ClaimResource {
            resource: ResourceKey::port(3000),
            owner: "agent-a".to_string(),
        })
        .unwrap();

    let second = daemon
        .handle(ApiRequest::ClaimResource {
            resource: ResourceKey::port(3000),
            owner: "agent-b".to_string(),
        })
        .unwrap();

    match second.data {
        ApiResponse::ResourceClaim(ClaimResult::Conflict(_)) => {}
        other => panic!("unexpected response: {other:?}"),
    }

    let escalation = stream
        .recv_timeout(Duration::from_secs(1))
        .expect("expected escalation event");

    match escalation.kind {
        DaemonEventKind::ResourceConflictEscalated {
            resource,
            requested_by,
            held_by,
            reason,
        } => {
            assert_eq!(resource, ResourceKey::port(3000));
            assert_eq!(requested_by, "agent-b");
            assert_eq!(held_by, "agent-a");
            assert_eq!(reason, "port_range_exhausted");
        }
        other => panic!("unexpected event: {other:?}"),
    }
}

#[test]
fn endpoint_api_claim_list_release_flow_is_versioned() {
    let dir = tempfile::tempdir().unwrap();
    let db = dir.path().join("stead.db");
    let mut daemon = Daemon::with_port_range(db.to_str().unwrap(), 4100, 4102).unwrap();

    let claim = daemon
        .handle(ApiRequest::ClaimEndpoint {
            name: "api".to_string(),
            owner: "agent-a".to_string(),
            port: Some(4100),
        })
        .unwrap();

    assert_eq!(claim.version, API_VERSION);
    match claim.data {
        ApiResponse::EndpointClaim(result) => {
            assert!(format!("{result:?}").contains("api"));
        }
        other => panic!("unexpected claim response: {other:?}"),
    }

    let listed = daemon.handle(ApiRequest::ListEndpoints).unwrap();
    assert_eq!(listed.version, API_VERSION);

    match listed.data {
        ApiResponse::Endpoints(leases) => {
            assert_eq!(leases.len(), 1);
            assert_eq!(leases[0].name, "api");
            assert_eq!(leases[0].owner, "agent-a");
            assert_eq!(leases[0].port, 4100);
        }
        other => panic!("unexpected list response: {other:?}"),
    }

    let released = daemon
        .handle(ApiRequest::ReleaseEndpoint {
            name: "api".to_string(),
            owner: "agent-a".to_string(),
        })
        .unwrap();

    match released.data {
        ApiResponse::EndpointReleased(lease) => {
            assert_eq!(lease.name, "api");
            assert_eq!(lease.owner, "agent-a");
        }
        other => panic!("unexpected release response: {other:?}"),
    }
}

#[test]
fn endpoint_api_returns_typed_errors_for_not_owner_not_found_and_exhausted() {
    let dir = tempfile::tempdir().unwrap();
    let db = dir.path().join("stead.db");
    let mut daemon = Daemon::with_port_range(db.to_str().unwrap(), 4100, 4100).unwrap();

    daemon
        .handle(ApiRequest::ClaimEndpoint {
            name: "api".to_string(),
            owner: "agent-a".to_string(),
            port: Some(4100),
        })
        .unwrap();

    let not_owner = daemon
        .handle(ApiRequest::ReleaseEndpoint {
            name: "api".to_string(),
            owner: "agent-b".to_string(),
        })
        .expect_err("release by non-owner should fail");
    assert_eq!(not_owner.code, "not_owner");

    let not_found = daemon
        .handle(ApiRequest::ReleaseEndpoint {
            name: "missing".to_string(),
            owner: "agent-a".to_string(),
        })
        .expect_err("release of missing endpoint should fail");
    assert_eq!(not_found.code, "not_found");

    let exhausted = daemon
        .handle(ApiRequest::ClaimEndpoint {
            name: "web".to_string(),
            owner: "agent-c".to_string(),
            port: Some(4100),
        })
        .expect_err("exhausted range should return typed error");

    assert_eq!(exhausted.code, "endpoint_range_exhausted");
}

#[test]
fn endpoint_range_exhaustion_is_published_to_subscribers() {
    let dir = tempfile::tempdir().unwrap();
    let db = dir.path().join("stead.db");
    let mut daemon = Daemon::with_port_range(db.to_str().unwrap(), 4100, 4100).unwrap();
    let stream = daemon.subscribe();

    daemon
        .handle(ApiRequest::ClaimEndpoint {
            name: "api".to_string(),
            owner: "agent-a".to_string(),
            port: Some(4100),
        })
        .unwrap();

    let err = daemon
        .handle(ApiRequest::ClaimEndpoint {
            name: "web".to_string(),
            owner: "agent-b".to_string(),
            port: Some(4100),
        })
        .expect_err("second endpoint claim must exhaust configured range");

    assert_eq!(err.code, "endpoint_range_exhausted");

    let event = stream
        .recv_timeout(Duration::from_secs(1))
        .expect("expected endpoint escalation event");

    match event.kind {
        DaemonEventKind::EndpointRangeExhausted {
            name,
            owner,
            requested_port,
            reason,
        } => {
            assert_eq!(name, "web");
            assert_eq!(owner, "agent-b");
            assert_eq!(requested_port, 4100);
            assert_eq!(reason, "endpoint_range_exhausted");
        }
        other => panic!("unexpected daemon event: {other:?}"),
    }
}

#[test]
fn endpoint_events_are_replayable_by_cursor() {
    let dir = tempfile::tempdir().unwrap();
    let db = dir.path().join("stead.db");
    let mut daemon = Daemon::with_port_range(db.to_str().unwrap(), 4100, 4100).unwrap();

    daemon
        .handle(ApiRequest::ClaimEndpoint {
            name: "api".to_string(),
            owner: "agent-a".to_string(),
            port: Some(4100),
        })
        .unwrap();

    let _ = daemon.handle(ApiRequest::ClaimEndpoint {
        name: "web".to_string(),
        owner: "agent-b".to_string(),
        port: Some(4100),
    });

    let events = daemon.replay_from(0);
    assert!(events.iter().any(|event| {
        matches!(
            event.kind,
            DaemonEventKind::EndpointRangeExhausted {
                ref name,
                ref owner,
                requested_port: 4100,
                reason: "endpoint_range_exhausted",
            } if name == "web" && owner == "agent-b"
        )
    }));
}

#[test]
fn supports_subscribe_and_replay_by_cursor() {
    let dir = tempfile::tempdir().unwrap();
    let db_path = dir.path().join("daemon.db");
    let mut daemon = Daemon::new(db_path.to_str().unwrap()).unwrap();

    let rx = daemon.subscribe();

    daemon
        .handle(ApiRequest::CreateContract {
            id: "evt-c1".into(),
            blocked_by: vec![],
        })
        .unwrap();

    daemon
        .handle(ApiRequest::TransitionContract {
            id: "evt-c1".into(),
            to: ContractStatus::Claimed,
        })
        .unwrap();

    let first = rx.recv().unwrap();
    let second = rx.recv().unwrap();

    assert_eq!(first.cursor, 1);
    assert_eq!(second.cursor, 2);
    assert!(matches!(
        first.kind,
        DaemonEventKind::ContractCreated { .. }
    ));
    assert!(matches!(
        second.kind,
        DaemonEventKind::ContractTransitioned { .. }
    ));

    let replay = daemon.replay_from(1);
    assert_eq!(replay.len(), 1);
    assert_eq!(replay[0].cursor, 2);
}

#[test]
fn returns_typed_error_for_not_found() {
    let dir = tempfile::tempdir().unwrap();
    let db_path = dir.path().join("daemon.db");
    let mut daemon = Daemon::new(db_path.to_str().unwrap()).unwrap();

    let err = daemon
        .handle(ApiRequest::GetContract {
            id: "missing".into(),
        })
        .expect_err("missing contract should return error");

    assert_eq!(err.code, "not_found");
}

#[test]
fn returns_typed_error_for_invalid_transition() {
    let dir = tempfile::tempdir().unwrap();
    let db_path = dir.path().join("daemon.db");
    let mut daemon = Daemon::new(db_path.to_str().unwrap()).unwrap();

    daemon
        .handle(ApiRequest::CreateContract {
            id: "bad-transition".into(),
            blocked_by: vec![],
        })
        .unwrap();

    let err = daemon
        .handle(ApiRequest::TransitionContract {
            id: "bad-transition".into(),
            to: ContractStatus::Completed,
        })
        .expect_err("ready -> completed should be invalid");

    assert_eq!(err.code, "invalid_transition");
}

fn transition(daemon: &mut Daemon, id: &str, to: ContractStatus) -> Result<ContractStatus, String> {
    match daemon.handle(ApiRequest::TransitionContract { id: id.to_string(), to }) {
        Ok(env) => match env.data {
            ApiResponse::ContractState(c) => Ok(c.status),
            other => panic!("unexpected response: {other:?}"),
        },
        Err(e) => Err(e.code.to_string()),
    }
}

#[test]
fn happy_path_contract_reaches_completed_with_full_history() {
    let dir = tempfile::tempdir().unwrap();
    let db = dir.path().join("stead.db");
    let mut daemon = Daemon::new(db.to_str().unwrap()).unwrap();
    let stream = daemon.subscribe();

    let created = daemon
        .handle(ApiRequest::CreateContract { id: "c-1".into(), blocked_by: vec![] })
        .unwrap();
    match created.data {
        ApiResponse::ContractState(c) => assert_eq!(c.status, ContractStatus::Ready),
        other => panic!("unexpected response: {other:?}"),
    }
    for to in [
        ContractStatus::Claimed,
        ContractStatus::Executing,
        ContractStatus::Verifying,
        ContractStatus::Completed,
    ] {
        assert_eq!(transition(&mut daemon, "c-1", to), Ok(to));
    }

    let fetched = daemon.handle(ApiRequest::GetContract { id: "c-1".into() }).unwrap();
    match fetched.data {
        ApiResponse::ContractState(c) => assert_eq!(c.status, ContractStatus::Completed),
        other => panic!("unexpected response: {other:?}"),
    }

    let store = stead::store::SqliteContractStore::open(db.to_str().unwrap()).unwrap();
    let log = store.list_events("c-1").unwrap();
    let steps: Vec<(ContractStatus, ContractStatus)> = log.iter().map(|e| (e.from, e.to)).collect();
    assert_eq!(
        steps,
        vec![
            (ContractStatus::Ready, ContractStatus::Claimed),
            (ContractStatus::Claimed, ContractStatus::Executing),
            (ContractStatus::Executing, ContractStatus::Verifying),
            (ContractStatus::Verifying, ContractStatus::Completed),
        ]
    );

    let events: Vec<_> = (0..5).map(|_| stream.recv_timeout(Duration::from_secs(1)).unwrap()).collect();
    assert!(matches!(events[0].kind, DaemonEventKind::ContractCreated { .. }));
    for (i, event) in events.iter().enumerate() {
        assert_eq!(event.cursor, i as u64 + 1);
        if i > 0 {
            assert!(matches!(event.kind, DaemonEventKind::ContractTransitioned { .. }));
        }
    }
    assert_eq!(daemon.replay_from(0).len(), 5);
    assert!(daemon.replay_from(5).is_empty());
}

#[test]
fn rollback_path_ends_in_a_terminal_state() {
    let dir = tempfile::tempdir().unwrap();
    let db = dir.path().join("stead.db");
    let mut daemon = Daemon::new(db.to_str().unwrap()).unwrap();
    daemon
        .handle(ApiRequest::CreateContract { id: "c-2".into(), blocked_by: vec![] })
        .unwrap();
    for to in [
        ContractStatus::Claimed,
        ContractStatus::Executing,
        ContractStatus::Failed,
        ContractStatus::RollingBack,
        ContractStatus::RolledBack,
    ] {
        assert_eq!(transition(&mut daemon, "c-2", to), Ok(to));
    }
    for to in [ContractStatus::Ready, ContractStatus::Cancelled, ContractStatus::Failed] {
        assert_eq!(transition(&mut daemon, "c-2", to), Err("invalid_transition".to_string()));
    }
    assert_eq!(daemon.replay_from(0).len(), 6);
}

#[test]
fn failed_requests_publish_nothing() {
    let dir = tempfile::tempdir().unwrap();
    let db = dir.path().join("stead.db");
    let mut daemon = Daemon::new(db.to_str().unwrap()).unwrap();
    assert_eq!(transition(&mut daemon, "nope", ContractStatus::Claimed), Err("not_found".to_string()));
    daemon
        .handle(ApiRequest::CreateContract { id: "c-3".into(), blocked_by: vec!["dep".into()] })
        .unwrap();
    assert_eq!(transition(&mut daemon, "c-3", ContractStatus::Claimed), Err("invalid_transition".to_string()));
    let replay = daemon.replay_from(0);
    assert_eq!(replay.len(), 1);
    assert_eq!(replay[0].cursor, 1);
}
