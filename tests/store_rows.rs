use stead::daemon::plan_transition;
use stead::lifecycle::{Contract, ContractEvent, ContractStatus};
use stead::store::{
    contract_from_rows, decision_from_row, events_from_rows, has_snapshot_column, needs_version_update,
    replay_entries_from_rows, rows_to_contracts, snapshot_params, transition_params, update_outcome,
    version_from_rows, SqlCell, StoreError,
};

fn text(s: &str) -> SqlCell {
    SqlCell::Text(s.to_string())
}

#[test]
fn snapshot_rows_decode_with_their_id() {
    let rows = vec![vec![text("c-1"), text("pending"), text("[\"dep\"]")]];
    let loaded = contract_from_rows(&rows, "c-1").unwrap().unwrap();
    assert_eq!(loaded.status, ContractStatus::Pending);
    assert_eq!(loaded.blocked_by, vec!["dep"]);
    assert!(matches!(contract_from_rows(&rows, "c-2"), Err(StoreError::InvalidQuery)));
    assert!(matches!(contract_from_rows(&vec![], "c-1"), Ok(None)));
    let bad = vec![vec![text("c-1"), text("bogus"), text("[]")]];
    assert!(matches!(contract_from_rows(&bad, "c-1"), Err(StoreError::InvalidQuery)));
    let listed = rows_to_contracts(rows.clone()).unwrap();
    assert_eq!(listed.len(), 1);
    assert_eq!(listed[0].id, "c-1");
}

#[test]
fn snapshot_parameters_round_trip_blocked_by() {
    let contract = Contract::new("c-9", vec!["a\"b".to_string(), "c".to_string()]);
    let params = snapshot_params(&contract).unwrap();
    assert_eq!(params[0], "c-9");
    assert_eq!(params[1], "pending");
    let rows = vec![vec![text(&params[0]), text(&params[1]), text(&params[2])]];
    assert_eq!(contract_from_rows(&rows, "c-9").unwrap().unwrap(), contract);
}

#[test]
fn transition_parameters_and_row_counts() {
    let mut contract = Contract::new("c-1", vec![]);
    let event = contract.transition_to(ContractStatus::Claimed).unwrap();
    let (update, insert) = transition_params(&contract, &event).unwrap();
    assert_eq!(update, vec!["claimed", "[]", "c-1"]);
    assert_eq!(insert, vec!["c-1", "ready", "claimed", "[]"]);
    assert!(matches!(update_outcome(0), Err(StoreError::NoRows)));
    assert!(update_outcome(1).is_ok());
}

#[test]
fn event_rows_decode_for_their_contract_only() {
    let rows = vec![vec![text("c-1"), text("ready"), text("claimed")]];
    let events = events_from_rows(&rows, "c-1").unwrap();
    assert_eq!(
        events,
        vec![ContractEvent { contract_id: "c-1".to_string(), from: ContractStatus::Ready, to: ContractStatus::Claimed }]
    );
    assert!(events_from_rows(&rows, "c-2").is_err());
    let replay = vec![vec![text("ready"), text("claimed"), text("[\"x\"]")]];
    let entries = replay_entries_from_rows(&replay).unwrap();
    assert_eq!(entries[0].to, ContractStatus::Claimed);
    assert_eq!(entries[0].blocked_by, vec!["x"]);
}

#[test]
fn schema_rows_and_decisions() {
    assert!(has_snapshot_column(&vec![vec![SqlCell::Integer(1)]]));
    assert!(!has_snapshot_column(&vec![vec![SqlCell::Integer(0)]]));
    assert!(!has_snapshot_column(&vec![]));
    assert!(needs_version_update(1));
    assert!(!needs_version_update(2));
    assert_eq!(version_from_rows(&vec![vec![SqlCell::Integer(2)]]).unwrap(), 2);
    assert!(version_from_rows(&vec![vec![text("2")]]).is_err());
    let decision = decision_from_row(&vec![SqlCell::Integer(7), text("c-1"), text("why")]).unwrap();
    assert_eq!(decision.id, 7);
    assert_eq!(decision.summary, "why");
    assert!(decision_from_row(&vec![text("7"), text("c-1"), text("why")]).is_err());
}

#[test]
fn transition_plans_report_each_rejection() {
    assert_eq!(plan_transition(None, "c-0", ContractStatus::Claimed).unwrap_err().code, "not_found");
    let ready = Contract::new("c-1", vec![]);
    let rejected = plan_transition(Some(ready.clone()), "c-1", ContractStatus::Completed).unwrap_err();
    assert_eq!(rejected.code, "invalid_transition");
    let (moved, event) = plan_transition(Some(ready), "c-1", ContractStatus::Claimed).unwrap();
    assert_eq!(moved.status, ContractStatus::Claimed);
    assert_eq!(event.from, ContractStatus::Ready);
}

#[test]
fn decision_rows_decode_in_order() {

    let rows = vec![
        vec![SqlCell::Integer(1), text("c-1"), text("first")],
        vec![SqlCell::Integer(2), text("c-2"), text("second")],
    ];
    let decisions = stead::store::decisions_from_rows(&rows).unwrap();
    assert_eq!(decisions.len(), 2);
    assert_eq!(decisions[1].contract_id, "c-2");
    assert!(stead::store::decisions_from_rows(&vec![vec![SqlCell::InvalidText, text("c"), text("s")]]).is_err());
}

#[test]
fn attention_counts_are_tier_lengths() {

    let one = vec![Contract::new("a", vec![])];
    let two = vec![Contract::new("b", vec![]), Contract::new("c", vec![])];
    let counts = stead::daemon::counts_from_tiers(&one, &two, &vec![], &one, &two);
    assert_eq!((counts.needs_decision, counts.anomaly, counts.completed, counts.running, counts.queued), (1, 2, 0, 1, 2));
}
