//! The contract lifecycle: ten states, the edges between them, who may take
//! which edge, and the events that record each step.
use vstd::prelude::*;
use vstd::string::StringExecFns;
use crate::text::str_equal;

verus! {

/// The state of a contract.
#[derive(Debug, Clone, Copy, PartialEq, Eq, Structural, PartialOrd, Ord, Hash)]
pub enum ContractStatus {
    Pending,
    Ready,
    Claimed,
    Executing,
    Verifying,
    Completed,
    Failed,
    RollingBack,
    RolledBack,
    Cancelled,
}

/// The kind of party that asks for a transition.
#[derive(Debug, Clone, Copy, PartialEq, Eq, Structural)]
pub enum Actor {
    System,
    Agent,
    Human,
}

/// A named step of the lifecycle, used for permission checks.
#[derive(Debug, Clone, Copy, PartialEq, Eq, Structural)]
pub enum TransitionAction {
    DepsMet,
    Claim,
    Unclaim,
    Start,
    Verify,
    Pass,
    Fail,
    Rollback,
    RollbackDone,
    Cancel,
}

/// A rejected transition, with both ends.
#[derive(Debug, Clone, Copy, PartialEq, Eq, Structural)]
pub struct TransitionError {
    pub from: ContractStatus,
    pub to: ContractStatus,
}

/// The allowed edges of the lifecycle, listed one by one.
#[verifier::opaque]
pub open spec fn allowed_edge(from: ContractStatus, to: ContractStatus) -> bool {
    match (from, to) {
        (ContractStatus::Pending, ContractStatus::Ready) | (ContractStatus::Pending, ContractStatus::Cancelled) => true,
        (ContractStatus::Ready, ContractStatus::Claimed) | (ContractStatus::Ready, ContractStatus::Cancelled) => true,
        (ContractStatus::Claimed, ContractStatus::Executing) | (ContractStatus::Claimed, ContractStatus::Ready) | (ContractStatus::Claimed, ContractStatus::Cancelled) => true,
        (ContractStatus::Executing, ContractStatus::Verifying) | (ContractStatus::Executing, ContractStatus::Failed) | (ContractStatus::Executing, ContractStatus::Cancelled) => true,
        (ContractStatus::Verifying, ContractStatus::Completed) | (ContractStatus::Verifying, ContractStatus::Failed) => true,
        (ContractStatus::Failed, ContractStatus::Ready) | (ContractStatus::Failed, ContractStatus::RollingBack) | (ContractStatus::Failed, ContractStatus::Cancelled) => true,
        (ContractStatus::RollingBack, ContractStatus::RolledBack) | (ContractStatus::RollingBack, ContractStatus::Failed) => true,
        _ => false,
    }
}

/// Completed, RolledBack and Cancelled end a contract's life.
pub open spec fn terminal(s: ContractStatus) -> bool {
    s == ContractStatus::Completed || s == ContractStatus::RolledBack || s
        == ContractStatus::Cancelled
}

/// Which actor kinds may take which action.
pub open spec fn permitted(action: TransitionAction, actor: Actor) -> bool {
    match action {
        TransitionAction::DepsMet | TransitionAction::Pass | TransitionAction::Fail | TransitionAction::RollbackDone => actor == Actor::System,
        TransitionAction::Claim | TransitionAction::Unclaim | TransitionAction::Start | TransitionAction::Verify | TransitionAction::Rollback => actor == Actor::Agent || actor
            == Actor::Human,
        TransitionAction::Cancel => actor == Actor::Human,
    }
}

/// The storage and wire name of a status.
pub open spec fn status_name(s: ContractStatus) -> Seq<char> {
    match s {
        ContractStatus::Pending => "pending"@,
        ContractStatus::Ready => "ready"@,
        ContractStatus::Claimed => "claimed"@,
        ContractStatus::Executing => "executing"@,
        ContractStatus::Verifying => "verifying"@,
        ContractStatus::Completed => "completed"@,
        ContractStatus::Failed => "failed"@,
        ContractStatus::RollingBack => "rolling_back"@,
        ContractStatus::RolledBack => "rolled_back"@,
        ContractStatus::Cancelled => "cancelled"@,
    }
}

impl TransitionAction {
    pub fn is_allowed_for(self, actor: Actor) -> (r: bool)
        ensures
            r == permitted(self, actor),
    {
        match (self, actor) {
            (TransitionAction::DepsMet, Actor::System) => true,
            (TransitionAction::Claim, Actor::Agent) => true,
            (TransitionAction::Claim, Actor::Human) => true,
            (TransitionAction::Unclaim, Actor::Agent) => true,
            (TransitionAction::Unclaim, Actor::Human) => true,
            (TransitionAction::Start, Actor::Agent) => true,
            (TransitionAction::Start, Actor::Human) => true,
            (TransitionAction::Verify, Actor::Agent) => true,
            (TransitionAction::Verify, Actor::Human) => true,
            (TransitionAction::Pass, Actor::System) => true,
            (TransitionAction::Fail, Actor::System) => true,
            (TransitionAction::Rollback, Actor::Agent) => true,
            (TransitionAction::Rollback, Actor::Human) => true,
            (TransitionAction::RollbackDone, Actor::System) => true,
            (TransitionAction::Cancel, Actor::Human) => true,
            _ => false,
        }
    }
}

impl ContractStatus {
    /// The targets reachable in one step, in a fixed order.
    pub fn valid_transitions(self) -> (r: Vec<ContractStatus>)
        ensures
            forall|t: ContractStatus| r@.contains(t) <==> allowed_edge(self, t),
            r@.no_duplicates(),
    {
        let r = match self {
            ContractStatus::Pending => vec![ContractStatus::Ready, ContractStatus::Cancelled],
            ContractStatus::Ready => vec![ContractStatus::Claimed, ContractStatus::Cancelled],
            ContractStatus::Claimed => vec![
                ContractStatus::Executing,
                ContractStatus::Ready,
                ContractStatus::Cancelled,
            ],
            ContractStatus::Executing => vec![
                ContractStatus::Verifying,
                ContractStatus::Failed,
                ContractStatus::Cancelled,
            ],
            ContractStatus::Verifying => vec![ContractStatus::Completed, ContractStatus::Failed],
            ContractStatus::Completed => vec![],
            ContractStatus::Failed => vec![
                ContractStatus::Ready,
                ContractStatus::RollingBack,
                ContractStatus::Cancelled,
            ],
            ContractStatus::RollingBack => vec![ContractStatus::RolledBack, ContractStatus::Failed],
            ContractStatus::RolledBack => vec![],
            ContractStatus::Cancelled => vec![],
        };
        proof {
            reveal(allowed_edge);
            assert forall|t: ContractStatus| r@.contains(t) <==> allowed_edge(self, t) by {
                if allowed_edge(self, t) {
                    assert(exists|i: int| 0 <= i < r@.len() && r@[i] == t);
                }
            }
        }
        r
    }

    pub fn can_transition_to(self, target: ContractStatus) -> (r: bool)
        ensures
            r == allowed_edge(self, target),
    {
        let targets = self.valid_transitions();
        let mut i: usize = 0;
        while i < targets.len()
            invariant
                0 <= i <= targets@.len(),
                forall|j: int| 0 <= j < i ==> targets@[j] != target,
                forall|t: ContractStatus| targets@.contains(t) <==> allowed_edge(self, t),
            decreases targets@.len() - i,
        {
            if targets[i] == target {
                return true;
            }
            i = i + 1;
        }
        false
    }

    pub fn is_terminal(self) -> (r: bool)
        ensures
            r == terminal(self),
            r <==> forall|t: ContractStatus| !allowed_edge(self, t),
    {
        let r = match self {
            ContractStatus::Completed | ContractStatus::RolledBack | ContractStatus::Cancelled => true,
            _ => false,
        };
        proof {
            reveal(allowed_edge);
            if !r {
                let w = match self {
                    ContractStatus::Pending => ContractStatus::Ready,
                    ContractStatus::Ready => ContractStatus::Claimed,
                    ContractStatus::Claimed => ContractStatus::Executing,
                    ContractStatus::Executing => ContractStatus::Verifying,
                    ContractStatus::Verifying => ContractStatus::Completed,
                    ContractStatus::Failed => ContractStatus::Ready,
                    _ => ContractStatus::RolledBack,
                };
                assert(allowed_edge(self, w));
            }
        }
        r
    }

    pub fn transition_to(self, target: ContractStatus) -> (r: Result<
        ContractStatus,
        TransitionError,
    >)
        ensures
            allowed_edge(self, target) ==> r == Ok::<ContractStatus, TransitionError>(target),
            !allowed_edge(self, target) ==> r == Err::<ContractStatus, TransitionError>(
                TransitionError { from: self, to: target },
            ),
    {
        if self.can_transition_to(target) {
            Ok(target)
        } else {
            Err(TransitionError { from: self, to: target })
        }
    }

    pub fn as_db_str(self) -> (r: &'static str)
        ensures
            r@ == status_name(self),
    {
        match self {
            ContractStatus::Pending => "pending",
            ContractStatus::Ready => "ready",
            ContractStatus::Claimed => "claimed",
            ContractStatus::Executing => "executing",
            ContractStatus::Verifying => "verifying",
            ContractStatus::Completed => "completed",
            ContractStatus::Failed => "failed",
            ContractStatus::RollingBack => "rolling_back",
            ContractStatus::RolledBack => "rolled_back",
            ContractStatus::Cancelled => "cancelled",
        }
    }
}

} // verus!

verus! {

/// A tracked unit of work.
#[derive(Debug, Clone, PartialEq, Eq)]
pub struct Contract {
    pub id: String,
    pub status: ContractStatus,
    pub blocked_by: Vec<String>,
}

/// The record of one step of a contract's lifecycle.
#[derive(Debug, Clone, PartialEq, Eq)]
pub struct ContractEvent {
    pub contract_id: String,
    pub from: ContractStatus,
    pub to: ContractStatus,
}

/// The projections over contracts that surface what needs attention.
#[derive(Debug, Clone, Copy, PartialEq, Eq, Structural)]
pub enum AttentionTier {
    NeedsDecision,
    Anomaly,
    Completed,
    Running,
    Queued,
}

/// An open question about a contract that a human should answer.
#[derive(Debug, Clone, PartialEq, Eq)]
pub struct DecisionItem {
    pub id: i64,
    pub contract_id: String,
    pub summary: String,
}

/// The status a new contract starts in.
pub open spec fn initial_status(blocked_by: Seq<String>) -> ContractStatus {
    if blocked_by.len() == 0 {
        ContractStatus::Ready
    } else {
        ContractStatus::Pending
    }
}

/// The statuses that a status-based attention tier selects; NeedsDecision
/// is selected by open decision items, not by status.
pub open spec fn in_tier(tier: AttentionTier, s: ContractStatus) -> bool {
    match tier {
        AttentionTier::NeedsDecision => false,
        AttentionTier::Anomaly => s == ContractStatus::Failed || s == ContractStatus::RollingBack
            || s == ContractStatus::RolledBack,
        AttentionTier::Completed => s == ContractStatus::Completed,
        AttentionTier::Running => s == ContractStatus::Executing || s == ContractStatus::Verifying,
        AttentionTier::Queued => s == ContractStatus::Pending || s == ContractStatus::Ready || s
            == ContractStatus::Claimed,
    }
}

/// What a transition does to a contract and what it returns.
pub open spec fn transition_outcome(
    before: Contract,
    after: Contract,
    target: ContractStatus,
    r: Result<ContractEvent, TransitionError>,
) -> bool {
    if allowed_edge(before.status, target) {
        &&& after.status == target
        &&& after.id == before.id
        &&& after.blocked_by == before.blocked_by
        &&& r is Ok
        &&& r->Ok_0.contract_id@ == before.id@
        &&& r->Ok_0.from == before.status
        &&& r->Ok_0.to == target
    } else {
        &&& after == before
        &&& r == Err::<ContractEvent, TransitionError>(
            TransitionError { from: before.status, to: target },
        )
    }
}

impl Contract {
    pub fn new(id: &str, blocked_by: Vec<String>) -> (r: Contract)
        ensures
            r.id@ == id@,
            r.blocked_by == blocked_by,
            r.status == initial_status(blocked_by@),
    {
        let status = if blocked_by.len() == 0 {
            ContractStatus::Ready
        } else {
            ContractStatus::Pending
        };
        Contract { id: String::from_str(id), status, blocked_by }
    }

    pub fn transition_to(&mut self, target: ContractStatus) -> (r: Result<
        ContractEvent,
        TransitionError,
    >)
        ensures
            transition_outcome(*old(self), *final(self), target, r),
    {
        let from = self.status;
        match from.transition_to(target) {
            Ok(to) => {
                self.status = to;
                Ok(ContractEvent { contract_id: self.id.clone(), from, to })
            },
            Err(e) => Err(e),
        }
    }

    /// Ends verification: Completed when it passed, Failed when it did not.
    pub fn finish_verification(&mut self, passed: bool) -> (r: Result<
        ContractEvent,
        TransitionError,
    >)
        ensures
            transition_outcome(
                *old(self),
                *final(self),
                if passed {
                    ContractStatus::Completed
                } else {
                    ContractStatus::Failed
                },
                r,
            ),
    {
        let target = if passed {
            ContractStatus::Completed
        } else {
            ContractStatus::Failed
        };
        self.transition_to(target)
    }

    pub fn rollback(&mut self) -> (r: Result<ContractEvent, TransitionError>)
        ensures
            transition_outcome(*old(self), *final(self), ContractStatus::RollingBack, r),
            r is Ok <==> old(self).status == ContractStatus::Failed,
    {
        proof {
            reveal(allowed_edge);
        }
        self.transition_to(ContractStatus::RollingBack)
    }

    pub fn cancel(&mut self) -> (r: Result<ContractEvent, TransitionError>)
        ensures
            transition_outcome(*old(self), *final(self), ContractStatus::Cancelled, r),
            r is Ok <==> !terminal(old(self).status) && old(self).status
                != ContractStatus::Verifying && old(self).status != ContractStatus::RollingBack,
    {
        proof {
            reveal(allowed_edge);
        }
        self.transition_to(ContractStatus::Cancelled)
    }
}

impl ContractStatus {
    pub fn from_db_str(value: &str) -> (r: Option<ContractStatus>)
        ensures
            r matches Some(s) ==> status_name(s) == value@,
            r is None ==> forall|s: ContractStatus| status_name(s) != value@,
    {
        let all = [
            ContractStatus::Pending,
            ContractStatus::Ready,
            ContractStatus::Claimed,
            ContractStatus::Executing,
            ContractStatus::Verifying,
            ContractStatus::Completed,
            ContractStatus::Failed,
            ContractStatus::RollingBack,
            ContractStatus::RolledBack,
            ContractStatus::Cancelled,
        ];
        let mut i: usize = 0;
        while i < 10
            invariant
                0 <= i <= 10,
                all@.len() == 10,
                all@ == seq![
                    ContractStatus::Pending,
                    ContractStatus::Ready,
                    ContractStatus::Claimed,
                    ContractStatus::Executing,
                    ContractStatus::Verifying,
                    ContractStatus::Completed,
                    ContractStatus::Failed,
                    ContractStatus::RollingBack,
                    ContractStatus::RolledBack,
                    ContractStatus::Cancelled,
                ],
                forall|j: int| 0 <= j < i ==> status_name(#[trigger] all@[j]) != value@,
            decreases 10 - i,
        {
            let s = all[i];
            if str_equal(s.as_db_str(), value) {
                return Some(s);
            }
            i = i + 1;
        }
        proof {
            assert forall|s: ContractStatus| status_name(s) != value@ by {
                let j: int = match s {
                    ContractStatus::Pending => 0,
                    ContractStatus::Ready => 1,
                    ContractStatus::Claimed => 2,
                    ContractStatus::Executing => 3,
                    ContractStatus::Verifying => 4,
                    ContractStatus::Completed => 5,
                    ContractStatus::Failed => 6,
                    ContractStatus::RollingBack => 7,
                    ContractStatus::RolledBack => 8,
                    ContractStatus::Cancelled => 9,
                };
                assert(all@[j] == s);
            }
        }
        None
    }
}

/// Whether a status belongs to a status-based attention tier.
pub fn status_in_tier(tier: AttentionTier, s: ContractStatus) -> (r: bool)
    ensures
        r == in_tier(tier, s),
{
    match tier {
        AttentionTier::NeedsDecision => false,
        AttentionTier::Anomaly => matches!(
            s,
            ContractStatus::Failed | ContractStatus::RollingBack | ContractStatus::RolledBack
        ),
        AttentionTier::Completed => matches!(s, ContractStatus::Completed),
        AttentionTier::Running => matches!(s, ContractStatus::Executing | ContractStatus::Verifying),
        AttentionTier::Queued => matches!(
            s,
            ContractStatus::Pending | ContractStatus::Ready | ContractStatus::Claimed
        ),
    }
}

} // verus!
