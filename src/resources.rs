//! Arbitration of generic resources (ports) between competing owners.
use vstd::prelude::*;
use vstd::string::StringExecFns;
use crate::text::str_equal;

verus! {

/// A resource that can be leased; structural equality.
#[derive(Debug, Clone, Copy, PartialEq, Eq, Structural, Hash)]
pub enum ResourceKey {
    Port(u16),
}

/// An owner's exclusive hold on a resource.
#[derive(Debug, Clone, PartialEq, Eq)]
pub struct ResourceLease {
    pub resource: ResourceKey,
    pub owner: String,
}

#[derive(Debug, Clone, PartialEq, Eq)]
pub struct ResourceConflict {
    pub requested: ResourceKey,
    pub held_by: ResourceLease,
}

/// The outcome of a claim.
#[derive(Debug, Clone, PartialEq, Eq)]
pub enum ClaimResult {
    Claimed(ResourceLease),
    Negotiated { requested: ResourceKey, assigned: ResourceLease, held_by: ResourceLease },
    Conflict(ResourceConflict),
    /// The requested port lies outside the configured range and nobody holds
    /// it; nothing is granted.
    OutOfRange { requested: ResourceKey },
}

/// Raised when a contention could not be resolved inside the registry.
#[derive(Debug, Clone, PartialEq, Eq)]
pub enum ResourceEvent {
    ConflictEscalated {
        requested: ResourceKey,
        requested_by: String,
        held_by: String,
        reason: &'static str,
    },
}

#[derive(Debug, Clone, PartialEq, Eq)]
pub enum ResourceError {
    NotFound(ResourceKey),
    NotOwner { resource: ResourceKey, expected_owner: String, attempted_by: String },
}

pub open spec fn port_of(k: ResourceKey) -> u16 {
    match k {
        ResourceKey::Port(p) => p,
    }
}

/// Some lease in `s` holds key `k`.
pub open spec fn holds_key(s: Seq<ResourceLease>, k: ResourceKey) -> bool {
    exists|i: int| 0 <= i < s.len() && (#[trigger] s[i]).resource == k
}

/// The lease that holds `k` (meaningful when `holds_key(s, k)`).
pub open spec fn lease_of(s: Seq<ResourceLease>, k: ResourceKey) -> ResourceLease {
    s[choose|i: int| 0 <= i < s.len() && (#[trigger] s[i]).resource == k]
}

/// No two leases hold the same key.
pub open spec fn unique_keys(s: Seq<ResourceLease>) -> bool {
    forall|i: int, j: int|
        0 <= i < s.len() && 0 <= j < s.len() && i != j ==> (#[trigger] s[i]).resource != (
        #[trigger] s[j]).resource
}

/// The lowest port in `[lo, hi]` that no lease holds, if any.
pub open spec fn lowest_free_port(s: Seq<ResourceLease>, lo: int, hi: int) -> Option<u16>
    decreases hi + 1 - lo,
{
    if lo > hi || lo < 0 || lo > u16::MAX {
        None
    } else if !holds_key(s, ResourceKey::Port(lo as u16)) {
        Some(lo as u16)
    } else {
        lowest_free_port(s, lo + 1, hi)
    }
}

/// A port that `lowest_free_port` picks is in `[lo, hi]` and free, and every
/// port before it there is held.
pub proof fn lemma_lowest_free_port(s: Seq<ResourceLease>, lo: int, hi: int)
    ensures
        lowest_free_port(s, lo, hi) matches Some(q) ==> lo <= q <= hi && !holds_key(
            s,
            ResourceKey::Port(q),
        ) && forall|x: int| lo <= x < q ==> holds_key(s, ResourceKey::Port(#[trigger] (x as u16))),
    decreases hi + 1 - lo,
{
    if lo > hi || lo < 0 || lo > u16::MAX {
    } else if !holds_key(s, ResourceKey::Port(lo as u16)) {
    } else {
        lemma_lowest_free_port(s, lo + 1, hi);
    }
}

/// With unique keys, the lease at a position is the lease of its key.
pub proof fn lemma_lease_of_unique(s: Seq<ResourceLease>, i: int)
    requires
        unique_keys(s),
        0 <= i < s.len(),
    ensures
        holds_key(s, s[i].resource),
        lease_of(s, s[i].resource) == s[i],
{
    let k = s[i].resource;
    assert(holds_key(s, k));
    let j = choose|j: int| 0 <= j < s.len() && (#[trigger] s[j]).resource == k;
    assert(s[j].resource == s[i].resource);
}

/// A lease whose port lies in `[start, end]`.
pub open spec fn start_end_in(l: ResourceLease, start: u16, end: u16) -> bool {
    start <= port_of(l.resource) <= end
}

/// Every lease in `s` holds a port in `[start, end]`.
pub open spec fn ports_in_range(s: Seq<ResourceLease>, start: u16, end: u16) -> bool {
    forall|i: int| 0 <= i < s.len() ==> start <= port_of((#[trigger] s[i]).resource) <= end
}

/// The first port that negotiation looks at for a request of `requested`.
pub open spec fn negotiation_start(requested: u16, start: u16) -> int {
    let next = if requested == u16::MAX { requested as int } else { requested + 1 };
    if next < start { start as int } else { next }
}

#[derive(Debug)]
pub struct ResourceRegistry {
    leases: Vec<ResourceLease>,
    port_range: (u16, u16),
    events: Vec<ResourceEvent>,
}

impl ResourceKey {
    pub fn port(value: u16) -> (r: ResourceKey)
        ensures
            r == ResourceKey::Port(value),
    {
        ResourceKey::Port(value)
    }
}

impl ResourceLease {
    /// A copy with equal fields.
    pub fn duplicate(&self) -> (r: ResourceLease)
        ensures
            r == *self,
    {
        ResourceLease { resource: self.resource, owner: self.owner.clone() }
    }
}

impl ResourceError {
    pub fn code(&self) -> (r: &'static str)
        ensures
            self is NotFound ==> r@ == "not_found"@,
            self is NotOwner ==> r@ == "not_owner"@,
    {
        match self {
            ResourceError::NotFound(_) => "not_found",
            ResourceError::NotOwner { .. } => "not_owner",
        }
    }
}

/// What a claim does to the registry and what it returns.
pub open spec fn claim_outcome(
    before: ResourceRegistry,
    resource: ResourceKey,
    owner: Seq<char>,
    after: ResourceRegistry,
    r: ClaimResult,
) -> bool {
    let s = before.lease_seq();
    let (start, end) = before.range();
    &&& after.range() == before.range()
    &&& if !holds_key(s, resource) && !(start <= port_of(resource) <= end) {
        &&& after.lease_seq() == s
        &&& r == ClaimResult::OutOfRange { requested: resource }
        &&& after.pending_events() == before.pending_events()
    } else if !holds_key(s, resource) {
        &&& after.lease_seq() == s.push(ResourceLease { resource, owner: after.lease_seq().last().owner })
        &&& after.lease_seq().last().owner@ == owner
        &&& r == ClaimResult::Claimed(after.lease_seq().last())
        &&& after.pending_events() == before.pending_events()
    } else if lease_of(s, resource).owner@ == owner {
        &&& after.lease_seq() == s
        &&& r == ClaimResult::Claimed(lease_of(s, resource))
        &&& after.pending_events() == before.pending_events()
    } else {
        let held = lease_of(s, resource);
        match lowest_free_port(s, negotiation_start(port_of(resource), start), end as int) {
            Some(p) => {
                let assigned = after.lease_seq().last();
                &&& after.lease_seq() == s.push(assigned)
                &&& assigned.resource == ResourceKey::Port(p)
                &&& assigned.owner@ == owner
                &&& r == ClaimResult::Negotiated { requested: resource, assigned, held_by: held }
                &&& after.pending_events() == before.pending_events()
            },
            None => {
                &&& after.lease_seq() == s
                &&& r == ClaimResult::Conflict(ResourceConflict { requested: resource, held_by: held })
                &&& after.pending_events().len() == before.pending_events().len() + 1
                &&& after.pending_events().drop_last() == before.pending_events()
                &&& after.pending_events().last() matches ResourceEvent::ConflictEscalated {
                    requested,
                    requested_by,
                    held_by,
                    reason,
                } && requested == resource && requested_by@ == owner && held_by@ == held.owner@
                    && reason@ == "port_range_exhausted"@
            },
        }
    }
}

impl ResourceRegistry {
    pub open spec fn wf(&self) -> bool {
        &&& unique_keys(self.lease_seq())
        &&& self.range().0 <= self.range().1
        &&& ports_in_range(self.lease_seq(), self.range().0, self.range().1)
    }

    /// The leases by key.
    pub open spec fn lease_map(&self) -> Map<ResourceKey, ResourceLease> {
        Map::new(|k: ResourceKey| holds_key(self.lease_seq(), k), |k: ResourceKey| lease_of(self.lease_seq(), k))
    }

    /// The leases currently held, in the order they were granted.
    pub closed spec fn lease_seq(&self) -> Seq<ResourceLease> {
        self.leases@
    }

    /// The configured port range, both ends included.
    pub closed spec fn range(&self) -> (u16, u16) {
        self.port_range
    }

    /// Escalations that have not been drained yet.
    pub closed spec fn pending_events(&self) -> Seq<ResourceEvent> {
        self.events@
    }

    pub fn with_port_range(start: u16, end: u16) -> (r: ResourceRegistry)
        requires
            start <= end,
        ensures
            r.wf(),
            r.lease_seq() == Seq::<ResourceLease>::empty(),
            r.range() == (start, end),
            r.pending_events() == Seq::<ResourceEvent>::empty(),
    {
        ResourceRegistry { leases: Vec::new(), port_range: (start, end), events: Vec::new() }
    }

    fn find(&self, resource: ResourceKey) -> (r: Option<usize>)
        ensures
            r matches Some(i) ==> i < self.leases@.len() && self.leases@[i as int].resource
                == resource,
            r is None ==> !holds_key(self.leases@, resource),
    {
        let mut i: usize = 0;
        while i < self.leases.len()
            invariant
                0 <= i <= self.leases@.len(),
                forall|j: int| 0 <= j < i ==> (#[trigger] self.leases@[j]).resource != resource,
            decreases self.leases@.len() - i,
        {
            if self.leases[i].resource == resource {
                return Some(i);
            }
            i = i + 1;
        }
        None
    }

    fn next_available_port_after(&self, resource: ResourceKey) -> (r: Option<u16>)
        ensures
            r == lowest_free_port(
                self.leases@,
                negotiation_start(port_of(resource), self.port_range.0),
                self.port_range.1 as int,
            ),
    {
        let ResourceKey::Port(requested) = resource;
        let (start, end) = self.port_range;
        let next: u16 = if requested == u16::MAX { requested } else { requested + 1 };
        let from: u16 = if next < start { start } else { next };
        assert(from as int == negotiation_start(port_of(resource), start));
        let mut candidate: u32 = from as u32;
        while candidate <= end as u32
            invariant
                from as int <= candidate,
                end == self.port_range.1,
                from as int == negotiation_start(port_of(resource), self.port_range.0),
                lowest_free_port(self.leases@, from as int, end as int) == lowest_free_port(
                    self.leases@,
                    candidate as int,
                    end as int,
                ),
            decreases end as int + 1 - candidate,
        {
            if self.find(ResourceKey::Port(candidate as u16)).is_none() {
                assert(lowest_free_port(self.leases@, candidate as int, end as int) == Some(
                    candidate as u16,
                ));
                assert(lowest_free_port(self.leases@, from as int, end as int) == Some(
                    candidate as u16,
                ));
                return Some(candidate as u16);
            }
            candidate = candidate + 1;
        }
        None
    }

    pub fn claim(&mut self, resource: ResourceKey, owner: &str) -> (r: ClaimResult)
        requires
            old(self).wf(),
        ensures
            final(self).wf(),
            claim_outcome(*old(self), resource, owner@, *final(self), r),
    {
        let owner = String::from_str(owner);
        match self.find(resource) {
            Some(i) => {
                let existing = self.leases[i].duplicate();
                proof {
                    assert(lease_of(self.leases@, resource) == existing);
                }
                if str_equal(existing.owner.as_str(), owner.as_str()) {
                    return ClaimResult::Claimed(existing);
                }
                match self.next_available_port_after(resource) {
                    Some(negotiated) => {
                        let assigned = ResourceLease { resource: ResourceKey::Port(negotiated), owner };
                        proof {
                            lemma_lowest_free_port(
                                self.leases@,
                                negotiation_start(port_of(resource), self.port_range.0),
                                self.port_range.1 as int,
                            );
                        }
                        let ghost before = self.leases@;
                        self.leases.push(assigned.duplicate());
                        proof {
                            assert forall|a: int, b: int|
                                0 <= a < self.leases@.len() && 0 <= b < self.leases@.len() && a
                                    != b implies (#[trigger] self.leases@[a]).resource != (
                            #[trigger] self.leases@[b]).resource by {
                                if a < before.len() && b < before.len() {
                                } else if a == before.len() {
                                    assert(before[b] == self.leases@[b]);
                                } else {
                                    assert(before[a] == self.leases@[a]);
                                }
                            }
                        }
                        proof {
                            let after = self.leases@;
                            assert forall|k: int| 0 <= k < after.len() implies self.port_range.0 <= port_of((#[trigger] after[k]).resource) <= self.port_range.1 by {
                                if k < before.len() {
                                    assert(after[k] == before[k]);
                                }
                            }
                        }
                        ClaimResult::Negotiated { requested: resource, assigned, held_by: existing }
                    },
                    None => {
                        let ghost old_events = self.events@;
                        self.events.push(
                            ResourceEvent::ConflictEscalated {
                                requested: resource,
                                requested_by: owner,
                                held_by: existing.owner.clone(),
                                reason: "port_range_exhausted",
                            },
                        );
                        proof {
                            assert(self.events@.drop_last() =~= old_events);
                        }
                        ClaimResult::Conflict(ResourceConflict { requested: resource, held_by: existing })
                    },
                }
            },
            None => {
                let ResourceKey::Port(requested) = resource;
                if !(self.port_range.0 <= requested && requested <= self.port_range.1) {
                    return ClaimResult::OutOfRange { requested: resource };
                }
                let lease = ResourceLease { resource, owner };
                let ghost before = self.leases@;
                self.leases.push(lease.duplicate());
                proof {
                    assert forall|a: int, b: int|
                        0 <= a < self.leases@.len() && 0 <= b < self.leases@.len() && a
                            != b implies (#[trigger] self.leases@[a]).resource != (
                    #[trigger] self.leases@[b]).resource by {
                        if a < before.len() && b < before.len() {
                        } else if a == before.len() {
                            assert(before[b] == self.leases@[b]);
                        } else {
                            assert(before[a] == self.leases@[a]);
                        }
                    }
                }
                proof {
                    let after = self.leases@;
                    assert forall|k: int| 0 <= k < after.len() implies self.port_range.0 <= port_of((#[trigger] after[k]).resource) <= self.port_range.1 by {
                        if k < before.len() {
                            assert(after[k] == before[k]);
                        }
                    }
                }
                ClaimResult::Claimed(lease)
            },
        }
    }
}

impl ResourceRegistry {
    pub fn release(&mut self, resource: ResourceKey, owner: &str) -> (r: Result<
        ResourceLease,
        ResourceError,
    >)
        requires
            old(self).wf(),
        ensures
            final(self).wf(),
            final(self).range() == old(self).range(),
            final(self).pending_events() == old(self).pending_events(),
            !old(self).lease_map().contains_key(resource) ==> *final(self) == *old(self) && r
                == Err::<ResourceLease, ResourceError>(ResourceError::NotFound(resource)),
            old(self).lease_map().contains_key(resource) && old(self).lease_map()[resource].owner@
                != owner@ ==> *final(self) == *old(self) && (r matches Err(
                ResourceError::NotOwner { resource: k, expected_owner, attempted_by },
            ) && k == resource && expected_owner == old(self).lease_map()[resource].owner
                && attempted_by@ == owner@),
            old(self).lease_map().contains_key(resource) && old(self).lease_map()[resource].owner@
                == owner@ ==> r == Ok::<ResourceLease, ResourceError>(
                old(self).lease_map()[resource],
            ) && final(self).lease_map() == old(self).lease_map().remove(resource),
    {
        let i = match self.find(resource) {
            Some(i) => i,
            None => {
                return Err(ResourceError::NotFound(resource));
            },
        };
        proof {
            lemma_lease_of_unique(self.leases@, i as int);
        }
        if !str_equal(self.leases[i].owner.as_str(), owner) {
            return Err(
                ResourceError::NotOwner {
                    resource,
                    expected_owner: self.leases[i].owner.clone(),
                    attempted_by: String::from_str(owner),
                },
            );
        }
        let ghost before = self.leases@;
        let lease = self.leases.remove(i);
        proof {
            let after = self.leases@;
            assert(after =~= before.remove(i as int));
            assert forall|a: int, b: int|
                0 <= a < after.len() && 0 <= b < after.len() && a != b implies (
            #[trigger] after[a]).resource != (#[trigger] after[b]).resource by {
                let a0 = if a < i { a } else { a + 1 };
                let b0 = if b < i { b } else { b + 1 };
                assert(after[a] == before[a0]);
                assert(after[b] == before[b0]);
            }
            assert forall|k: ResourceKey|
                #![trigger holds_key(after, k)]
                holds_key(after, k) == (holds_key(before, k) && k != resource) by {
                if holds_key(after, k) {
                    let a = choose|a: int| 0 <= a < after.len() && (#[trigger] after[a]).resource == k;
                    let a0 = if a < i { a } else { a + 1 };
                    assert(after[a] == before[a0]);
                }
                if holds_key(before, k) && k != resource {
                    let b = choose|b: int| 0 <= b < before.len() && (#[trigger] before[b]).resource == k;
                    assert(b != i);
                    let b1 = if b < i { b } else { b - 1 };
                    assert(after[b1] == before[b]);
                }
            }
            assert forall|k: ResourceKey| holds_key(after, k) implies lease_of(after, k) == lease_of(before, k) by {
                let a = choose|a: int| 0 <= a < after.len() && (#[trigger] after[a]).resource == k;
                let a0 = if a < i { a } else { a + 1 };
                assert(after[a] == before[a0]);
                lemma_lease_of_unique(after, a);
                lemma_lease_of_unique(before, a0);
            }
            assert(self.lease_map() =~= old(self).lease_map().remove(resource));
        }
        Ok(lease)
    }

    /// Hands out the escalations raised since the last call, oldest first.
    pub fn drain_events(&mut self) -> (r: Vec<ResourceEvent>)
        ensures
            r@ == old(self).pending_events(),
            final(self).pending_events() == Seq::<ResourceEvent>::empty(),
            final(self).lease_seq() == old(self).lease_seq(),
            final(self).range() == old(self).range(),
    {
        let mut taken = Vec::new();
        std::mem::swap(&mut taken, &mut self.events);
        taken
    }

    /// The leases currently held, in the order they were granted.
    pub fn export_leases(&self) -> (r: Vec<ResourceLease>)
        ensures
            r@ == self.lease_seq(),
    {
        let mut out: Vec<ResourceLease> = Vec::new();
        let mut i: usize = 0;
        while i < self.leases.len()
            invariant
                0 <= i <= self.leases@.len(),
                out@ == self.leases@.subrange(0, i as int),
            decreases self.leases@.len() - i,
        {
            out.push(self.leases[i].duplicate());
            i = i + 1;
            proof {
                assert(out@ =~= self.leases@.subrange(0, i as int));
            }
        }
        proof {
            assert(out@ =~= self.leases@);
        }
        out
    }

    /// Replaces the held leases; of several leases for one key the last wins.
    /// The leases whose port lies inside the range, in order.
    fn within_range(&self, leases: Vec<ResourceLease>) -> (r: Vec<ResourceLease>)
        ensures
            ports_in_range(r@, self.port_range.0, self.port_range.1),
            forall|k: ResourceKey| #[trigger] holds_key(r@, k) == (holds_key(leases@, k) && self.port_range.0 <= port_of(k) <= self.port_range.1),
            ports_in_range(leases@, self.port_range.0, self.port_range.1) ==> r@ == leases@,
    {
        let (start, end) = self.port_range;
        let mut out: Vec<ResourceLease> = Vec::new();
        let mut i: usize = 0;
        while i < leases.len()
            invariant
                0 <= i <= leases@.len(),
                start == self.port_range.0,
                end == self.port_range.1,
                ports_in_range(out@, start, end),
                forall|k: ResourceKey| #[trigger] holds_key(out@, k) == (holds_key(leases@.subrange(0, i as int), k) && start <= port_of(k) <= end),
                ports_in_range(leases@, start, end) ==> out@ == leases@.subrange(0, i as int),
            decreases leases@.len() - i,
        {
            let l = leases[i].duplicate();
            let ResourceKey::Port(p) = l.resource;
            let ghost before = out@;
            let ghost prefix = leases@.subrange(0, i as int);
            let ghost next = leases@.subrange(0, i + 1);
            assert(next =~= prefix.push(leases@[i as int]));
            if start <= p && p <= end {
                out.push(l);
            }
            proof {
                let after = out@;
                assert forall|k: int| 0 <= k < after.len() implies start <= port_of((#[trigger] after[k]).resource) <= end by {
                    if k < before.len() {
                        assert(after[k] == before[k]);
                    }
                }
                assert forall|k: ResourceKey| #[trigger] holds_key(after, k) == (holds_key(next, k) && start <= port_of(k) <= end) by {
                    if holds_key(after, k) {
                        let a = choose|a: int| 0 <= a < after.len() && (#[trigger] after[a]).resource == k;
                        if a < before.len() {
                            assert(after[a] == before[a]);
                            assert(holds_key(before, k));
                            let c = choose|c: int| 0 <= c < prefix.len() && (#[trigger] prefix[c]).resource == k;
                            assert(next[c] == prefix[c]);
                        } else {
                            assert(next[i as int] == after[a]);
                        }
                    }
                    if holds_key(next, k) && start <= port_of(k) <= end {
                        let c = choose|c: int| 0 <= c < next.len() && (#[trigger] next[c]).resource == k;
                        if c < prefix.len() {
                            assert(prefix[c] == next[c]);
                            assert(holds_key(prefix, k));
                            assert(holds_key(before, k));
                            let a = choose|a: int| 0 <= a < before.len() && (#[trigger] before[a]).resource == k;
                            assert(after[a] == before[a]);
                        } else {
                            assert(after[before.len() as int].resource == k);
                        }
                    }
                }
                if ports_in_range(leases@, start, end) {
                    assert(start <= port_of(leases@[i as int].resource) <= end);
                    assert(after =~= next);
                }
            }
            i = i + 1;
        }
        proof {
            assert(leases@.subrange(0, leases@.len() as int) =~= leases@);
        }
        out
    }

    /// Replaces the held leases; leases outside the range are dropped, and of
    /// several leases for one key the last wins.
    pub fn import_leases(&mut self, leases: Vec<ResourceLease>)
        requires
            old(self).wf(),
        ensures
            resource_import_outcome(*old(self), leases@, *final(self)),
    {
        let all = leases;
        let leases = self.within_range(all);
        self.leases = Vec::new();
        let mut i: usize = 0;
        while i < leases.len()
            invariant
                0 <= i <= leases@.len(),
                unique_keys(self.leases@),
                ports_in_range(leases@, self.port_range.0, self.port_range.1),
                ports_in_range(self.leases@, self.port_range.0, self.port_range.1),
                self.port_range == old(self).port_range,
                self.events == old(self).events,
                forall|k: ResourceKey| #[trigger] holds_key(self.leases@, k) == holds_key(
                    leases@.subrange(0, i as int),
                    k,
                ),
                unique_keys(leases@) ==> self.leases@ == leases@.subrange(0, i as int),
            decreases leases@.len() - i,
        {
            let lease = leases[i].duplicate();
            let ghost before = self.leases@;
            let ghost prefix = leases@.subrange(0, i as int);
            let ghost next = leases@.subrange(0, i + 1);
            assert(next =~= prefix.push(leases@[i as int]));
            match self.find(lease.resource) {
                Some(j) => {
                    proof {
                        if unique_keys(leases@) {
                            let b = choose|b: int| 0 <= b < before.len() && (#[trigger] before[b]).resource == lease.resource;
                            assert(prefix[b] == leases@[b]);
                            assert(false);
                        }
                    }
                    self.leases.set(j, lease);
                    proof {
                        let after = self.leases@;
                        assert(start_end_in(leases@[i as int], self.port_range.0, self.port_range.1));
                        assert forall|k: int| 0 <= k < after.len() implies self.port_range.0 <= port_of((#[trigger] after[k]).resource) <= self.port_range.1 by {
                            if k < before.len() && after[k] == before[k] {
                            }
                        }
                    }
                    proof {
                        let after = self.leases@;
                        assert forall|a: int, b: int|
                            0 <= a < after.len() && 0 <= b < after.len() && a != b implies (
                        #[trigger] after[a]).resource != (#[trigger] after[b]).resource by {
                            assert(before[a].resource == after[a].resource);
                            assert(before[b].resource == after[b].resource);
                        }
                        assert forall|k: ResourceKey| #[trigger] holds_key(after, k) == holds_key(next, k) by {
                            if holds_key(after, k) {
                                let a = choose|a: int| 0 <= a < after.len() && (#[trigger] after[a]).resource == k;
                                assert(before[a].resource == k);
                                assert(holds_key(before, k));
                                assert(holds_key(prefix, k));
                                let c = choose|c: int| 0 <= c < prefix.len() && (#[trigger] prefix[c]).resource == k;
                                assert(next[c] == prefix[c]);
                            }
                            if holds_key(next, k) {
                                let c = choose|c: int| 0 <= c < next.len() && (#[trigger] next[c]).resource == k;
                                if c < prefix.len() {
                                    assert(prefix[c] == next[c]);
                                    assert(holds_key(prefix, k));
                                    assert(holds_key(before, k));
                                    let a = choose|a: int| 0 <= a < before.len() && (#[trigger] before[a]).resource == k;
                                    assert(after[a].resource == k);
                                } else {
                                    assert(after[j as int].resource == k);
                                }
                            }
                        }
                    }
                },
                None => {
                    self.leases.push(lease);
                    proof {
                        let after = self.leases@;
                        assert(start_end_in(leases@[i as int], self.port_range.0, self.port_range.1));
                        assert forall|k: int| 0 <= k < after.len() implies self.port_range.0 <= port_of((#[trigger] after[k]).resource) <= self.port_range.1 by {
                            if k < before.len() && after[k] == before[k] {
                            }
                        }
                    }
                    proof {
                        let after = self.leases@;
                        assert forall|a: int, b: int|
                            0 <= a < after.len() && 0 <= b < after.len() && a != b implies (
                        #[trigger] after[a]).resource != (#[trigger] after[b]).resource by {
                            if a < before.len() && b < before.len() {
                                assert(before[a] == after[a]);
                                assert(before[b] == after[b]);
                            } else if a == before.len() {
                                assert(before[b] == after[b]);
                            } else {
                                assert(before[a] == after[a]);
                            }
                        }
                        assert forall|k: ResourceKey| #[trigger] holds_key(after, k) == holds_key(next, k) by {
                            if holds_key(after, k) {
                                let a = choose|a: int| 0 <= a < after.len() && (#[trigger] after[a]).resource == k;
                                if a < before.len() {
                                    assert(before[a] == after[a]);
                                    assert(holds_key(before, k));
                                    let c = choose|c: int| 0 <= c < prefix.len() && (#[trigger] prefix[c]).resource == k;
                                    assert(next[c] == prefix[c]);
                                } else {
                                    assert(next[i as int] == after[a]);
                                }
                            }
                            if holds_key(next, k) {
                                let c = choose|c: int| 0 <= c < next.len() && (#[trigger] next[c]).resource == k;
                                if c < prefix.len() {
                                    assert(prefix[c] == next[c]);
                                    assert(holds_key(prefix, k));
                                    assert(holds_key(before, k));
                                    let a = choose|a: int| 0 <= a < before.len() && (#[trigger] before[a]).resource == k;
                                    assert(after[a] == before[a]);
                                } else {
                                    assert(after[before.len() as int].resource == k);
                                }
                            }
                        }
                        if unique_keys(leases@) {
                            assert(after =~= next);
                        }
                    }
                },
            }
            i = i + 1;
        }
        proof {
            assert(leases@.subrange(0, leases@.len() as int) =~= leases@);
        }
    }
}

impl Default for ResourceRegistry {
    fn default() -> (r: ResourceRegistry)
        ensures
            r.wf(),
            r.lease_seq() == Seq::<ResourceLease>::empty(),
            r.range() == (3000u16, 4999u16),
            r.pending_events() == Seq::<ResourceEvent>::empty(),
    {
        ResourceRegistry::with_port_range(3000, 4999)
    }
}

/// What importing `leases` into `before` leaves in `after`.
pub open spec fn resource_import_outcome(
    before: ResourceRegistry,
    leases: Seq<ResourceLease>,
    after: ResourceRegistry,
) -> bool {
    &&& after.wf()
    &&& after.range() == before.range()
    &&& after.pending_events() == before.pending_events()
    &&& forall|k: ResourceKey| #[trigger] holds_key(after.lease_seq(), k) == (holds_key(leases, k)
        && before.range().0 <= port_of(k) <= before.range().1)
    &&& unique_keys(leases) && ports_in_range(leases, before.range().0, before.range().1)
        ==> after.lease_seq() == leases
}

/// Any claim keeps every leased port inside the range; a free port outside
/// it is refused rather than granted.
pub proof fn lemma_resource_claim_keeps_ports_in_range(
    before: ResourceRegistry,
    resource: ResourceKey,
    owner: Seq<char>,
    after: ResourceRegistry,
    r: ClaimResult,
)
    requires
        before.wf(),
        claim_outcome(before, resource, owner, after, r),
    ensures
        ports_in_range(after.lease_seq(), after.range().0, after.range().1),
{
    let s = before.lease_seq();
    let t = after.lease_seq();
    let (start, end) = before.range();
    lemma_lowest_free_port(s, negotiation_start(port_of(resource), start), end as int);
    assert forall|i: int| 0 <= i < t.len() implies start <= port_of((#[trigger] t[i]).resource) <= end by {
        if i < s.len() {
            assert(t[i] == s[i]);
        }
    }
}

/// Exporting the leases of one registry and importing them into a fresh one
/// reproduces the same leases.
pub proof fn lemma_resource_export_import(
    source: ResourceRegistry,
    exported: Seq<ResourceLease>,
    fresh: ResourceRegistry,
    restored: ResourceRegistry,
)
    requires
        source.wf(),
        exported == source.lease_seq(),
        fresh.wf(),
        fresh.range() == source.range(),
        fresh.lease_seq() == Seq::<ResourceLease>::empty(),
        resource_import_outcome(fresh, exported, restored),
    ensures
        restored.lease_seq() == source.lease_seq(),
        restored.lease_map() == source.lease_map(),
{
}

/// What a lease is made of, with the owner as text.
pub open spec fn lease_view(l: ResourceLease) -> (ResourceKey, Seq<char>) {
    (l.resource, l.owner@)
}

pub open spec fn lease_views(s: Seq<ResourceLease>) -> Seq<(ResourceKey, Seq<char>)> {
    s.map_values(|l: ResourceLease| lease_view(l))
}

/// The port a claim ended up holding for the requester, if any.
pub open spec fn granted_port(r: ClaimResult) -> Option<u16> {
    match r {
        ClaimResult::Claimed(l) => Some(port_of(l.resource)),
        ClaimResult::Negotiated { assigned, .. } => Some(port_of(assigned.resource)),
        ClaimResult::Conflict(_) => None,
        ClaimResult::OutOfRange { .. } => None,
    }
}

proof fn lemma_same_views_same_keys(s1: Seq<ResourceLease>, s2: Seq<ResourceLease>, k: ResourceKey)
    requires
        lease_views(s1) == lease_views(s2),
    ensures
        holds_key(s1, k) == holds_key(s2, k),
{
    assert(s1.len() == lease_views(s1).len());
    assert(s2.len() == lease_views(s2).len());
    if holds_key(s1, k) {
        let i = choose|i: int| 0 <= i < s1.len() && (#[trigger] s1[i]).resource == k;
        assert(lease_views(s1)[i] == lease_views(s2)[i]);
        assert(s2[i].resource == k);
    }
    if holds_key(s2, k) {
        let i = choose|i: int| 0 <= i < s2.len() && (#[trigger] s2[i]).resource == k;
        assert(lease_views(s1)[i] == lease_views(s2)[i]);
        assert(s1[i].resource == k);
    }
}

proof fn lemma_same_views_same_free_port(s1: Seq<ResourceLease>, s2: Seq<ResourceLease>, lo: int, hi: int)
    requires
        lease_views(s1) == lease_views(s2),
    ensures
        lowest_free_port(s1, lo, hi) == lowest_free_port(s2, lo, hi),
    decreases hi + 1 - lo,
{
    if lo > hi || lo < 0 || lo > u16::MAX {
    } else {
        lemma_same_views_same_keys(s1, s2, ResourceKey::Port(lo as u16));
        lemma_same_views_same_free_port(s1, s2, lo + 1, hi);
    }
}

/// Two registries that hold the same leases (as views) and range answer the
/// same claim with the same port and end with the same leases.
pub proof fn lemma_claim_deterministic(
    b1: ResourceRegistry,
    b2: ResourceRegistry,
    resource: ResourceKey,
    owner: Seq<char>,
    a1: ResourceRegistry,
    r1: ClaimResult,
    a2: ResourceRegistry,
    r2: ClaimResult,
)
    requires
        b1.wf(),
        b2.wf(),
        lease_views(b1.lease_seq()) == lease_views(b2.lease_seq()),
        b1.range() == b2.range(),
        claim_outcome(b1, resource, owner, a1, r1),
        claim_outcome(b2, resource, owner, a2, r2),
    ensures
        granted_port(r1) == granted_port(r2),
        (r1 is Conflict) == (r2 is Conflict),
        lease_views(a1.lease_seq()) == lease_views(a2.lease_seq()),
        a1.range() == a2.range(),
{
    let s1 = b1.lease_seq();
    let s2 = b2.lease_seq();
    let (start, end) = b1.range();
    lemma_same_views_same_keys(s1, s2, resource);
    lemma_same_views_same_free_port(s1, s2, negotiation_start(port_of(resource), start), end as int);
    assert(s1.len() == lease_views(s1).len());
    if holds_key(s1, resource) {
        let i = choose|i: int| 0 <= i < s1.len() && (#[trigger] s1[i]).resource == resource;
        lemma_lease_of_unique(s1, i);
        assert(lease_views(s1)[i] == lease_views(s2)[i]);
        lemma_lease_of_unique(s2, i);
    }
    let t1 = a1.lease_seq();
    let t2 = a2.lease_seq();
    if t1.len() == s1.len() + 1 {
        assert(lease_views(t1) =~= lease_views(s1).push(lease_view(t1.last())));
        assert(lease_views(t2) =~= lease_views(s2).push(lease_view(t2.last())));
    }
}

/// A fixed sequence of claims made against registries that start out with
/// the same leases and range grants the same ports, claim by claim.
pub proof fn lemma_claim_sequence_deterministic(
    requests: Seq<(ResourceKey, Seq<char>)>,
    states1: Seq<ResourceRegistry>,
    results1: Seq<ClaimResult>,
    states2: Seq<ResourceRegistry>,
    results2: Seq<ClaimResult>,
)
    requires
        states1.len() == requests.len() + 1,
        states2.len() == requests.len() + 1,
        results1.len() == requests.len(),
        results2.len() == requests.len(),
        states1[0].wf(),
        states2[0].wf(),
        lease_views(states1[0].lease_seq()) == lease_views(states2[0].lease_seq()),
        states1[0].range() == states2[0].range(),
        forall|i: int|
            0 <= i < requests.len() ==> claim_outcome(
                states1[i],
                requests[i].0,
                requests[i].1,
                states1[i + 1],
                #[trigger] results1[i],
            ) && states1[i + 1].wf(),
        forall|i: int|
            0 <= i < requests.len() ==> claim_outcome(
                states2[i],
                requests[i].0,
                requests[i].1,
                states2[i + 1],
                #[trigger] results2[i],
            ) && states2[i + 1].wf(),
    ensures
        forall|i: int| 0 <= i < requests.len() ==> granted_port(#[trigger] results1[i]) == granted_port(results2[i]),
        lease_views(states1.last().lease_seq()) == lease_views(states2.last().lease_seq()),
    decreases requests.len(),
{
    let n = requests.len() as int;
    if n > 0 {
        let p = requests.drop_last();
        let s1 = states1.drop_last();
        let s2 = states2.drop_last();
        let q1 = results1.drop_last();
        let q2 = results2.drop_last();
        assert forall|i: int| 0 <= i < p.len() implies claim_outcome(
            s1[i],
            p[i].0,
            p[i].1,
            s1[i + 1],
            #[trigger] q1[i],
        ) && s1[i + 1].wf() by {
            assert(q1[i] == results1[i]);
            assert(claim_outcome(states1[i], requests[i].0, requests[i].1, states1[i + 1], results1[i]) && states1[i + 1].wf());
        }
        assert forall|i: int| 0 <= i < p.len() implies claim_outcome(
            s2[i],
            p[i].0,
            p[i].1,
            s2[i + 1],
            #[trigger] q2[i],
        ) && s2[i + 1].wf() by {
            assert(q2[i] == results2[i]);
            assert(claim_outcome(states2[i], requests[i].0, requests[i].1, states2[i + 1], results2[i]) && states2[i + 1].wf());
        }
        lemma_claim_sequence_deterministic(p, s1, q1, s2, q2);
        let last = n - 1;
        assert(claim_outcome(states1[last], requests[last].0, requests[last].1, states1[n], results1[last]) && states1[n].wf());
        assert(claim_outcome(states2[last], requests[last].0, requests[last].1, states2[n], results2[last]) && states2[n].wf());
        assert(s1.last() == states1[last]);
        assert(s2.last() == states2[last]);
        if last > 0 {
            let j = last - 1;
            assert(0 <= j < requests.len());
            assert(claim_outcome(states1[j], requests[j].0, requests[j].1, states1[j + 1], results1[j]));
            assert(claim_outcome(states2[j], requests[j].0, requests[j].1, states2[j + 1], results2[j]));
            assert(states1[j + 1].wf());
            assert(states2[j + 1].wf());
            assert(j + 1 == last);
            assert(states1[last].range() == states2[last].range()) by {
                lemma_ranges_kept(requests, states1, results1, last);
                lemma_ranges_kept(requests, states2, results2, last);
            }
        }
        lemma_claim_deterministic(
            states1[last],
            states2[last],
            requests[last].0,
            requests[last].1,
            states1[n],
            results1[last],
            states2[n],
            results2[last],
        );
        assert forall|i: int| 0 <= i < requests.len() implies granted_port(#[trigger] results1[i]) == granted_port(results2[i]) by {
            if i < last {
                assert(q1[i] == results1[i] && q2[i] == results2[i]);
            }
        }
    }
}

proof fn lemma_ranges_kept(
    requests: Seq<(ResourceKey, Seq<char>)>,
    states: Seq<ResourceRegistry>,
    results: Seq<ClaimResult>,
    k: int,
)
    requires
        states.len() == requests.len() + 1,
        results.len() == requests.len(),
        0 <= k <= requests.len(),
        forall|i: int|
            0 <= i < requests.len() ==> claim_outcome(
                states[i],
                requests[i].0,
                requests[i].1,
                states[i + 1],
                #[trigger] results[i],
            ),
    ensures
        states[k].range() == states[0].range(),
    decreases k,
{
    if k > 0 {
        lemma_ranges_kept(requests, states, results, k - 1);
        assert(claim_outcome(states[k - 1], requests[k - 1].0, requests[k - 1].1, states[k], results[k - 1]));
    }
}

} // verus!
