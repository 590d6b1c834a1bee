//! Named logical endpoints, each holding one port of a dedicated range.
use vstd::prelude::*;
use vstd::seq_lib::to_multiset_insert;
use vstd::string::StringExecFns;
use crate::text::{decimal, lemma_lex_total, lemma_lex_trans, lex_le, push_decimal, str_equal, str_le};

verus! {

#[derive(Debug, Clone, PartialEq, Eq)]
pub struct EndpointLease {
    pub name: String,
    pub owner: String,
    pub port: u16,
}

#[derive(Debug, Clone, PartialEq, Eq)]
pub struct EndpointConflict {
    pub name: String,
    pub requested_port: u16,
    pub held_by: Option<EndpointLease>,
}

/// The outcome of an endpoint claim.
#[derive(Debug, Clone, PartialEq, Eq)]
pub enum EndpointClaimResult {
    Claimed(EndpointLease),
    Negotiated { requested_port: u16, assigned: EndpointLease, held_by: EndpointLease },
    Conflict(EndpointConflict),
}

/// Raised when no port of the range is free for a claim.
#[derive(Debug, Clone, PartialEq, Eq)]
pub enum EndpointEvent {
    RangeExhausted { name: String, owner: String, requested_port: u16, reason: &'static str },
}

#[derive(Debug, Clone, PartialEq, Eq)]
pub enum EndpointError {
    NotFound { name: String },
    NotOwner { name: String, expected_owner: String, attempted_by: String },
}

/// The URL an endpoint is served under.
pub open spec fn endpoint_url(name: Seq<char>, port: u16) -> Seq<char> {
    "http://"@ + name + ".localhost:"@ + decimal(port as nat)
}

/// Some lease in `s` is named `n`.
pub open spec fn holds_name(s: Seq<EndpointLease>, n: Seq<char>) -> bool {
    exists|i: int| 0 <= i < s.len() && (#[trigger] s[i]).name@ == n
}

/// The lease named `n` (meaningful when `holds_name(s, n)`).
pub open spec fn lease_named(s: Seq<EndpointLease>, n: Seq<char>) -> EndpointLease {
    s[choose|i: int| 0 <= i < s.len() && (#[trigger] s[i]).name@ == n]
}

pub open spec fn unique_names(s: Seq<EndpointLease>) -> bool {
    forall|i: int, j: int|
        0 <= i < s.len() && 0 <= j < s.len() && i != j ==> (#[trigger] s[i]).name@ != (
        #[trigger] s[j]).name@
}

pub open spec fn unique_ports(s: Seq<EndpointLease>) -> bool {
    forall|i: int, j: int|
        0 <= i < s.len() && 0 <= j < s.len() && i != j ==> (#[trigger] s[i]).port != (
        #[trigger] s[j]).port
}

pub open spec fn ports_within(s: Seq<EndpointLease>, start: u16, end: u16) -> bool {
    forall|i: int| 0 <= i < s.len() ==> start <= (#[trigger] s[i]).port <= end
}

pub open spec fn port_taken(s: Seq<EndpointLease>, p: u16) -> bool {
    exists|i: int| 0 <= i < s.len() && (#[trigger] s[i]).port == p
}

/// The first lease in `s` that holds port `p`.
pub open spec fn port_holder(s: Seq<EndpointLease>, p: u16) -> Option<EndpointLease>
    decreases s.len(),
{
    if s.len() == 0 {
        None
    } else if s[0].port == p {
        Some(s[0])
    } else {
        port_holder(s.drop_first(), p)
    }
}

/// The lowest port in `[lo, hi]` that no lease holds, if any.
pub open spec fn first_free(s: Seq<EndpointLease>, lo: int, hi: int) -> Option<u16>
    decreases hi + 1 - lo,
{
    if lo > hi || lo < 0 || lo > u16::MAX {
        None
    } else if !port_taken(s, lo as u16) {
        Some(lo as u16)
    } else {
        first_free(s, lo + 1, hi)
    }
}

/// The port negotiation assigns for a taken `requested` port: the first free
/// one above it, else the first free one from the start of the range below it.
pub open spec fn negotiated_port(s: Seq<EndpointLease>, requested: u16, start: u16, end: u16) -> Option<u16> {
    if !(start <= requested <= end) {
        None
    } else {
        match first_free(s, requested + 1, end as int) {
            Some(p) => Some(p),
            None => first_free(s, start as int, requested - 1),
        }
    }
}

pub proof fn lemma_first_free(s: Seq<EndpointLease>, lo: int, hi: int)
    ensures
        first_free(s, lo, hi) matches Some(q) ==> lo <= q <= hi && !port_taken(s, q),
    decreases hi + 1 - lo,
{
    if lo > hi || lo < 0 || lo > u16::MAX {
    } else if !port_taken(s, lo as u16) {
    } else {
        lemma_first_free(s, lo + 1, hi);
    }
}

pub proof fn lemma_port_holder(s: Seq<EndpointLease>, p: u16)
    ensures
        port_holder(s, p) is Some <==> port_taken(s, p),
        port_holder(s, p) matches Some(l) ==> s.contains(l) && l.port == p,
    decreases s.len(),
{
    if s.len() > 0 && s[0].port != p {
        lemma_port_holder(s.drop_first(), p);
        if port_taken(s, p) {
            let i = choose|i: int| 0 <= i < s.len() && (#[trigger] s[i]).port == p;
            assert(s.drop_first()[i - 1] == s[i]);
        }
        if port_holder(s, p) is Some {
            let l = port_holder(s, p)->Some_0;
            let k = choose|k: int| 0 <= k < s.drop_first().len() && s.drop_first()[k] == l;
            assert(s[k + 1] == l);
        }
    }
    if s.len() > 0 && s[0].port == p {
        assert(s.contains(s[0]));
    }
}

pub proof fn lemma_lease_named_unique(s: Seq<EndpointLease>, i: int)
    requires
        unique_names(s),
        0 <= i < s.len(),
    ensures
        holds_name(s, s[i].name@),
        lease_named(s, s[i].name@) == s[i],
{
    let n = s[i].name@;
    assert(holds_name(s, n));
    let j = choose|j: int| 0 <= j < s.len() && (#[trigger] s[j]).name@ == n;
    assert(s[j].name@ == s[i].name@);
}

impl EndpointLease {
    pub fn url(&self) -> (r: String)
        ensures
            r@ == endpoint_url(self.name@, self.port),
    {
        let mut r = String::from_str("http://");
        r.append(self.name.as_str());
        r.append(".localhost:");
        push_decimal(&mut r, self.port as u64);
        r
    }

    /// A copy with equal fields.
    pub fn duplicate(&self) -> (r: EndpointLease)
        ensures
            r == *self,
    {
        EndpointLease { name: self.name.clone(), owner: self.owner.clone(), port: self.port }
    }
}

impl EndpointClaimResult {
    /// The lease of a `Claimed` result.
    pub fn unwrap_claimed(self) -> (r: EndpointLease)
        requires
            self is Claimed,
        ensures
            self == EndpointClaimResult::Claimed(r),
    {
        match self {
            EndpointClaimResult::Claimed(lease) => lease,
            _ => {
                proof {
                    assert(false);
                }
                EndpointLease { name: String::new(), owner: String::new(), port: 0 }
            },
        }
    }
}

impl EndpointError {
    pub fn code(&self) -> (r: &'static str)
        ensures
            self is NotFound ==> r@ == "not_found"@,
            self is NotOwner ==> r@ == "not_owner"@,
    {
        match self {
            EndpointError::NotFound { .. } => "not_found",
            EndpointError::NotOwner { .. } => "not_owner",
        }
    }
}

#[derive(Debug)]
pub struct EndpointRegistry {
    leases: Vec<EndpointLease>,
    port_range: (u16, u16),
    events: Vec<EndpointEvent>,
}

/// What an endpoint claim does to the registry and what it returns.
pub open spec fn endpoint_claim_outcome(
    before: EndpointRegistry,
    name: Seq<char>,
    owner: Seq<char>,
    requested_port: Option<u16>,
    after: EndpointRegistry,
    r: EndpointClaimResult,
) -> bool {
    let s = before.lease_seq();
    let (start, end) = before.range();
    let requested = match requested_port {
        Some(p) => p,
        None => start,
    };
    let granted = after.lease_seq().last();
    &&& after.range() == before.range()
    &&& if holds_name(s, name) {
        let existing = lease_named(s, name);
        &&& after.lease_seq() == s
        &&& after.pending_events() == before.pending_events()
        &&& if existing.owner@ == owner {
            r == EndpointClaimResult::Claimed(existing)
        } else {
            r matches EndpointClaimResult::Conflict(c) && c.name@ == name && c.requested_port
                == requested && c.held_by == Some(existing)
        }
    } else if start <= requested <= end && !port_taken(s, requested) {
        &&& after.lease_seq() == s.push(granted)
        &&& granted.name@ == name && granted.owner@ == owner && granted.port == requested
        &&& r == EndpointClaimResult::Claimed(granted)
        &&& after.pending_events() == before.pending_events()
    } else {
        match negotiated_port(s, requested, start, end) {
            Some(p) => {
                &&& after.lease_seq() == s.push(granted)
                &&& granted.name@ == name && granted.owner@ == owner && granted.port == p
                &&& port_holder(s, requested) is Some
                &&& r == EndpointClaimResult::Negotiated {
                    requested_port: requested,
                    assigned: granted,
                    held_by: port_holder(s, requested)->Some_0,
                }
                &&& after.pending_events() == before.pending_events()
            },
            None => {
                &&& after.lease_seq() == s
                &&& (r matches EndpointClaimResult::Conflict(c) && c.name@ == name
                    && c.requested_port == requested && c.held_by == port_holder(s, requested))
                &&& after.pending_events().len() == before.pending_events().len() + 1
                &&& after.pending_events().drop_last() == before.pending_events()
                &&& (after.pending_events().last() matches EndpointEvent::RangeExhausted {
                    name: n,
                    owner: o,
                    requested_port: q,
                    reason,
                } && n@ == name && o@ == owner && q == requested && reason@
                    == "endpoint_range_exhausted"@)
            },
        }
    }
}

impl EndpointRegistry {
    pub open spec fn wf(&self) -> bool {
        &&& unique_names(self.lease_seq())
        &&& self.range().0 <= self.range().1
        &&& unique_ports(self.lease_seq())
        &&& ports_within(self.lease_seq(), self.range().0, self.range().1)
    }

    /// The leases currently held, in the order they were granted.
    pub closed spec fn lease_seq(&self) -> Seq<EndpointLease> {
        self.leases@
    }

    pub closed spec fn range(&self) -> (u16, u16) {
        self.port_range
    }

    pub closed spec fn pending_events(&self) -> Seq<EndpointEvent> {
        self.events@
    }

    /// The leases by name.
    pub open spec fn lease_map(&self) -> Map<Seq<char>, EndpointLease> {
        Map::new(
            |n: Seq<char>| holds_name(self.lease_seq(), n),
            |n: Seq<char>| lease_named(self.lease_seq(), n),
        )
    }

    pub fn with_port_range(start: u16, end: u16) -> (r: EndpointRegistry)
        requires
            start <= end,
        ensures
            r.wf(),
            r.lease_seq() == Seq::<EndpointLease>::empty(),
            r.range() == (start, end),
            r.pending_events() == Seq::<EndpointEvent>::empty(),
    {
        EndpointRegistry { leases: Vec::new(), port_range: (start, end), events: Vec::new() }
    }

    fn find_name(&self, name: &str) -> (r: Option<usize>)
        ensures
            r matches Some(i) ==> i < self.leases@.len() && self.leases@[i as int].name@ == name@,
            r is None ==> !holds_name(self.leases@, name@),
    {
        let mut i: usize = 0;
        while i < self.leases.len()
            invariant
                0 <= i <= self.leases@.len(),
                forall|j: int| 0 <= j < i ==> (#[trigger] self.leases@[j]).name@ != name@,
            decreases self.leases@.len() - i,
        {
            if str_equal(self.leases[i].name.as_str(), name) {
                return Some(i);
            }
            i = i + 1;
        }
        None
    }

    fn lease_for_port(&self, port: u16) -> (r: Option<EndpointLease>)
        ensures
            r == port_holder(self.leases@, port),
    {
        let mut i: usize = 0;
        proof {
            assert(self.leases@.subrange(0, self.leases@.len() as int) =~= self.leases@);
        }
        while i < self.leases.len()
            invariant
                0 <= i <= self.leases@.len(),
                port_holder(self.leases@, port) == port_holder(
                    self.leases@.subrange(i as int, self.leases@.len() as int),
                    port,
                ),
            decreases self.leases@.len() - i,
        {
            proof {
                let rest = self.leases@.subrange(i as int, self.leases@.len() as int);
                assert(rest.drop_first() =~= self.leases@.subrange(
                    i + 1,
                    self.leases@.len() as int,
                ));
            }
            if self.leases[i].port == port {
                return Some(self.leases[i].duplicate());
            }
            i = i + 1;
        }
        None
    }

    fn port_in_range(&self, port: u16) -> (r: bool)
        ensures
            r == (self.port_range.0 <= port <= self.port_range.1),
    {
        let (start, end) = self.port_range;
        start <= port && port <= end
    }

    fn is_port_free(&self, port: u16) -> (r: bool)
        ensures
            r == (self.port_range.0 <= port <= self.port_range.1 && !port_taken(
                self.leases@,
                port,
            )),
    {
        if !self.port_in_range(port) {
            return false;
        }
        let mut i: usize = 0;
        while i < self.leases.len()
            invariant
                0 <= i <= self.leases@.len(),
                forall|j: int| 0 <= j < i ==> (#[trigger] self.leases@[j]).port != port,
            decreases self.leases@.len() - i,
        {
            if self.leases[i].port == port {
                return false;
            }
            i = i + 1;
        }
        true
    }

    /// The first free port in `[lo, hi]`, both inside the range.
    fn first_free_between(&self, lo: u32, hi: u32) -> (r: Option<u16>)
        requires
            self.port_range.0 <= lo,
            hi <= self.port_range.1,
        ensures
            r == first_free(self.leases@, lo as int, hi as int),
    {
        let mut candidate: u32 = lo;
        while candidate <= hi
            invariant
                lo <= candidate,
                self.port_range.0 <= lo,
                hi <= self.port_range.1,
                first_free(self.leases@, lo as int, hi as int) == first_free(
                    self.leases@,
                    candidate as int,
                    hi as int,
                ),
            decreases hi + 1 - candidate,
        {
            if self.is_port_free(candidate as u16) {
                assert(first_free(self.leases@, candidate as int, hi as int) == Some(
                    candidate as u16,
                ));
                return Some(candidate as u16);
            }
            candidate = candidate + 1;
        }
        None
    }

    fn next_available_port_after(&self, requested: u16) -> (r: Option<u16>)
        ensures
            r == negotiated_port(self.leases@, requested, self.port_range.0, self.port_range.1),
    {
        if !self.port_in_range(requested) {
            return None;
        }
        let (start, end) = self.port_range;
        match self.first_free_between(requested as u32 + 1, end as u32) {
            Some(p) => Some(p),
            None => {
                if requested == 0 {
                    assert(first_free(self.leases@, start as int, requested - 1) == None::<u16>);
                    None
                } else {
                    self.first_free_between(start as u32, requested as u32 - 1)
                }
            },
        }
    }

    pub fn claim(&mut self, name: &str, owner: &str, requested_port: Option<u16>) -> (r:
        EndpointClaimResult)
        requires
            old(self).wf(),
        ensures
            final(self).wf(),
            endpoint_claim_outcome(*old(self), name@, owner@, requested_port, *final(self), r),
    {
        let (start, _) = self.port_range;
        let requested: u16 = match requested_port {
            Some(p) => p,
            None => start,
        };
        if let Some(i) = self.find_name(name) {
            let existing = self.leases[i].duplicate();
            proof {
                lemma_lease_named_unique(self.leases@, i as int);
            }
            if str_equal(existing.owner.as_str(), owner) {
                return EndpointClaimResult::Claimed(existing);
            }
            return EndpointClaimResult::Conflict(
                EndpointConflict {
                    name: String::from_str(name),
                    requested_port: requested,
                    held_by: Some(existing),
                },
            );
        }
        if self.is_port_free(requested) {
            let lease = EndpointLease {
                name: String::from_str(name),
                owner: String::from_str(owner),
                port: requested,
            };
            self.push_new(lease.duplicate());
            return EndpointClaimResult::Claimed(lease);
        }
        if let Some(assigned_port) = self.next_available_port_after(requested) {
            let lease = EndpointLease {
                name: String::from_str(name),
                owner: String::from_str(owner),
                port: assigned_port,
            };
            let held = self.lease_for_port(requested);
            proof {
                lemma_port_holder(self.leases@, requested);
                lemma_first_free(self.leases@, requested + 1, self.port_range.1 as int);
                lemma_first_free(self.leases@, self.port_range.0 as int, requested - 1);
            }
            let held_by = match held {
                Some(l) => l,
                None => {
                    proof {
                        assert(false);
                    }
                    EndpointLease { name: String::new(), owner: String::new(), port: 0 }
                },
            };
            self.push_new(lease.duplicate());
            return EndpointClaimResult::Negotiated { requested_port: requested, assigned: lease, held_by };
        }
        let ghost old_events = self.events@;
        self.events.push(
            EndpointEvent::RangeExhausted {
                name: String::from_str(name),
                owner: String::from_str(owner),
                requested_port: requested,
                reason: "endpoint_range_exhausted",
            },
        );
        proof {
            assert(self.events@.drop_last() =~= old_events);
        }
        EndpointClaimResult::Conflict(
            EndpointConflict {
                name: String::from_str(name),
                requested_port: requested,
                held_by: self.lease_for_port(requested),
            },
        )
    }

    /// Adds a lease under a name that no lease holds yet.
    fn push_new(&mut self, lease: EndpointLease)
        requires
            unique_names(old(self).leases@),
            !holds_name(old(self).leases@, lease.name@),
            unique_ports(old(self).leases@),
            ports_within(old(self).leases@, old(self).port_range.0, old(self).port_range.1),
            !port_taken(old(self).leases@, lease.port),
            old(self).port_range.0 <= lease.port <= old(self).port_range.1,
        ensures
            final(self).leases@ == old(self).leases@.push(lease),
            final(self).port_range == old(self).port_range,
            final(self).events == old(self).events,
            unique_names(final(self).leases@),
            unique_ports(final(self).leases@),
            ports_within(final(self).leases@, final(self).port_range.0, final(self).port_range.1),
    {
        let ghost before = self.leases@;
        self.leases.push(lease);
        proof {
            let after = self.leases@;
            assert forall|a: int, b: int|
                0 <= a < after.len() && 0 <= b < after.len() && a != b implies (
            #[trigger] after[a]).name@ != (#[trigger] after[b]).name@ by {
                if a < before.len() && b < before.len() {
                    assert(before[a] == after[a]);
                    assert(before[b] == after[b]);
                } else if a == before.len() {
                    assert(before[b] == after[b]);
                } else {
                    assert(before[a] == after[a]);
                }
            }
            assert forall|a: int, b: int|
                0 <= a < after.len() && 0 <= b < after.len() && a != b implies (
            #[trigger] after[a]).port != (#[trigger] after[b]).port by {
                if a < before.len() && b < before.len() {
                    assert(before[a] == after[a]);
                    assert(before[b] == after[b]);
                } else if a == before.len() {
                    assert(before[b] == after[b]);
                } else {
                    assert(before[a] == after[a]);
                }
            }
            assert forall|k: int| 0 <= k < after.len() implies self.port_range.0 <= (#[trigger] after[k]).port <= self.port_range.1 by {
                if k < before.len() {
                    assert(before[k] == after[k]);
                }
            }
        }
    }
}

/// Leases in ascending name order.
pub open spec fn sorted_by_name(s: Seq<EndpointLease>) -> bool {
    forall|i: int, j: int| 0 <= i < j < s.len() ==> lex_le((#[trigger] s[i]).name@, (#[trigger] s[j]).name@)
}

impl EndpointRegistry {
    pub fn release(&mut self, name: &str, owner: &str) -> (r: Result<EndpointLease, EndpointError>)
        requires
            old(self).wf(),
        ensures
            final(self).wf(),
            final(self).range() == old(self).range(),
            final(self).pending_events() == old(self).pending_events(),
            !old(self).lease_map().contains_key(name@) ==> *final(self) == *old(self) && (
            r matches Err(EndpointError::NotFound { name: n }) && n@ == name@),
            old(self).lease_map().contains_key(name@) && old(self).lease_map()[name@].owner@
                != owner@ ==> *final(self) == *old(self) && (r matches Err(
                EndpointError::NotOwner { name: n, expected_owner, attempted_by },
            ) && n@ == name@ && expected_owner == old(self).lease_map()[name@].owner
                && attempted_by@ == owner@),
            old(self).lease_map().contains_key(name@) && old(self).lease_map()[name@].owner@
                == owner@ ==> r == Ok::<EndpointLease, EndpointError>(old(self).lease_map()[name@])
                && final(self).lease_map() == old(self).lease_map().remove(name@)
                && final(self).lease_seq().to_multiset() == old(self).lease_seq().to_multiset().remove(old(self).lease_map()[name@]),
    {
        let i = match self.find_name(name) {
            Some(i) => i,
            None => {
                return Err(EndpointError::NotFound { name: String::from_str(name) });
            },
        };
        proof {
            lemma_lease_named_unique(self.leases@, i as int);
        }
        if !str_equal(self.leases[i].owner.as_str(), owner) {
            return Err(
                EndpointError::NotOwner {
                    name: String::from_str(name),
                    expected_owner: self.leases[i].owner.clone(),
                    attempted_by: String::from_str(owner),
                },
            );
        }
        let ghost before = self.leases@;
        let lease = self.leases.remove(i);
        proof {
            let after = self.leases@;
            let n = name@;
            assert(after =~= before.remove(i as int));
            vstd::seq_lib::to_multiset_remove(before, i as int);
            assert forall|a: int, b: int|
                0 <= a < after.len() && 0 <= b < after.len() && a != b implies (
            #[trigger] after[a]).name@ != (#[trigger] after[b]).name@ by {
                let a0 = if a < i { a } else { a + 1 };
                let b0 = if b < i { b } else { b + 1 };
                assert(after[a] == before[a0]);
                assert(after[b] == before[b0]);
            }
            assert forall|k: Seq<char>|
                #![trigger holds_name(after, k)]
                holds_name(after, k) == (holds_name(before, k) && k != n) by {
                if holds_name(after, k) {
                    let a = choose|a: int| 0 <= a < after.len() && (#[trigger] after[a]).name@ == k;
                    let a0 = if a < i { a } else { a + 1 };
                    assert(after[a] == before[a0]);
                }
                if holds_name(before, k) && k != n {
                    let b = choose|b: int| 0 <= b < before.len() && (#[trigger] before[b]).name@ == k;
                    assert(b != i);
                    let b1 = if b < i { b } else { b - 1 };
                    assert(after[b1] == before[b]);
                }
            }
            assert forall|k: Seq<char>| holds_name(after, k) implies lease_named(after, k) == lease_named(before, k) by {
                let a = choose|a: int| 0 <= a < after.len() && (#[trigger] after[a]).name@ == k;
                let a0 = if a < i { a } else { a + 1 };
                assert(after[a] == before[a0]);
                lemma_lease_named_unique(after, a);
                lemma_lease_named_unique(before, a0);
            }
            assert forall|a: int, b: int|
                0 <= a < after.len() && 0 <= b < after.len() && a != b implies (
            #[trigger] after[a]).port != (#[trigger] after[b]).port by {
                let a0 = if a < i { a } else { a + 1 };
                let b0 = if b < i { b } else { b + 1 };
                assert(after[a] == before[a0]);
                assert(after[b] == before[b0]);
            }
            assert forall|k: int| 0 <= k < after.len() implies self.port_range.0 <= (#[trigger] after[k]).port <= self.port_range.1 by {
                let k0 = if k < i { k } else { k + 1 };
                assert(after[k] == before[k0]);
            }
            assert(self.lease_map() =~= old(self).lease_map().remove(n));
        }
        Ok(lease)
    }

    /// The leases in ascending name order.
    pub fn list(&self) -> (r: Vec<EndpointLease>)
        ensures
            r@.to_multiset() == self.lease_seq().to_multiset(),
            sorted_by_name(r@),
            unique_names(self.lease_seq()) ==> unique_names(r@),
            self.wf() ==> clean_leases(r@, self.range().0, self.range().1),
    {
        broadcast use vstd::seq_lib::group_to_multiset_ensures;

        let mut out: Vec<EndpointLease> = Vec::new();
        let mut i: usize = 0;
        proof {
            assert(self.leases@.subrange(0, 0) =~= Seq::<EndpointLease>::empty());
            assert(out@ =~= Seq::<EndpointLease>::empty());
        }
        while i < self.leases.len()
            invariant
                0 <= i <= self.leases@.len(),
                out@.to_multiset() == self.leases@.subrange(0, i as int).to_multiset(),
                sorted_by_name(out@),
                unique_names(self.leases@) ==> unique_names(out@),
                unique_ports(self.leases@) ==> unique_ports(out@),
                ports_within(self.leases@, self.port_range.0, self.port_range.1) ==> ports_within(
                    out@,
                    self.port_range.0,
                    self.port_range.1,
                ),
            decreases self.leases@.len() - i,
        {
            let lease = self.leases[i].duplicate();
            let mut pos: usize = 0;
            while pos < out.len() && str_le(out[pos].name.as_str(), lease.name.as_str())
                invariant
                    0 <= pos <= out@.len(),
                    forall|k: int| 0 <= k < pos ==> lex_le((#[trigger] out@[k]).name@, lease.name@),
                decreases out@.len() - pos,
            {
                pos = pos + 1;
            }
            let ghost before = out@;
            proof {
                if pos < before.len() {
                    lemma_lex_total(before[pos as int].name@, lease.name@);
                    assert forall|k: int| pos <= k < before.len() implies lex_le(lease.name@, (#[trigger] before[k]).name@) by {
                        if k > pos {
                            lemma_lex_trans(lease.name@, before[pos as int].name@, before[k].name@);
                        }
                    }
                }
            }
            out.insert(pos, lease);
            proof {
                let after = out@;
                assert(after =~= before.insert(pos as int, self.leases@[i as int]));
                to_multiset_insert(before, pos as int, self.leases@[i as int]);
                let prefix = self.leases@.subrange(0, i as int);
                assert(self.leases@.subrange(0, i + 1) =~= prefix.push(self.leases@[i as int]));
                vstd::seq_lib::to_multiset_build(prefix, self.leases@[i as int]);
                assert(after.to_multiset() == self.leases@.subrange(0, i + 1).to_multiset());
                if ports_within(self.leases@, self.port_range.0, self.port_range.1) {
                    assert forall|k: int| 0 <= k < after.len() implies self.port_range.0 <= (#[trigger] after[k]).port <= self.port_range.1 by {
                        if k < pos {
                            assert(after[k] == before[k]);
                        } else if k > pos {
                            assert(after[k] == before[k - 1]);
                        }
                    }
                }
                if unique_ports(self.leases@) {
                    let x = self.leases@[i as int];
                    assert forall|c: int| 0 <= c < before.len() implies (#[trigger] before[c]).port != x.port by {
                        assert(before.contains(before[c]));
                        vstd::seq_lib::to_multiset_contains(before, before[c]);
                        vstd::seq_lib::to_multiset_contains(prefix, before[c]);
                        assert(prefix.contains(before[c]));
                        let d = choose|d: int| 0 <= d < prefix.len() && prefix[d] == before[c];
                        assert(self.leases@[d] == prefix[d]);
                    }
                    assert forall|a: int, b: int|
                        0 <= a < after.len() && 0 <= b < after.len() && a != b implies (
                    #[trigger] after[a]).port != (#[trigger] after[b]).port by {
                        let a0 = if a < pos { a } else { a - 1 };
                        let b0 = if b < pos { b } else { b - 1 };
                        if a != pos as int && b != pos as int {
                            assert(after[a] == before[a0] && after[b] == before[b0]);
                        } else if a == pos as int {
                            assert(after[b] == before[b0]);
                        } else {
                            assert(after[a] == before[a0]);
                        }
                    }
                }
                if unique_names(self.leases@) {
                    let x = self.leases@[i as int];
                    assert forall|c: int| 0 <= c < before.len() implies (#[trigger] before[c]).name@ != x.name@ by {
                        assert(before.contains(before[c]));
                        vstd::seq_lib::to_multiset_contains(before, before[c]);
                        vstd::seq_lib::to_multiset_contains(prefix, before[c]);
                        assert(prefix.contains(before[c]));
                        let d = choose|d: int| 0 <= d < prefix.len() && prefix[d] == before[c];
                        assert(self.leases@[d] == prefix[d]);
                    }
                    assert forall|a: int, b: int|
                        0 <= a < after.len() && 0 <= b < after.len() && a != b implies (
                    #[trigger] after[a]).name@ != (#[trigger] after[b]).name@ by {
                        let a0 = if a < pos { a } else { a - 1 };
                        let b0 = if b < pos { b } else { b - 1 };
                        if a != pos as int && b != pos as int {
                            assert(after[a] == before[a0] && after[b] == before[b0]);
                        } else if a == pos as int {
                            assert(after[b] == before[b0]);
                        } else {
                            assert(after[a] == before[a0]);
                        }
                    }
                }
                assert forall|a: int, b: int| 0 <= a < b < after.len() implies lex_le((#[trigger] after[a]).name@, (#[trigger] after[b]).name@) by {
                    if b < pos {
                        assert(after[a] == before[a] && after[b] == before[b]);
                    } else if b == pos {
                        assert(after[a] == before[a]);
                    } else if a < pos {
                        assert(after[a] == before[a] && after[b] == before[b - 1]);
                        lemma_lex_trans(before[a].name@, self.leases@[i as int].name@, before[b - 1].name@);
                    } else if a == pos {
                        assert(after[b] == before[b - 1]);
                    } else {
                        assert(after[a] == before[a - 1] && after[b] == before[b - 1]);
                    }
                }
            }
            i = i + 1;
        }
        proof {
            assert(self.leases@.subrange(0, self.leases@.len() as int) =~= self.leases@);
        }
        out
    }

    /// Hands out the exhaustion events raised since the last call, oldest first.
    pub fn drain_events(&mut self) -> (r: Vec<EndpointEvent>)
        ensures
            r@ == old(self).pending_events(),
            final(self).pending_events() == Seq::<EndpointEvent>::empty(),
            final(self).lease_seq() == old(self).lease_seq(),
            final(self).range() == old(self).range(),
    {
        let mut taken = Vec::new();
        std::mem::swap(&mut taken, &mut self.events);
        taken
    }

    /// The leases in ascending name order, for persistence.
    pub fn export_leases(&self) -> (r: Vec<EndpointLease>)
        ensures
            r@.to_multiset() == self.lease_seq().to_multiset(),
            sorted_by_name(r@),
            unique_names(self.lease_seq()) ==> unique_names(r@),
            self.wf() ==> clean_leases(r@, self.range().0, self.range().1),
    {
        self.list()
    }

    /// Whether `port` is free among the held leases, apart from position
    /// `except` (the lease that would be replaced).
    fn port_free_except(&self, port: u16, except: Option<usize>) -> (r: bool)
        ensures
            r == forall|k: int|
                0 <= k < self.leases@.len() && !(except matches Some(j) && k == j as int)
                    ==> (#[trigger] self.leases@[k]).port != port,
    {
        let mut i: usize = 0;
        while i < self.leases.len()
            invariant
                0 <= i <= self.leases@.len(),
                forall|k: int|
                    0 <= k < i && !(except matches Some(j) && k == j as int) ==> (
                    #[trigger] self.leases@[k]).port != port,
            decreases self.leases@.len() - i,
        {
            let skip = match except {
                Some(j) => j == i,
                None => false,
            };
            if !skip && self.leases[i].port == port {
                return false;
            }
            i = i + 1;
        }
        true
    }

    /// Replaces the held leases. A lease is taken in order when its port lies
    /// in the range and no other held name has that port; of several leases
    /// with one name the last taken wins.
    pub fn import_leases(&mut self, leases: Vec<EndpointLease>)
        requires
            old(self).wf(),
        ensures
            endpoint_import_outcome(*old(self), leases@, *final(self)),
    {
        self.leases = Vec::new();
        let mut i: usize = 0;
        while i < leases.len()
            invariant
                0 <= i <= leases@.len(),
                self.port_range == old(self).port_range,
                self.events == old(self).events,
                self.port_range.0 <= self.port_range.1,
                unique_names(self.leases@),
                unique_ports(self.leases@),
                ports_within(self.leases@, self.port_range.0, self.port_range.1),
                forall|n: Seq<char>| #[trigger] holds_name(self.leases@, n) ==> holds_name(
                    leases@.subrange(0, i as int),
                    n,
                ),
                clean_leases(leases@, self.port_range.0, self.port_range.1) ==> self.leases@
                    == leases@.subrange(0, i as int),
            decreases leases@.len() - i,
        {
            let lease = leases[i].duplicate();
            let ghost before = self.leases@;
            let ghost prefix = leases@.subrange(0, i as int);
            let ghost next = leases@.subrange(0, i + 1);
            assert(next =~= prefix.push(leases@[i as int]));
            proof {
                assert forall|n: Seq<char>| #[trigger] holds_name(prefix, n) implies holds_name(next, n) by {
                    let c = choose|c: int| 0 <= c < prefix.len() && (#[trigger] prefix[c]).name@ == n;
                    assert(next[c] == prefix[c]);
                }
                assert(next[i as int] == lease);
                assert(holds_name(next, lease.name@));
            }
            let (start, end) = self.port_range;
            if start <= lease.port && lease.port <= end {
                let found = self.find_name(lease.name.as_str());
                if self.port_free_except(lease.port, found) {
                    match found {
                        Some(j) => {
                            proof {
                                if clean_leases(leases@, start, end) {
                                    let b = j as int;
                                    assert(prefix[b] == leases@[b]);
                                    assert(false);
                                }
                            }
                            self.leases.set(j, lease);
                            proof {
                                let after = self.leases@;
                                assert forall|a: int, b: int|
                                    0 <= a < after.len() && 0 <= b < after.len() && a != b implies (
                                #[trigger] after[a]).name@ != (#[trigger] after[b]).name@ by {
                                    assert(before[a].name@ == after[a].name@);
                                    assert(before[b].name@ == after[b].name@);
                                }
                                assert forall|a: int, b: int|
                                    0 <= a < after.len() && 0 <= b < after.len() && a != b implies (
                                #[trigger] after[a]).port != (#[trigger] after[b]).port by {
                                    if a != j && b != j {
                                        assert(before[a] == after[a] && before[b] == after[b]);
                                    } else if a == j {
                                        assert(before[b] == after[b]);
                                    } else {
                                        assert(before[a] == after[a]);
                                    }
                                }
                                assert forall|k: int| 0 <= k < after.len() implies start <= (#[trigger] after[k]).port <= end by {
                                    if k != j {
                                        assert(before[k] == after[k]);
                                    }
                                }
                                assert forall|n: Seq<char>| #[trigger] holds_name(after, n) implies holds_name(next, n) by {
                                    let a = choose|a: int| 0 <= a < after.len() && (#[trigger] after[a]).name@ == n;
                                    assert(before[a].name@ == n);
                                    assert(holds_name(before, n));
                                    assert(holds_name(prefix, n));
                                }
                            }
                        },
                        None => {
                            proof {
                                assert(!port_taken(before, lease.port)) by {
                                    if port_taken(before, lease.port) {
                                        let k = choose|k: int| 0 <= k < before.len() && (#[trigger] before[k]).port == lease.port;
                                    }
                                }
                            }
                            self.leases.push(lease);
                            proof {
                                let after = self.leases@;
                                assert forall|a: int, b: int|
                                    0 <= a < after.len() && 0 <= b < after.len() && a != b implies (
                                #[trigger] after[a]).name@ != (#[trigger] after[b]).name@ by {
                                    if a < before.len() && b < before.len() {
                                        assert(before[a] == after[a] && before[b] == after[b]);
                                    } else if a == before.len() {
                                        assert(before[b] == after[b]);
                                    } else {
                                        assert(before[a] == after[a]);
                                    }
                                }
                                assert forall|a: int, b: int|
                                    0 <= a < after.len() && 0 <= b < after.len() && a != b implies (
                                #[trigger] after[a]).port != (#[trigger] after[b]).port by {
                                    if a < before.len() && b < before.len() {
                                        assert(before[a] == after[a] && before[b] == after[b]);
                                    } else if a == before.len() {
                                        assert(before[b] == after[b]);
                                    } else {
                                        assert(before[a] == after[a]);
                                    }
                                }
                                assert forall|k: int| 0 <= k < after.len() implies start <= (#[trigger] after[k]).port <= end by {
                                    if k < before.len() {
                                        assert(before[k] == after[k]);
                                    }
                                }
                                assert forall|n: Seq<char>| #[trigger] holds_name(after, n) implies holds_name(next, n) by {
                                    let a = choose|a: int| 0 <= a < after.len() && (#[trigger] after[a]).name@ == n;
                                    if a < before.len() {
                                        assert(before[a] == after[a]);
                                        assert(holds_name(before, n));
                                    }
                                }
                                if clean_leases(leases@, start, end) {
                                    assert(after =~= next);
                                }
                            }
                        },
                    }
                } else {
                    proof {
                        if clean_leases(leases@, start, end) {
                            let k = choose|k: int|
                                0 <= k < before.len() && !(found matches Some(j) && k == j as int)
                                    && (#[trigger] before[k]).port == lease.port;
                            assert(prefix[k] == leases@[k]);
                            assert(false);
                        }
                    }
                }
            } else {
                proof {
                    if clean_leases(leases@, start, end) {
                        assert(false);
                    }
                }
            }
            i = i + 1;
        }
        proof {
            assert(leases@.subrange(0, leases@.len() as int) =~= leases@);
        }
    }
}

impl Default for EndpointRegistry {
    fn default() -> (r: EndpointRegistry)
        ensures
            r.wf(),
            r.lease_seq() == Seq::<EndpointLease>::empty(),
            r.range() == (4100u16, 4999u16),
            r.pending_events() == Seq::<EndpointEvent>::empty(),
    {
        EndpointRegistry::with_port_range(4100, 4999)
    }
}

/// What importing `leases` into `before` leaves in `after`.
pub open spec fn endpoint_import_outcome(
    before: EndpointRegistry,
    leases: Seq<EndpointLease>,
    after: EndpointRegistry,
) -> bool {
    &&& after.wf()
    &&& after.range() == before.range()
    &&& after.pending_events() == before.pending_events()
    &&& forall|n: Seq<char>| #[trigger] holds_name(after.lease_seq(), n) ==> holds_name(leases, n)
    &&& clean_leases(leases, before.range().0, before.range().1) ==> after.lease_seq() == leases
}

/// Leases that can all be held at once in `[start, end]`.
pub open spec fn clean_leases(s: Seq<EndpointLease>, start: u16, end: u16) -> bool {
    unique_names(s) && unique_ports(s) && ports_within(s, start, end)
}

/// A claim preserves that leases hold distinct ports inside the range.
pub proof fn lemma_endpoint_claim_keeps_ports(
    before: EndpointRegistry,
    name: Seq<char>,
    owner: Seq<char>,
    requested_port: Option<u16>,
    after: EndpointRegistry,
    r: EndpointClaimResult,
)
    requires
        before.wf(),
        endpoint_claim_outcome(before, name, owner, requested_port, after, r),
        unique_ports(before.lease_seq()),
        ports_within(before.lease_seq(), before.range().0, before.range().1),
    ensures
        unique_ports(after.lease_seq()),
        ports_within(after.lease_seq(), after.range().0, after.range().1),
{
    let s = before.lease_seq();
    let t = after.lease_seq();
    let (start, end) = before.range();
    let requested = match requested_port {
        Some(p) => p,
        None => start,
    };
    if !holds_name(s, name) && !(start <= requested <= end && !port_taken(s, requested)) {
        if start <= requested <= end {
            lemma_first_free(s, requested + 1, end as int);
            lemma_first_free(s, start as int, requested - 1);
        }
    }
    if t.len() == s.len() + 1 {
        assert forall|a: int, b: int|
            0 <= a < t.len() && 0 <= b < t.len() && a != b implies (#[trigger] t[a]).port != (
        #[trigger] t[b]).port by {
            if a < s.len() && b < s.len() {
                assert(t[a] == s[a] && t[b] == s[b]);
            } else if a == s.len() {
                assert(t[b] == s[b]);
            } else {
                assert(t[a] == s[a]);
            }
        }
        assert forall|i: int| 0 <= i < t.len() implies start <= (#[trigger] t[i]).port <= end by {
            if i < s.len() {
                assert(t[i] == s[i]);
            }
        }
    }
}

/// Claiming a name a second time for the same owner returns the lease the
/// first claim granted.
pub proof fn lemma_endpoint_reclaim_is_idempotent(
    r0: EndpointRegistry,
    name: Seq<char>,
    owner: Seq<char>,
    first_port: Option<u16>,
    r1: EndpointRegistry,
    first: EndpointClaimResult,
    second_port: Option<u16>,
    r2: EndpointRegistry,
    second: EndpointClaimResult,
)
    requires
        r0.wf(),
        r1.wf(),
        endpoint_claim_outcome(r0, name, owner, first_port, r1, first),
        !(first is Conflict),
        endpoint_claim_outcome(r1, name, owner, second_port, r2, second),
    ensures
        second == EndpointClaimResult::Claimed(
            match first {
                EndpointClaimResult::Claimed(l) => l,
                EndpointClaimResult::Negotiated { assigned, .. } => assigned,
                EndpointClaimResult::Conflict(c) => lease_named(r1.lease_seq(), name),
            },
        ),
        r2.lease_seq() == r1.lease_seq(),
{
    let s = r0.lease_seq();
    let t = r1.lease_seq();
    if holds_name(s, name) {
    } else {
        let k = t.len() - 1;
        lemma_lease_named_unique(t, k);
    }
}

/// Exporting the leases of one registry and importing them into a fresh one
/// reproduces the same leases.
pub proof fn lemma_endpoint_export_import(
    source: EndpointRegistry,
    exported: Seq<EndpointLease>,
    fresh: EndpointRegistry,
    restored: EndpointRegistry,
)
    requires
        source.wf(),
        exported.to_multiset() == source.lease_seq().to_multiset(),
        clean_leases(exported, source.range().0, source.range().1),
        fresh.wf(),
        fresh.range() == source.range(),
        fresh.lease_seq() == Seq::<EndpointLease>::empty(),
        endpoint_import_outcome(fresh, exported, restored),
    ensures
        restored.lease_seq().to_multiset() == source.lease_seq().to_multiset(),
        restored.lease_seq() == exported,
{
}

/// What an endpoint lease is made of, with the texts as views.
pub open spec fn endpoint_view(l: EndpointLease) -> (Seq<char>, Seq<char>, u16) {
    (l.name@, l.owner@, l.port)
}

pub open spec fn endpoint_views(s: Seq<EndpointLease>) -> Seq<(Seq<char>, Seq<char>, u16)> {
    s.map_values(|l: EndpointLease| endpoint_view(l))
}

/// The port a claim ended up holding for the requester, if any.
pub open spec fn granted_endpoint_port(r: EndpointClaimResult) -> Option<u16> {
    match r {
        EndpointClaimResult::Claimed(l) => Some(l.port),
        EndpointClaimResult::Negotiated { assigned, .. } => Some(assigned.port),
        EndpointClaimResult::Conflict(_) => None,
    }
}

proof fn lemma_same_views_same_lookups(s1: Seq<EndpointLease>, s2: Seq<EndpointLease>, n: Seq<char>, p: u16)
    requires
        endpoint_views(s1) == endpoint_views(s2),
    ensures
        holds_name(s1, n) == holds_name(s2, n),
        port_taken(s1, p) == port_taken(s2, p),
{
    assert(s1.len() == endpoint_views(s1).len());
    assert(s2.len() == endpoint_views(s2).len());
    if holds_name(s1, n) {
        let i = choose|i: int| 0 <= i < s1.len() && (#[trigger] s1[i]).name@ == n;
        assert(endpoint_views(s1)[i] == endpoint_views(s2)[i]);
        assert(s2[i].name@ == n);
    }
    if holds_name(s2, n) {
        let i = choose|i: int| 0 <= i < s2.len() && (#[trigger] s2[i]).name@ == n;
        assert(endpoint_views(s1)[i] == endpoint_views(s2)[i]);
        assert(s1[i].name@ == n);
    }
    if port_taken(s1, p) {
        let i = choose|i: int| 0 <= i < s1.len() && (#[trigger] s1[i]).port == p;
        assert(endpoint_views(s1)[i] == endpoint_views(s2)[i]);
        assert(s2[i].port == p);
    }
    if port_taken(s2, p) {
        let i = choose|i: int| 0 <= i < s2.len() && (#[trigger] s2[i]).port == p;
        assert(endpoint_views(s1)[i] == endpoint_views(s2)[i]);
        assert(s1[i].port == p);
    }
}

proof fn lemma_same_views_same_first_free(s1: Seq<EndpointLease>, s2: Seq<EndpointLease>, lo: int, hi: int)
    requires
        endpoint_views(s1) == endpoint_views(s2),
    ensures
        first_free(s1, lo, hi) == first_free(s2, lo, hi),
    decreases hi + 1 - lo,
{
    if lo > hi || lo < 0 || lo > u16::MAX {
    } else {
        lemma_same_views_same_lookups(s1, s2, Seq::empty(), lo as u16);
        lemma_same_views_same_first_free(s1, s2, lo + 1, hi);
    }
}

/// Two registries that hold the same leases (as views) and range answer the
/// same claim with the same port and end with the same leases.
pub proof fn lemma_endpoint_claim_deterministic(
    b1: EndpointRegistry,
    b2: EndpointRegistry,
    name: Seq<char>,
    owner: Seq<char>,
    requested_port: Option<u16>,
    a1: EndpointRegistry,
    r1: EndpointClaimResult,
    a2: EndpointRegistry,
    r2: EndpointClaimResult,
)
    requires
        b1.wf(),
        b2.wf(),
        endpoint_views(b1.lease_seq()) == endpoint_views(b2.lease_seq()),
        b1.range() == b2.range(),
        endpoint_claim_outcome(b1, name, owner, requested_port, a1, r1),
        endpoint_claim_outcome(b2, name, owner, requested_port, a2, r2),
    ensures
        granted_endpoint_port(r1) == granted_endpoint_port(r2),
        endpoint_views(a1.lease_seq()) == endpoint_views(a2.lease_seq()),
        a1.range() == a2.range(),
{
    let s1 = b1.lease_seq();
    let s2 = b2.lease_seq();
    let (start, end) = b1.range();
    let requested = match requested_port {
        Some(p) => p,
        None => start,
    };
    lemma_same_views_same_lookups(s1, s2, name, requested);
    if start <= requested <= end {
        lemma_same_views_same_first_free(s1, s2, requested + 1, end as int);
        lemma_same_views_same_first_free(s1, s2, start as int, requested - 1);
    }
    assert(s1.len() == endpoint_views(s1).len());
    if holds_name(s1, name) {
        let i = choose|i: int| 0 <= i < s1.len() && (#[trigger] s1[i]).name@ == name;
        lemma_lease_named_unique(s1, i);
        assert(endpoint_views(s1)[i] == endpoint_views(s2)[i]);
        lemma_lease_named_unique(s2, i);
        assert(s2[i].name@ == name);
    }
    let t1 = a1.lease_seq();
    let t2 = a2.lease_seq();
    if t1.len() == s1.len() + 1 {
        assert(endpoint_views(t1) =~= endpoint_views(s1).push(endpoint_view(t1.last())));
        assert(endpoint_views(t2) =~= endpoint_views(s2).push(endpoint_view(t2.last())));
    }
}

/// A fixed sequence of claims made against registries that start out with
/// the same leases and range grants the same ports, claim by claim.
pub proof fn lemma_endpoint_claim_sequence_deterministic(
    requests: Seq<(Seq<char>, Seq<char>, Option<u16>)>,
    states1: Seq<EndpointRegistry>,
    results1: Seq<EndpointClaimResult>,
    states2: Seq<EndpointRegistry>,
    results2: Seq<EndpointClaimResult>,
)
    requires
        states1.len() == requests.len() + 1,
        states2.len() == requests.len() + 1,
        results1.len() == requests.len(),
        results2.len() == requests.len(),
        states1[0].wf(),
        states2[0].wf(),
        endpoint_views(states1[0].lease_seq()) == endpoint_views(states2[0].lease_seq()),
        states1[0].range() == states2[0].range(),
        forall|i: int|
            0 <= i < requests.len() ==> endpoint_claim_outcome(
                states1[i],
                requests[i].0,
                requests[i].1,
                requests[i].2,
                states1[i + 1],
                #[trigger] results1[i],
            ) && states1[i + 1].wf(),
        forall|i: int|
            0 <= i < requests.len() ==> endpoint_claim_outcome(
                states2[i],
                requests[i].0,
                requests[i].1,
                requests[i].2,
                states2[i + 1],
                #[trigger] results2[i],
            ) && states2[i + 1].wf(),
    ensures
        forall|i: int| 0 <= i < requests.len() ==> granted_endpoint_port(#[trigger] results1[i]) == granted_endpoint_port(results2[i]),
        endpoint_views(states1.last().lease_seq()) == endpoint_views(states2.last().lease_seq()),
    decreases requests.len(),
{
    let n = requests.len() as int;
    if n > 0 {
        let p = requests.drop_last();
        let s1 = states1.drop_last();
        let s2 = states2.drop_last();
        let q1 = results1.drop_last();
        let q2 = results2.drop_last();
        assert forall|i: int| 0 <= i < p.len() implies endpoint_claim_outcome(
            s1[i],
            p[i].0,
            p[i].1,
            p[i].2,
            s1[i + 1],
            #[trigger] q1[i],
        ) && s1[i + 1].wf() by {
            assert(q1[i] == results1[i]);
            assert(endpoint_claim_outcome(states1[i], requests[i].0, requests[i].1, requests[i].2, states1[i + 1], results1[i]) && states1[i + 1].wf());
        }
        assert forall|i: int| 0 <= i < p.len() implies endpoint_claim_outcome(
            s2[i],
            p[i].0,
            p[i].1,
            p[i].2,
            s2[i + 1],
            #[trigger] q2[i],
        ) && s2[i + 1].wf() by {
            assert(q2[i] == results2[i]);
            assert(endpoint_claim_outcome(states2[i], requests[i].0, requests[i].1, requests[i].2, states2[i + 1], results2[i]) && states2[i + 1].wf());
        }
        lemma_endpoint_claim_sequence_deterministic(p, s1, q1, s2, q2);
        let last = n - 1;
        assert(endpoint_claim_outcome(states1[last], requests[last].0, requests[last].1, requests[last].2, states1[n], results1[last]) && states1[n].wf());
        assert(endpoint_claim_outcome(states2[last], requests[last].0, requests[last].1, requests[last].2, states2[n], results2[last]) && states2[n].wf());
        assert(s1.last() == states1[last]);
        assert(s2.last() == states2[last]);
        if last > 0 {
            let j = last - 1;
            assert(0 <= j < requests.len());
            assert(endpoint_claim_outcome(states1[j], requests[j].0, requests[j].1, requests[j].2, states1[j + 1], results1[j]));
            assert(endpoint_claim_outcome(states2[j], requests[j].0, requests[j].1, requests[j].2, states2[j + 1], results2[j]));
            assert(states1[j + 1].wf());
            assert(states2[j + 1].wf());
            assert(j + 1 == last);
            assert(states1[last].range() == states2[last].range()) by {
                lemma_endpoint_ranges_kept(requests, states1, results1, last);
                lemma_endpoint_ranges_kept(requests, states2, results2, last);
            }
        }
        lemma_endpoint_claim_deterministic(
            states1[last],
            states2[last],
            requests[last].0,
            requests[last].1,
            requests[last].2,
            states1[n],
            results1[last],
            states2[n],
            results2[last],
        );
        assert forall|i: int| 0 <= i < requests.len() implies granted_endpoint_port(#[trigger] results1[i]) == granted_endpoint_port(results2[i]) by {
            if i < last {
                assert(q1[i] == results1[i] && q2[i] == results2[i]);
            }
        }
    }
}

proof fn lemma_endpoint_ranges_kept(
    requests: Seq<(Seq<char>, Seq<char>, Option<u16>)>,
    states: Seq<EndpointRegistry>,
    results: Seq<EndpointClaimResult>,
    k: int,
)
    requires
        states.len() == requests.len() + 1,
        results.len() == requests.len(),
        0 <= k <= requests.len(),
        forall|i: int|
            0 <= i < requests.len() ==> endpoint_claim_outcome(
                states[i],
                requests[i].0,
                requests[i].1,
                requests[i].2,
                states[i + 1],
                #[trigger] results[i],
            ),
    ensures
        states[k].range() == states[0].range(),
    decreases k,
{
    if k > 0 {
        lemma_endpoint_ranges_kept(requests, states, results, k - 1);
        assert(endpoint_claim_outcome(states[k - 1], requests[k - 1].0, requests[k - 1].1, requests[k - 1].2, states[k], results[k - 1]));
    }
}

} // verus!
