//! Optional modules around the core: the session proxy (per-project
//! identities, tokens and endpoints), the module switchboard, and the
//! context generator that assembles prompts with provenance.
use vstd::prelude::*;
use vstd::string::StringExecFns;
use crate::endpoints::{
    endpoint_claim_outcome, endpoint_url, granted_endpoint_port, holds_name, lemma_lease_named_unique,
    EndpointClaimResult, EndpointRegistry,
};
use crate::text::{
    ascii_lower, decimal, is_ascii_alnum, is_ascii_alnum_char, lex_le, lemma_lex_total,
    lemma_lex_trans, push_decimal, str_equal, str_le, string_from_chars, to_ascii_lower_char,
};

verus! {

/// An identity issued by the session proxy within one project.
#[derive(Debug, Clone, PartialEq, Eq, Hash)]
pub struct SessionIdentity(String);

#[derive(Debug, Clone, PartialEq, Eq)]
pub struct SessionToken {
    project: String,
    identity: SessionIdentity,
    nonce: u64,
}

#[derive(Debug, Clone, Copy, PartialEq, Eq, Structural)]
pub enum SessionProxyError {
    ProjectIsolationViolation,
    UnknownIdentity,
}

#[derive(Debug, Clone, PartialEq, Eq)]
pub struct SessionEndpoint {
    pub project: String,
    pub name: String,
    pub owner: String,
    pub port: u16,
    pub url: String,
}

impl SessionIdentity {
    pub closed spec fn text(&self) -> Seq<char> {
        self.0@
    }

    pub fn as_str(&self) -> (r: &str)
        ensures
            r@ == self.text(),
    {
        self.0.as_str()
    }

    /// A copy with an equal text.
    pub fn duplicate(&self) -> (r: SessionIdentity)
        ensures
            r == *self,
    {
        SessionIdentity(self.0.clone())
    }
}

impl SessionToken {
    pub closed spec fn project_text(&self) -> Seq<char> {
        self.project@
    }

    pub closed spec fn identity_of(&self) -> SessionIdentity {
        self.identity
    }

    pub closed spec fn nonce_of(&self) -> u64 {
        self.nonce
    }

    pub fn project(&self) -> (r: &str)
        ensures
            r@ == self.project_text(),
    {
        self.project.as_str()
    }

    pub fn identity(&self) -> (r: &SessionIdentity)
        ensures
            *r == self.identity_of(),
    {
        &self.identity
    }

    pub fn nonce(&self) -> (r: u64)
        ensures
            r == self.nonce_of(),
    {
        self.nonce
    }
}

/// The text of the `n`-th identity created for `project`.
pub open spec fn identity_text(project: Seq<char>, n: u64) -> Seq<char> {
    project + "-identity-"@ + decimal(n as nat)
}

/// The optional modules.
#[derive(Debug, Clone, Copy, PartialEq, Eq, Structural, Hash)]
pub enum ModuleName {
    SessionProxy,
    ContextGenerator,
}

#[derive(Debug, Clone, Copy, PartialEq, Eq, Structural)]
pub enum ModuleError {
    ModuleDisabled(ModuleName),
}

impl ModuleName {
    fn as_str(self) -> (r: &'static str)
        ensures
            self == ModuleName::SessionProxy ==> r@ == "session_proxy"@,
            self == ModuleName::ContextGenerator ==> r@ == "context_generator"@,
    {
        match self {
            ModuleName::SessionProxy => "session_proxy",
            ModuleName::ContextGenerator => "context_generator",
        }
    }
}

/// Which optional modules are switched on.
#[derive(Debug, Clone)]
pub struct ModuleManager {
    session_proxy: bool,
    context_generator: bool,
}

impl ModuleManager {
    pub closed spec fn enabled(&self) -> Set<ModuleName> {
        Set::new(
            |m: ModuleName|
                (m == ModuleName::SessionProxy && self.session_proxy) || (m
                    == ModuleName::ContextGenerator && self.context_generator),
        )
    }

    pub fn is_enabled(&self, module: ModuleName) -> (r: bool)
        ensures
            r == self.enabled().contains(module),
    {
        match module {
            ModuleName::SessionProxy => self.session_proxy,
            ModuleName::ContextGenerator => self.context_generator,
        }
    }

    pub fn enable(&mut self, module: ModuleName)
        ensures
            final(self).enabled() == old(self).enabled().insert(module),
    {
        match module {
            ModuleName::SessionProxy => self.session_proxy = true,
            ModuleName::ContextGenerator => self.context_generator = true,
        }
        proof {
            assert(self.enabled() =~= old(self).enabled().insert(module));
        }
    }

    pub fn disable(&mut self, module: ModuleName)
        ensures
            final(self).enabled() == old(self).enabled().remove(module),
    {
        match module {
            ModuleName::SessionProxy => self.session_proxy = false,
            ModuleName::ContextGenerator => self.context_generator = false,
        }
        proof {
            assert(self.enabled() =~= old(self).enabled().remove(module));
        }
    }

    pub fn ensure_enabled(&self, module: ModuleName) -> (r: Result<(), ModuleError>)
        ensures
            self.enabled().contains(module) ==> r is Ok,
            !self.enabled().contains(module) ==> r == Err::<(), ModuleError>(
                ModuleError::ModuleDisabled(module),
            ),
    {
        if self.is_enabled(module) {
            Ok(())
        } else {
            Err(ModuleError::ModuleDisabled(module))
        }
    }

    /// Runs an operation of the core; it never depends on which modules are on.
    pub fn run_core_operation<T, F: FnOnce() -> T>(&self, operation: F) -> (r: T)
        requires
            operation.requires(()),
        ensures
            operation.ensures((), r),
    {
        operation()
    }

    /// The configuration key of a module.
    pub fn module_key(module: ModuleName) -> (r: &'static str)
        ensures
            module == ModuleName::SessionProxy ==> r@ == "session_proxy"@,
            module == ModuleName::ContextGenerator ==> r@ == "context_generator"@,
    {
        module.as_str()
    }
}

impl Default for ModuleManager {
    fn default() -> (r: ModuleManager)
        ensures
            r.enabled() == set![ModuleName::SessionProxy, ModuleName::ContextGenerator],
    {
        let r = ModuleManager { session_proxy: true, context_generator: true };
        proof {
            assert(r.enabled() =~= set![ModuleName::SessionProxy, ModuleName::ContextGenerator]);
        }
        r
    }
}

/// Each character mapped: ASCII letters and digits lower-cased, anything
/// else a dash.
pub open spec fn dashed(s: Seq<char>) -> Seq<char> {
    s.map_values(|c: char| if is_ascii_alnum(c) { ascii_lower(c) } else { '-' })
}

/// Runs of dashes squeezed to one dash.
pub open spec fn squeeze_dashes(s: Seq<char>) -> Seq<char>
    decreases s.len(),
{
    if s.len() == 0 {
        s
    } else {
        let prefix = squeeze_dashes(s.drop_last());
        if s.last() == '-' && prefix.len() > 0 && prefix.last() == '-' {
            prefix
        } else {
            prefix.push(s.last())
        }
    }
}

/// Without one leading and one trailing dash.
pub open spec fn trim_dash(s: Seq<char>) -> Seq<char> {
    let a = if s.len() > 0 && s[0] == '-' { s.drop_first() } else { s };
    if a.len() > 0 && a.last() == '-' { a.drop_last() } else { a }
}

/// The endpoint name a project is served under.
pub open spec fn endpoint_name_of(project: Seq<char>) -> Seq<char> {
    let core = trim_dash(squeeze_dashes(dashed(project)));
    if core.len() == 0 {
        "stead-project"@
    } else {
        "stead-"@ + core
    }
}

/// The endpoint name for a project path: `stead-` followed by its ASCII
/// letters and digits in lower case, each other run of characters turned
/// into one dash, without dashes at the ends; `stead-project` when nothing
/// is left.
pub fn project_endpoint_name(project: &str) -> (r: String)
    ensures
        r@ == endpoint_name_of(project@),
{
    let n = project.unicode_len();
    let mut squeezed: Vec<char> = Vec::new();
    let mut i: usize = 0;
    while i < n
        invariant
            n == project@.len(),
            0 <= i <= n,
            squeezed@ == squeeze_dashes(dashed(project@.subrange(0, i as int))),
        decreases n - i,
    {
        let c = project.get_char(i);
        let mapped = if is_ascii_alnum_char(c) {
            to_ascii_lower_char(c)
        } else {
            '-'
        };
        proof {
            let before = project@.subrange(0, i as int);
            let after = project@.subrange(0, i + 1);
            assert(after =~= before.push(c));
            assert(dashed(after) =~= dashed(before).push(mapped));
            assert(dashed(after).drop_last() =~= dashed(before));
        }
        if !(mapped == '-' && squeezed.len() > 0 && squeezed[squeezed.len() - 1] == '-') {
            squeezed.push(mapped);
        }
        i = i + 1;
    }
    proof {
        assert(project@.subrange(0, n as int) =~= project@);
    }
    let ghost sq = squeezed@;
    if squeezed.len() > 0 && squeezed[0] == '-' {
        squeezed.remove(0);
    }
    if squeezed.len() > 0 && squeezed[squeezed.len() - 1] == '-' {
        squeezed.pop();
    }
    proof {
        assert(squeezed@ =~= trim_dash(sq));
    }
    if squeezed.len() == 0 {
        String::from_str("stead-project")
    } else {
        let mut name = String::from_str("stead-");
        let core = string_from_chars(&squeezed);
        name.append(core.as_str());
        name
    }
}

/// Identities by project, a token counter, and the project endpoints.
#[derive(Debug)]
pub struct SessionProxy {
    next_identity: u64,
    next_token: u64,
    identities: Vec<(String, SessionIdentity)>,
    endpoint_registry: EndpointRegistry,
}

/// The (project, identity) pairs in `s`.
pub open spec fn pairs_of(s: Seq<(String, SessionIdentity)>) -> Set<(Seq<char>, Seq<char>)> {
    Set::new(
        |p: (Seq<char>, Seq<char>)|
            exists|i: int| 0 <= i < s.len() && (#[trigger] s[i]).0@ == p.0 && s[i].1.text() == p.1,
    )
}

impl SessionProxy {
    pub open spec fn wf(&self) -> bool {
        self.registry().wf()
    }

    /// The identities that are alive, as (project, identity text).
    pub closed spec fn registered(&self) -> Set<(Seq<char>, Seq<char>)> {
        pairs_of(self.identities@)
    }

    pub closed spec fn identity_count(&self) -> u64 {
        self.next_identity
    }

    pub closed spec fn token_count(&self) -> u64 {
        self.next_token
    }

    pub closed spec fn registry(&self) -> EndpointRegistry {
        self.endpoint_registry
    }

    /// Creates a fresh identity for `project`.
    pub fn create_identity(&mut self, project: &str) -> (r: SessionIdentity)
        requires
            old(self).identity_count() < u64::MAX,
        ensures
            final(self).identity_count() == old(self).identity_count() + 1,
            r.text() == identity_text(project@, final(self).identity_count()),
            final(self).registered() == old(self).registered().insert((project@, r.text())),
            final(self).token_count() == old(self).token_count(),
            final(self).registry() == old(self).registry(),
    {
        self.next_identity = self.next_identity + 1;
        let mut text = String::from_str(project);
        text.append("-identity-");
        push_decimal(&mut text, self.next_identity);
        let identity = SessionIdentity(text);
        let ghost before = self.identities@;
        self.identities.push((String::from_str(project), identity.duplicate()));
        proof {
            let after = self.identities@;
            assert forall|p: (Seq<char>, Seq<char>)| pairs_of(after).contains(p) == pairs_of(before).insert((project@, identity.text())).contains(p) by {
                if pairs_of(before).contains(p) {
                    let i = choose|i: int| 0 <= i < before.len() && (#[trigger] before[i]).0@ == p.0 && before[i].1.text() == p.1;
                    assert(after[i] == before[i]);
                }
                if pairs_of(after).contains(p) {
                    let i = choose|i: int| 0 <= i < after.len() && (#[trigger] after[i]).0@ == p.0 && after[i].1.text() == p.1;
                    if i < before.len() {
                        assert(after[i] == before[i]);
                    }
                }
                if p == (project@, identity.text()) {
                    assert(after[before.len() as int].0@ == p.0);
                }
            }
            assert(pairs_of(after) =~= pairs_of(before).insert((project@, identity.text())));
        }
        identity
    }

    fn identity_exists(&self, project: &str, identity: &SessionIdentity) -> (r: bool)
        ensures
            r == self.registered().contains((project@, identity.text())),
    {
        let mut i: usize = 0;
        while i < self.identities.len()
            invariant
                0 <= i <= self.identities@.len(),
                forall|j: int| 0 <= j < i ==> !((#[trigger] self.identities@[j]).0@ == project@ && self.identities@[j].1.text() == identity.text()),
            decreases self.identities@.len() - i,
        {
            if str_equal(self.identities[i].0.as_str(), project) && str_equal(
                self.identities[i].1.as_str(),
                identity.as_str(),
            ) {
                return true;
            }
            i = i + 1;
        }
        false
    }

    /// Issues a token for a live identity of `project`.
    pub fn issue_token(&mut self, project: &str, identity: &SessionIdentity) -> (r: Result<
        SessionToken,
        SessionProxyError,
    >)
        requires
            old(self).token_count() < u64::MAX,
        ensures
            !old(self).registered().contains((project@, identity.text())) ==> r == Err::<
                SessionToken,
                SessionProxyError,
            >(SessionProxyError::UnknownIdentity) && *final(self) == *old(self),
            old(self).registered().contains((project@, identity.text())) ==> (r matches Ok(t)
                && t.project_text() == project@ && t.identity_of() == *identity && t.nonce_of()
                == final(self).token_count()) && final(self).token_count() == old(self).token_count() + 1,
            final(self).registered() == old(self).registered(),
            final(self).identity_count() == old(self).identity_count(),
            final(self).registry() == old(self).registry(),
    {
        if !self.identity_exists(project, identity) {
            return Err(SessionProxyError::UnknownIdentity);
        }
        self.next_token = self.next_token + 1;
        Ok(SessionToken {
            project: String::from_str(project),
            identity: identity.duplicate(),
            nonce: self.next_token,
        })
    }

    /// The identity a token speaks for, when it is used in its own project
    /// and the identity is still alive.
    pub fn validate_token(&self, project: &str, token: &SessionToken) -> (r: Result<
        SessionIdentity,
        SessionProxyError,
    >)
        ensures
            token.project_text() != project@ ==> r == Err::<SessionIdentity, SessionProxyError>(
                SessionProxyError::ProjectIsolationViolation,
            ),
            token.project_text() == project@ && !self.registered().contains(
                (project@, token.identity_of().text()),
            ) ==> r == Err::<SessionIdentity, SessionProxyError>(SessionProxyError::UnknownIdentity),
            token.project_text() == project@ && self.registered().contains(
                (project@, token.identity_of().text()),
            ) ==> r == Ok::<SessionIdentity, SessionProxyError>(token.identity_of()),
    {
        if !str_equal(token.project.as_str(), project) {
            return Err(SessionProxyError::ProjectIsolationViolation);
        }
        if !self.identity_exists(project, &token.identity) {
            return Err(SessionProxyError::UnknownIdentity);
        }
        Ok(token.identity.duplicate())
    }

    /// Retires an identity of `project`; tokens for it stop validating.
    pub fn destroy_identity(&mut self, project: &str, identity: &SessionIdentity)
        ensures
            final(self).registered() == old(self).registered().remove((project@, identity.text())),
            final(self).identity_count() == old(self).identity_count(),
            final(self).token_count() == old(self).token_count(),
            final(self).registry() == old(self).registry(),
    {
        let mut kept: Vec<(String, SessionIdentity)> = Vec::new();
        let ghost all = self.identities@;
        let ghost target = (project@, identity.text());
        let mut i: usize = 0;
        while i < self.identities.len()
            invariant
                0 <= i <= all.len(),
                all == self.identities@,
                target == (project@, identity.text()),
                forall|p: (Seq<char>, Seq<char>)| #[trigger] pairs_of(kept@).contains(p) <==> (
                    pairs_of(all.subrange(0, i as int)).contains(p) && p != target),
            decreases all.len() - i,
        {
            let same_project = str_equal(self.identities[i].0.as_str(), project);
            let same_identity = str_equal(self.identities[i].1.as_str(), identity.as_str());
            let matches_target = same_project && same_identity;
            let ghost before = kept@;
            let ghost prefix = all.subrange(0, i as int);
            let ghost next = all.subrange(0, i + 1);
            let ghost cur = (all[i as int].0@, all[i as int].1.text());
            proof {
                assert(next =~= prefix.push(all[i as int]));
                assert(same_project == (cur.0 == target.0));
                assert(same_identity == (cur.1 == target.1));
                assert(matches_target == (cur == target));
                assert forall|p: (Seq<char>, Seq<char>)| #[trigger] pairs_of(next).contains(p) <==> (
                    pairs_of(prefix).contains(p) || p == cur) by {
                    if pairs_of(next).contains(p) {
                        let j = choose|j: int| 0 <= j < next.len() && (#[trigger] next[j]).0@ == p.0 && next[j].1.text() == p.1;
                        if j < i {
                            assert(prefix[j] == next[j]);
                        }
                    }
                    if pairs_of(prefix).contains(p) {
                        let j = choose|j: int| 0 <= j < prefix.len() && (#[trigger] prefix[j]).0@ == p.0 && prefix[j].1.text() == p.1;
                        assert(next[j] == prefix[j]);
                    }
                    if p == cur {
                        assert(next[i as int] == all[i as int]);
                    }
                }
            }
            if !matches_target {
                let entry = (self.identities[i].0.clone(), self.identities[i].1.duplicate());
                kept.push(entry);
                proof {
                    assert forall|p: (Seq<char>, Seq<char>)| #[trigger] pairs_of(kept@).contains(p) <==> (
                        pairs_of(before).contains(p) || p == cur) by {
                        if pairs_of(kept@).contains(p) {
                            let k = choose|k: int| 0 <= k < kept@.len() && (#[trigger] kept@[k]).0@ == p.0 && kept@[k].1.text() == p.1;
                            if k < before.len() {
                                assert(kept@[k] == before[k]);
                            }
                        }
                        if pairs_of(before).contains(p) {
                            let k = choose|k: int| 0 <= k < before.len() && (#[trigger] before[k]).0@ == p.0 && before[k].1.text() == p.1;
                            assert(kept@[k] == before[k]);
                        }
                        if p == cur {
                            assert(kept@[before.len() as int] == entry);
                        }
                    }
                }
            }
            i = i + 1;
        }
        proof {
            assert(all.subrange(0, all.len() as int) =~= all);
            assert(pairs_of(kept@) =~= pairs_of(all).remove(target));
        }
        self.identities = kept;
    }

    /// The endpoint of a project, claimed for `owner` under the project's
    /// endpoint name; `None` while the session proxy is switched off or when
    /// no port is left.
    pub fn resolve_project_endpoint(&mut self, modules: &ModuleManager, project: &str, owner: &str) -> (r: Result<
        Option<SessionEndpoint>,
        ModuleError,
    >)
        requires
            old(self).wf(),
        ensures
            final(self).wf(),
            r is Ok,
            !modules.enabled().contains(ModuleName::SessionProxy) ==> r == Ok::<
                Option<SessionEndpoint>,
                ModuleError,
            >(None) && *final(self) == *old(self),
            r matches Ok(Some(e)) ==> e.project@ == project@ && e.name@ == endpoint_name_of(project@)
                && e.url@ == endpoint_url(e.name@, e.port) && e.owner@ == owner@,
            modules.enabled().contains(ModuleName::SessionProxy) ==> exists|res: EndpointClaimResult|
                endpoint_claim_outcome(
                    old(self).registry(),
                    endpoint_name_of(project@),
                    owner@,
                    None,
                    final(self).registry(),
                    res,
                ) && ((res is Conflict) <==> r == Ok::<Option<SessionEndpoint>, ModuleError>(None))
                    && (r matches Ok(Some(e)) ==> Some(e.port) == granted_endpoint_port(res)),
            final(self).registered() == old(self).registered(),
    {
        if !modules.is_enabled(ModuleName::SessionProxy) {
            return Ok(None);
        }
        let endpoint_name = project_endpoint_name(project);
        let claim = self.endpoint_registry.claim(endpoint_name.as_str(), owner, None);
        let ghost res = claim;
        proof {
            let s = old(self).endpoint_registry.lease_seq();
            if holds_name(s, endpoint_name@) {
                let i = choose|i: int| 0 <= i < s.len() && (#[trigger] s[i]).name@ == endpoint_name@;
                lemma_lease_named_unique(s, i);
            }
        }
        let lease = match claim {
            EndpointClaimResult::Claimed(lease) => lease,
            EndpointClaimResult::Negotiated { assigned, .. } => assigned,
            EndpointClaimResult::Conflict(_) => {
                proof {
                    assert(endpoint_claim_outcome(old(self).registry(), endpoint_name_of(project@), owner@, None, self.registry(), res));
                }
                return Ok(None);
            },
        };
        proof {
            assert(endpoint_claim_outcome(old(self).registry(), endpoint_name_of(project@), owner@, None, self.registry(), res));
            assert(Some(lease.port) == granted_endpoint_port(res));
        }
        let url = lease.url();
        Ok(Some(SessionEndpoint {
            project: String::from_str(project),
            name: lease.name.clone(),
            owner: lease.owner.clone(),
            port: lease.port,
            url,
        }))
    }
}

impl Default for SessionProxy {
    fn default() -> (r: SessionProxy)
        ensures
            r.wf(),
            r.registered() == Set::<(Seq<char>, Seq<char>)>::empty(),
            r.identity_count() == 0,
            r.token_count() == 0,
    {
        let r = SessionProxy {
            next_identity: 0,
            next_token: 0,
            identities: Vec::new(),
            endpoint_registry: EndpointRegistry::with_port_range(4100, 4999),
        };
        proof {
            assert(r.registered() =~= Set::<(Seq<char>, Seq<char>)>::empty());
        }
        r
    }
}

#[derive(Debug, Clone, PartialEq, Eq)]
pub struct ContextFragment {
    pub source_id: String,
    pub content: String,
    pub citation: String,
}

#[derive(Debug, Clone, PartialEq, Eq)]
pub struct ContextCitation {
    pub source_id: String,
    pub citation: String,
}

#[derive(Debug, Clone, PartialEq, Eq)]
pub enum ContextProviderError {
    Unavailable,
    Failed(String),
}

/// A source of generated context, implemented by the users of the library.
pub trait ContextProvider {
    fn name(&self) -> &'static str;

    fn generate(&self, prompt: &str) -> Result<String, ContextProviderError>;
}

/// How far a generated context can be trusted: high for the primary
/// provider, medium for the fallback provider, low for the built-in summary.
#[derive(Debug, Clone, Copy, PartialEq, Eq, Structural)]
pub enum Confidence {
    High,
    Medium,
    Low,
}

#[derive(Debug, Clone, PartialEq, Eq)]
pub struct GeneratedContext {
    pub prompt: String,
    pub content: String,
    pub provider: String,
    pub used_fallback: bool,
    pub citations: Vec<ContextCitation>,
    pub confidence: Confidence,
}

impl ContextFragment {
    pub fn new(source_id: &str, content: &str, citation: &str) -> (r: ContextFragment)
        ensures
            r.source_id@ == source_id@,
            r.content@ == content@,
            r.citation@ == citation@,
    {
        ContextFragment {
            source_id: String::from_str(source_id),
            content: String::from_str(content),
            citation: String::from_str(citation),
        }
    }

    /// A copy with equal fields.
    pub fn duplicate(&self) -> (r: ContextFragment)
        ensures
            r == *self,
    {
        ContextFragment {
            source_id: self.source_id.clone(),
            content: self.content.clone(),
            citation: self.citation.clone(),
        }
    }
}

/// Fragments in ascending source order.
pub open spec fn sorted_by_source(s: Seq<ContextFragment>) -> bool {
    forall|i: int, j: int| 0 <= i < j < s.len() ==> lex_le((#[trigger] s[i]).source_id@, (#[trigger] s[j]).source_id@)
}

/// The prompt for a task over fragments in the given order: a `Task:` line,
/// then one `[source] content` line per fragment.
pub open spec fn prompt_of(task: Seq<char>, fs: Seq<ContextFragment>) -> Seq<char>
    decreases fs.len(),
{
    if fs.len() == 0 {
        "Task: "@ + task
    } else {
        prompt_of(task, fs.drop_last()) + "\n["@ + fs.last().source_id@ + "] "@ + fs.last().content@
    }
}

/// The citation of each fragment, in the given order.
pub open spec fn citations_of(fs: Seq<ContextFragment>) -> Seq<ContextCitation> {
    fs.map_values(|f: ContextFragment| ContextCitation { source_id: f.source_id, citation: f.citation })
}

/// The fragments sorted by source id; equal ids keep their order.
fn sort_by_source(fragments: &[ContextFragment]) -> (r: Vec<ContextFragment>)
    ensures
        r@.to_multiset() == fragments@.to_multiset(),
        sorted_by_source(r@),
{
    broadcast use vstd::seq_lib::group_to_multiset_ensures;

    let mut out: Vec<ContextFragment> = Vec::new();
    let mut i: usize = 0;
    proof {
        assert(fragments@.subrange(0, 0) =~= Seq::<ContextFragment>::empty());
        assert(out@ =~= Seq::<ContextFragment>::empty());
    }
    while i < fragments.len()
        invariant
            0 <= i <= fragments@.len(),
            out@.to_multiset() == fragments@.subrange(0, i as int).to_multiset(),
            sorted_by_source(out@),
        decreases fragments@.len() - i,
    {
        let f = fragments[i].duplicate();
        let mut pos: usize = 0;
        while pos < out.len() && str_le(out[pos].source_id.as_str(), f.source_id.as_str())
            invariant
                0 <= pos <= out@.len(),
                forall|k: int| 0 <= k < pos ==> lex_le((#[trigger] out@[k]).source_id@, f.source_id@),
            decreases out@.len() - pos,
        {
            pos = pos + 1;
        }
        let ghost before = out@;
        proof {
            if pos < before.len() {
                lemma_lex_total(before[pos as int].source_id@, f.source_id@);
                assert forall|k: int| pos <= k < before.len() implies lex_le(f.source_id@, (#[trigger] before[k]).source_id@) by {
                    if k > pos {
                        lemma_lex_trans(f.source_id@, before[pos as int].source_id@, before[k].source_id@);
                    }
                }
            }
        }
        out.insert(pos, f);
        proof {
            let after = out@;
            let x = fragments@[i as int];
            assert(after =~= before.insert(pos as int, x));
            vstd::seq_lib::to_multiset_insert(before, pos as int, x);
            let prefix = fragments@.subrange(0, i as int);
            assert(fragments@.subrange(0, i + 1) =~= prefix.push(x));
            vstd::seq_lib::to_multiset_build(prefix, x);
            assert forall|a: int, b: int| 0 <= a < b < after.len() implies lex_le((#[trigger] after[a]).source_id@, (#[trigger] after[b]).source_id@) by {
                if b < pos {
                    assert(after[a] == before[a] && after[b] == before[b]);
                } else if b == pos {
                    assert(after[a] == before[a]);
                } else if a < pos {
                    assert(after[a] == before[a] && after[b] == before[b - 1]);
                    lemma_lex_trans(before[a].source_id@, x.source_id@, before[b - 1].source_id@);
                } else if a == pos {
                    assert(after[b] == before[b - 1]);
                } else {
                    assert(after[a] == before[a - 1] && after[b] == before[b - 1]);
                }
            }
        }
        i = i + 1;
    }
    proof {
        assert(fragments@.subrange(0, fragments@.len() as int) =~= fragments@);
    }
    out
}

/// The prompt for `task` over `fragments` taken in the given order.
pub fn prompt_for(task: &str, fragments: &Vec<ContextFragment>) -> (r: String)
    ensures
        r@ == prompt_of(task@, fragments@),
{
    let mut prompt = String::from_str("Task: ");
    prompt.append(task);
    let mut i: usize = 0;
    proof {
        assert(fragments@.subrange(0, 0) =~= Seq::<ContextFragment>::empty());
    }
    while i < fragments.len()
        invariant
            0 <= i <= fragments@.len(),
            prompt@ == prompt_of(task@, fragments@.subrange(0, i as int)),
        decreases fragments@.len() - i,
    {
        prompt.append("\n[");
        prompt.append(fragments[i].source_id.as_str());
        prompt.append("] ");
        prompt.append(fragments[i].content.as_str());
        proof {
            let next = fragments@.subrange(0, i + 1);
            assert(next.drop_last() =~= fragments@.subrange(0, i as int));
            assert(next.last() == fragments@[i as int]);
        }
        i = i + 1;
    }
    proof {
        assert(fragments@.subrange(0, fragments@.len() as int) =~= fragments@);
    }
    prompt
}

/// The citations of `fragments` in the given order.
pub fn citations_for(fragments: &Vec<ContextFragment>) -> (r: Vec<ContextCitation>)
    ensures
        r@ == citations_of(fragments@),
{
    let mut out: Vec<ContextCitation> = Vec::new();
    let mut i: usize = 0;
    while i < fragments.len()
        invariant
            0 <= i <= fragments@.len(),
            out@ == citations_of(fragments@.subrange(0, i as int)),
        decreases fragments@.len() - i,
    {
        out.push(ContextCitation {
            source_id: fragments[i].source_id.clone(),
            citation: fragments[i].citation.clone(),
        });
        proof {
            assert(citations_of(fragments@.subrange(0, i + 1)) =~= citations_of(fragments@.subrange(0, i as int)).push(out@.last()));
        }
        i = i + 1;
    }
    proof {
        assert(fragments@.subrange(0, fragments@.len() as int) =~= fragments@);
    }
    out
}

/// The context produced from what the providers returned: the primary's
/// output when it succeeded; the fallback's when the primary was unavailable
/// and a fallback succeeded; otherwise the built-in summary.
pub fn context_from_outcomes(
    prompt: String,
    citations: Vec<ContextCitation>,
    primary_name: &str,
    primary: Result<String, ContextProviderError>,
    fallback: Option<(&str, Result<String, ContextProviderError>)>,
) -> (r: GeneratedContext)
    ensures
        r.prompt == prompt,
        r.citations == citations,
        primary matches Ok(content) ==> r.content == content && r.provider@ == primary_name@
            && !r.used_fallback && r.confidence == Confidence::High,
        primary == Err::<String, ContextProviderError>(ContextProviderError::Unavailable)
            ==> (fallback matches Some((name, Ok(content))) ==> r.content == content && r.provider@
            == name@ && r.used_fallback && r.confidence == Confidence::Medium),
        (primary is Err && !(primary == Err::<String, ContextProviderError>(ContextProviderError::Unavailable)
            && fallback matches Some((_, Ok(_))))) ==> r.content@ == "fallback: deterministic context summary"@
            && r.provider@ == "deterministic-fallback"@ && r.used_fallback && r.confidence == Confidence::Low,
{
    match primary {
        Ok(content) => GeneratedContext {
            prompt,
            content,
            provider: String::from_str(primary_name),
            used_fallback: false,
            citations,
            confidence: Confidence::High,
        },
        Err(ContextProviderError::Unavailable) => match fallback {
            Some((name, Ok(content))) => GeneratedContext {
                prompt,
                content,
                provider: String::from_str(name),
                used_fallback: true,
                citations,
                confidence: Confidence::Medium,
            },
            _ => deterministic_context_fallback(prompt, citations),
        },
        Err(_) => deterministic_context_fallback(prompt, citations),
    }
}

fn deterministic_context_fallback(prompt: String, citations: Vec<ContextCitation>) -> (r: GeneratedContext)
    ensures
        r.prompt == prompt,
        r.citations == citations,
        r.content@ == "fallback: deterministic context summary"@,
        r.provider@ == "deterministic-fallback"@,
        r.used_fallback,
        r.confidence == Confidence::Low,
{
    GeneratedContext {
        prompt,
        content: String::from_str("fallback: deterministic context summary"),
        provider: String::from_str("deterministic-fallback"),
        used_fallback: true,
        citations,
        confidence: Confidence::Low,
    }
}

/// Generates context from a primary provider, with an optional fallback.
pub struct ContextGenerator {
    primary: Box<dyn ContextProvider>,
    fallback: Option<Box<dyn ContextProvider>>,
}

impl ContextGenerator {
    pub fn new(primary: Box<dyn ContextProvider>, fallback: Option<Box<dyn ContextProvider>>) -> (r: ContextGenerator) {
        ContextGenerator { primary, fallback }
    }

    /// The prompt for `task` over the fragments sorted by source id.
    pub fn assemble_prompt(&self, task: &str, fragments: &[ContextFragment]) -> (r: String)
        ensures
            exists|sorted: Seq<ContextFragment>|
                sorted.to_multiset() == fragments@.to_multiset() && sorted_by_source(sorted)
                    && r@ == prompt_of(task@, sorted),
    {
        let ordered = sort_by_source(fragments);
        prompt_for(task, &ordered)
    }

    /// Assembles the prompt, asks the providers, and records where the
    /// content came from together with the sorted citations.
    pub fn generate(&self, task: &str, fragments: &[ContextFragment]) -> (r: GeneratedContext)
        ensures
            exists|sorted: Seq<ContextFragment>|
                sorted.to_multiset() == fragments@.to_multiset() && sorted_by_source(sorted)
                    && r.prompt@ == prompt_of(task@, sorted) && r.citations@ == citations_of(sorted),
    {
        let ordered = sort_by_source(fragments);
        let prompt = prompt_for(task, &ordered);
        let citations = citations_for(&ordered);
        let primary = self.primary.generate(prompt.as_str());
        let primary_name = self.primary.name();
        let fallback = match &primary {
            Err(ContextProviderError::Unavailable) => match &self.fallback {
                Some(provider) => Some((provider.name(), provider.generate(prompt.as_str()))),
                None => None,
            },
            _ => None,
        };
        context_from_outcomes(prompt, citations, primary_name, primary, fallback)
    }
}

} // verus!
