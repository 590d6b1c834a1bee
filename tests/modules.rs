use stead::modules::{
    project_endpoint_name, Confidence, ContextFragment, ContextGenerator, ContextProvider,
    ContextProviderError, ModuleError, ModuleManager, ModuleName, SessionProxy, SessionProxyError,
};

/// The numeric confidence reported for each level.
fn confidence_score(level: Confidence) -> f32 {
    match level {
        Confidence::High => 0.9,
        Confidence::Medium => 0.7,
        Confidence::Low => 0.4,
    }
}

struct EchoProvider;

impl ContextProvider for EchoProvider {
    fn name(&self) -> &'static str {
        "echo"
    }

    fn generate(&self, prompt: &str) -> Result<String, ContextProviderError> {
        Ok(format!("generated:{prompt}"))
    }
}

#[test]
fn assembles_prompt_deterministically_from_sorted_sources() {
    let generator = ContextGenerator::new(Box::new(EchoProvider), None);

    let fragments = vec![
        ContextFragment::new("b-doc", "Second fragment", "docs/b.md"),
        ContextFragment::new("a-doc", "First fragment", "docs/a.md"),
    ];

    let prompt = generator.assemble_prompt("Fix auth", &fragments);

    assert_eq!(
        prompt,
        "Task: Fix auth\n[a-doc] First fragment\n[b-doc] Second fragment"
    );
}

struct UnavailableProvider;

impl ContextProvider for UnavailableProvider {
    fn name(&self) -> &'static str {
        "primary"
    }

    fn generate(&self, _prompt: &str) -> Result<String, ContextProviderError> {
        Err(ContextProviderError::Unavailable)
    }
}

#[test]
fn falls_back_deterministically_when_backend_is_unavailable() {
    let generator = ContextGenerator::new(Box::new(UnavailableProvider), None);

    let context = generator.generate("Task", &[ContextFragment::new("a", "context", "docs/a.md")]);

    assert_eq!(context.provider, "deterministic-fallback");
    assert_eq!(context.content, "fallback: deterministic context summary");
    assert!(context.used_fallback);
    assert_eq!(confidence_score(context.confidence), 0.4);
}

struct PrimaryProvider;

impl ContextProvider for PrimaryProvider {
    fn name(&self) -> &'static str {
        "primary"
    }

    fn generate(&self, _prompt: &str) -> Result<String, ContextProviderError> {
        Ok("ok".to_string())
    }
}

#[test]
fn includes_sorted_citations_with_confidence_for_primary_path() {
    let generator = ContextGenerator::new(Box::new(PrimaryProvider), None);

    let fragments = vec![
        ContextFragment::new("z", "later", "docs/z.md"),
        ContextFragment::new("a", "first", "docs/a.md"),
    ];

    let context = generator.generate("Task", &fragments);

    let citation_ids: Vec<&str> = context
        .citations
        .iter()
        .map(|citation| citation.source_id.as_str())
        .collect();

    assert_eq!(citation_ids, vec!["a", "z"]);
    assert_eq!(context.citations[0].citation, "docs/a.md");
    assert_eq!(confidence_score(context.confidence), 0.9);
}

struct AlwaysAvailableProvider;

impl ContextProvider for AlwaysAvailableProvider {
    fn name(&self) -> &'static str {
        "primary"
    }

    fn generate(&self, _prompt: &str) -> Result<String, ContextProviderError> {
        Ok("primary output".to_string())
    }
}

struct UnavailableProviderContextGeneratorProviderFallback;

impl ContextProvider for UnavailableProviderContextGeneratorProviderFallback {
    fn name(&self) -> &'static str {
        "unavailable"
    }

    fn generate(&self, _prompt: &str) -> Result<String, ContextProviderError> {
        Err(ContextProviderError::Unavailable)
    }
}

struct FallbackProvider;

impl ContextProvider for FallbackProvider {
    fn name(&self) -> &'static str {
        "openrouter-fallback"
    }

    fn generate(&self, _prompt: &str) -> Result<String, ContextProviderError> {
        Ok("fallback output".to_string())
    }
}

#[test]
fn uses_primary_provider_when_available() {
    let generator = ContextGenerator::new(Box::new(AlwaysAvailableProvider), None);
    let context = generator.generate("Task", &[ContextFragment::new("a", "ctx", "doc")]);

    assert_eq!(context.provider, "primary");
    assert_eq!(context.content, "primary output");
    assert!(!context.used_fallback);
}

#[test]
fn uses_fallback_provider_when_primary_unavailable() {
    let generator = ContextGenerator::new(
        Box::new(UnavailableProviderContextGeneratorProviderFallback),
        Some(Box::new(FallbackProvider)),
    );

    let context = generator.generate("Task", &[ContextFragment::new("a", "ctx", "doc")]);

    assert_eq!(context.provider, "openrouter-fallback");
    assert_eq!(context.content, "fallback output");
    assert!(context.used_fallback);
}

#[test]
fn session_proxy_can_be_disabled_and_reenabled() {
    let mut modules = ModuleManager::default();

    assert!(modules.is_enabled(ModuleName::SessionProxy));

    modules.disable(ModuleName::SessionProxy);
    assert!(!modules.is_enabled(ModuleName::SessionProxy));
    assert!(matches!(
        modules.ensure_enabled(ModuleName::SessionProxy),
        Err(ModuleError::ModuleDisabled(ModuleName::SessionProxy))
    ));

    modules.enable(ModuleName::SessionProxy);
    assert!(modules.ensure_enabled(ModuleName::SessionProxy).is_ok());
}

#[test]
fn disabling_optional_module_does_not_block_core_operations() {
    let mut modules = ModuleManager::default();
    modules.disable(ModuleName::SessionProxy);

    let value = modules.run_core_operation(|| 7 * 6);
    assert_eq!(value, 42);
}

#[test]
fn enabled_session_proxy_maps_project_to_deterministic_endpoint() {
    let mut proxy = SessionProxy::default();
    let modules = ModuleManager::default();

    let first = proxy
        .resolve_project_endpoint(&modules, "/workspace/project-alpha", "agent-a")
        .unwrap()
        .expect("session proxy enabled by default");

    let second = proxy
        .resolve_project_endpoint(&modules, "/workspace/project-alpha", "agent-a")
        .unwrap()
        .expect("mapping should remain available");

    assert_eq!(first.name, second.name);
    assert_eq!(first.port, second.port);
    assert_eq!(first.url, second.url);
    assert!(first.url.contains(".localhost:"));
}

#[test]
fn disabled_session_proxy_returns_none_without_core_regressions() {
    let mut proxy = SessionProxy::default();
    let mut modules = ModuleManager::default();
    modules.disable(ModuleName::SessionProxy);

    let endpoint = proxy
        .resolve_project_endpoint(&modules, "/workspace/project-alpha", "agent-a")
        .unwrap();

    assert!(endpoint.is_none());
    assert_eq!(modules.run_core_operation(|| 42), 42);
}

#[test]
fn endpoint_mapping_is_project_scoped() {
    let mut proxy = SessionProxy::default();
    let modules = ModuleManager::default();

    let alpha = proxy
        .resolve_project_endpoint(&modules, "/workspace/project-alpha", "agent-a")
        .unwrap()
        .expect("alpha mapping should exist");

    let beta = proxy
        .resolve_project_endpoint(&modules, "/workspace/project-beta", "agent-a")
        .unwrap()
        .expect("beta mapping should exist");

    assert_ne!(alpha.name, beta.name);
    assert_ne!(alpha.url, beta.url);
}

#[test]
fn project_endpoint_name_matches_session_proxy_output() {
    let mut proxy = SessionProxy::default();
    let modules = ModuleManager::default();
    let project = "/workspace/project-alpha";

    let endpoint = proxy
        .resolve_project_endpoint(&modules, project, "agent-a")
        .unwrap()
        .expect("endpoint mapping should exist");

    assert_eq!(endpoint.name, project_endpoint_name(project));
}

#[test]
fn token_is_valid_only_within_its_project_boundary() {
    let mut proxy = SessionProxy::default();
    let identity = proxy.create_identity("project-a");
    let token = proxy.issue_token("project-a", &identity).unwrap();

    let validated = proxy.validate_token("project-a", &token).unwrap();
    assert_eq!(validated, identity);

    let err = proxy
        .validate_token("project-b", &token)
        .expect_err("cross-project token use must fail");

    assert_eq!(err, SessionProxyError::ProjectIsolationViolation);
}

#[test]
fn identities_are_unique_per_creation_and_project() {
    let mut proxy = SessionProxy::default();

    let one = proxy.create_identity("project-a");
    let two = proxy.create_identity("project-a");
    let three = proxy.create_identity("project-b");

    assert_ne!(one, two);
    assert_ne!(one, three);
    assert_ne!(two, three);
}

#[test]
fn destroying_identity_invalidates_only_that_identity() {
    let mut proxy = SessionProxy::default();

    let a = proxy.create_identity("project-a");
    let b = proxy.create_identity("project-a");

    let token_a = proxy.issue_token("project-a", &a).unwrap();
    let token_b = proxy.issue_token("project-a", &b).unwrap();

    proxy.destroy_identity("project-a", &a);

    let err = proxy
        .validate_token("project-a", &token_a)
        .expect_err("destroyed identity must fail validation");
    assert_eq!(err, SessionProxyError::UnknownIdentity);

    let still_valid = proxy.validate_token("project-a", &token_b).unwrap();
    assert_eq!(still_valid, b);
}

#[test]
fn endpoint_names_are_normalized() {
    assert_eq!(project_endpoint_name("/workspace/project-alpha"), "stead-workspace-project-alpha");
    assert_eq!(project_endpoint_name("My  Project!!"), "stead-my-project");
    assert_eq!(project_endpoint_name("--A__b9--"), "stead-a-b9");
    assert_eq!(project_endpoint_name(""), "stead-project");
    assert_eq!(project_endpoint_name("///"), "stead-project");
    assert_eq!(project_endpoint_name("caf\u{e9}"), "stead-caf");
}

#[test]
fn identities_and_tokens_are_numbered() {
    let mut proxy = SessionProxy::default();
    let first = proxy.create_identity("proj");
    let second = proxy.create_identity("proj");
    assert_eq!(first.as_str(), "proj-identity-1");
    assert_eq!(second.as_str(), "proj-identity-2");

    let token = proxy.issue_token("proj", &second).unwrap();
    assert_eq!(token.project(), "proj");
    assert_eq!(token.identity(), &second);
    assert_eq!(token.nonce(), 1);
    assert_eq!(proxy.issue_token("proj", &first).unwrap().nonce(), 2);

    let err = proxy.issue_token("other", &first).unwrap_err();
    assert_eq!(err, SessionProxyError::UnknownIdentity);
}

#[test]
fn module_keys_and_errors() {
    assert_eq!(ModuleManager::module_key(ModuleName::SessionProxy), "session_proxy");
    assert_eq!(ModuleManager::module_key(ModuleName::ContextGenerator), "context_generator");
    let mut modules = ModuleManager::default();
    modules.disable(ModuleName::ContextGenerator);
    assert_eq!(
        modules.ensure_enabled(ModuleName::ContextGenerator),
        Err(ModuleError::ModuleDisabled(ModuleName::ContextGenerator))
    );
    assert!(modules.ensure_enabled(ModuleName::SessionProxy).is_ok());
}

#[test]
fn session_endpoint_url_uses_assigned_port() {
    let mut proxy = SessionProxy::default();
    let modules = ModuleManager::default();
    let endpoint = proxy
        .resolve_project_endpoint(&modules, "Demo", "agent-a")
        .unwrap()
        .unwrap();
    assert_eq!(endpoint.project, "Demo");
    assert_eq!(endpoint.name, "stead-demo");
    assert_eq!(endpoint.port, 4100);
    assert_eq!(endpoint.url, "http://stead-demo.localhost:4100");
    let other_owner = proxy.resolve_project_endpoint(&modules, "Demo", "agent-b").unwrap();
    assert!(other_owner.is_none());
}

struct FailingProvider;

impl ContextProvider for FailingProvider {
    fn name(&self) -> &'static str {
        "failing"
    }

    fn generate(&self, _prompt: &str) -> Result<String, ContextProviderError> {
        Err(ContextProviderError::Failed("boom".to_string()))
    }
}

#[test]
fn failed_primary_skips_the_fallback() {
    let generator = ContextGenerator::new(Box::new(FailingProvider), Some(Box::new(FallbackProvider)));
    let context = generator.generate("Task", &[ContextFragment::new("b", "two", "docs/b.md"), ContextFragment::new("a", "one", "docs/a.md")]);
    assert_eq!(context.provider, "deterministic-fallback");
    assert_eq!(confidence_score(context.confidence), 0.4);
    assert_eq!(context.prompt, "Task: Task\n[a] one\n[b] two");
    assert_eq!(context.citations.len(), 2);
    assert_eq!(context.citations[1].citation, "docs/b.md");
}

#[test]
fn fallback_provider_reports_medium_confidence() {
    let generator = ContextGenerator::new(
        Box::new(UnavailableProvider),
        Some(Box::new(FallbackProvider)),
    );
    let context = generator.generate("T", &[]);
    assert_eq!(context.prompt, "Task: T");
    assert_eq!(confidence_score(context.confidence), 0.7);
    assert!(context.citations.is_empty());
}
