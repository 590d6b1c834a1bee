use stead::sessions::{query_sessions, CliType, SessionRecord, UsfError};

#[test]
fn unified_listing_sorts_by_recency_and_filters_by_cli_and_text() {
    let sessions = vec![
        SessionRecord {
            cli: CliType::Claude,
            id: "cld-1".into(),
            project_path: "/tmp/a".into(),
            title: "Auth patch".into(),
            updated_at: 10,
            message_count: 3,
        },
        SessionRecord {
            cli: CliType::Codex,
            id: "codex-1".into(),
            project_path: "/tmp/b".into(),
            title: "Parser rewrite".into(),
            updated_at: 30,
            message_count: 4,
        },
        SessionRecord {
            cli: CliType::OpenCode,
            id: "open-1".into(),
            project_path: "/tmp/c".into(),
            title: "Health endpoint".into(),
            updated_at: 20,
            message_count: 2,
        },
    ];

    let all = query_sessions(&sessions, None, None);
    let ordered_ids: Vec<&str> = all.iter().map(|s| s.id.as_str()).collect();
    assert_eq!(ordered_ids, vec!["codex-1", "open-1", "cld-1"]);

    let only_codex = query_sessions(&sessions, Some(CliType::Codex), None);
    assert_eq!(only_codex.len(), 1);
    assert_eq!(only_codex[0].id, "codex-1");

    let auth_matches = query_sessions(&sessions, None, Some("auth"));
    assert_eq!(auth_matches.len(), 1);
    assert_eq!(auth_matches[0].id, "cld-1");
}

fn record(id: &str, updated_at: i64) -> SessionRecord {
    SessionRecord {
        cli: CliType::Claude,
        id: id.to_string(),
        project_path: "/Work/Repo".to_string(),
        title: "Title".to_string(),
        updated_at,
        message_count: 1,
    }
}

#[test]
fn ties_on_recency_are_broken_by_id() {
    let sessions = vec![record("b", 5), record("a", 5), record("c", 7)];
    let ids: Vec<String> = query_sessions(&sessions, None, None).into_iter().map(|s| s.id).collect();
    assert_eq!(ids, vec!["c", "a", "b"]);
}

#[test]
fn text_filter_ignores_ascii_case_and_spans_fields() {
    let sessions = vec![record("x1", 1)];
    assert_eq!(query_sessions(&sessions, None, Some("WORK/repo")).len(), 1);
    assert_eq!(query_sessions(&sessions, None, Some("x1 title")).len(), 1);
    assert_eq!(query_sessions(&sessions, None, Some("")).len(), 1);
    assert!(query_sessions(&sessions, None, Some("missing")).is_empty());
    assert!(query_sessions(&sessions, Some(CliType::OpenCode), None).is_empty());
    assert!(query_sessions(&[], None, None).is_empty());
}

#[test]
fn usf_errors_carry_code_and_message() {
    let json = UsfError::invalid_json("bad".to_string());
    assert_eq!(json.code(), "invalid_json");
    assert_eq!(json.message(), "bad");
    let format = UsfError::invalid_format("missing id".to_string());
    assert_eq!(format.code(), "invalid_format");
    assert_eq!(format.message(), "missing id");
}

use stead::sessions::{ClaudeAdapter, CodexAdapter, OpenCodeAdapter, SessionAdapter};

#[test]
fn first_adapter_reads_messages() {
    let raw = r#"{"session_id":"s-1","project_path":"/p","updated_at":42,"messages":[{"role":"assistant","content":"hi"},{"role":"user","content":"Fix auth"}],"extra":true}"#;
    let record = ClaudeAdapter.parse(raw).unwrap();
    assert_eq!(record.cli, CliType::Claude);
    assert_eq!(record.id, "s-1");
    assert_eq!(record.project_path, "/p");
    assert_eq!(record.title, "Fix auth");
    assert_eq!(record.updated_at, 42);
    assert_eq!(record.message_count, 2);
}

#[test]
fn codex_adapter_reads_events_and_falls_back_to_untitled() {
    let raw = r#"{"id":"c-9","cwd":"/w","last_updated":7,"events":[{"type":"tool","text":"ls"}]}"#;
    let record = CodexAdapter.parse(raw).unwrap();
    assert_eq!(record.cli, CliType::Codex);
    assert_eq!(record.title, "untitled session");
    assert_eq!(record.message_count, 1);
}

#[test]
fn opencode_adapter_reads_nested_meta() {
    let raw = r#"{"meta":{"session":"o-1","project":"/o","updated":5},"transcript":[{"speaker":"user","message":"Add health"}]}"#;
    let record = OpenCodeAdapter.parse(raw).unwrap();
    assert_eq!(record.cli, CliType::OpenCode);
    assert_eq!(record.id, "o-1");
    assert_eq!(record.title, "Add health");
}

#[test]
fn adapters_report_typed_errors() {
    assert_eq!(CodexAdapter.parse("{not json").unwrap_err().code(), "invalid_json");
    let missing = r#"{"id":"c-1","cwd":"/w","events":[]}"#;
    assert_eq!(CodexAdapter.parse(missing).unwrap_err().code(), "invalid_json");
    let empty = r#"{"meta":{"session":"","project":"/o","updated":5},"transcript":[]}"#;
    assert_eq!(OpenCodeAdapter.parse(empty).unwrap_err().code(), "invalid_format");
    let bad_item = r#"{"session_id":"s","project_path":"/p","updated_at":1,"messages":[{"role":"user"}]}"#;
    assert_eq!(ClaudeAdapter.parse(bad_item).unwrap_err().code(), "invalid_json");
}
