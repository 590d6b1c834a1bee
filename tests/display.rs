use stead::display::{to_base36, truncate, truncate_line};
use stead::lifecycle::ContractStatus;
use stead::tools::UniversalTool;

#[test]
fn list_test_truncate() {
    assert_eq!(truncate("hello", 10), "hello");
    assert_eq!(truncate("hello world", 8), "hello...");
    assert_eq!(truncate("hi", 2), "hi");
    assert_eq!(truncate("héllo wörld", 8), "héllo...");
    assert_eq!(truncate("日本語テスト", 5), "日本...");
}

#[test]
fn session_test_truncate() {
    assert_eq!(truncate_line("short", 10), "short");
    assert_eq!(truncate_line("this is a longer string", 10), "this is...");
    assert_eq!(truncate_line("line1\nline2", 20), "line1");
}

#[test]
fn codex_test_truncate() {
    assert_eq!(truncate_line("short", 10), "short");
    assert_eq!(truncate_line("this is a longer string", 10), "this is...");
}

#[test]
fn opencode_test_truncate() {
    assert_eq!(truncate_line("short", 10), "short");
    assert_eq!(truncate_line("this is a longer string", 10), "this is...");
}

#[test]
fn truncate_line_trims_and_drops_carriage_returns() {
    assert_eq!(truncate_line("  \t padded \r\nnext", 20), "padded ");
    assert_eq!(truncate_line("   ", 5), "");
    assert_eq!(truncate_line("abcdef", 3), "...");
    assert_eq!(truncate("abcdef", 2), "...");
}

#[test]
fn contract_test_base36_conversion() {
    assert_eq!(to_base36(0), "0");
    assert_eq!(to_base36(10), "a");
    assert_eq!(to_base36(35), "z");
    assert_eq!(to_base36(36), "10");
}

#[test]
fn base36_of_large_numbers() {
    assert_eq!(to_base36(36 * 36 - 1), "zz");
    assert_eq!(to_base36(u64::MAX), "3w5e11264sgsf");
}

#[test]
fn test_valid_transitions() {
    assert!(ContractStatus::Pending.can_transition_to(ContractStatus::Ready));
    assert!(ContractStatus::Pending.can_transition_to(ContractStatus::Cancelled));
    assert!(!ContractStatus::Pending.can_transition_to(ContractStatus::Executing));
    assert!(!ContractStatus::Completed.can_transition_to(ContractStatus::Failed));
}

#[test]
fn test_tool_mapping_codex() {
    assert_eq!(UniversalTool::from_codex("read_file"), UniversalTool::Read);
    assert_eq!(UniversalTool::from_codex("shell"), UniversalTool::Bash);
    assert_eq!(UniversalTool::from_codex("apply_diff"), UniversalTool::Edit);
}

#[test]
fn test_tool_mapping_opencode() {
    assert_eq!(UniversalTool::from_opencode("read"), UniversalTool::Read);
    assert_eq!(UniversalTool::from_opencode("bash"), UniversalTool::Bash);
    assert_eq!(UniversalTool::from_opencode("file_edit"), UniversalTool::Edit);
}

#[test]
fn unknown_tool_names_map_to_unknown() {
    assert_eq!(UniversalTool::from_codex("Read"), UniversalTool::Unknown);
    assert_eq!(UniversalTool::from_opencode("list_dir"), UniversalTool::Unknown);
    assert_eq!(UniversalTool::from_codex("spawn_agent"), UniversalTool::Task);
    assert_eq!(UniversalTool::from_opencode("confirm"), UniversalTool::Ask);
}
