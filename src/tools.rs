//! Tool names of the external coding tools, mapped to one vocabulary.
use vstd::prelude::*;
use crate::text::str_equal;

verus! {

/// A tool, named the same way whichever coding tool used it.
#[derive(Debug, Clone, Copy, PartialEq, Eq, Structural)]
pub enum UniversalTool {
    Read,
    Write,
    Edit,
    Bash,
    Search,
    Glob,
    List,
    Ask,
    Task,
    WebFetch,
    WebSearch,
    NotebookEdit,
    Unknown,
}

pub open spec fn codex_tool(name: Seq<char>) -> UniversalTool {
    if name == "read_file"@ || name == "read"@ {
        UniversalTool::Read
    } else if name == "write_file"@ || name == "write"@ {
        UniversalTool::Write
    } else if name == "edit_file"@ || name == "edit"@ || name == "apply_diff"@ {
        UniversalTool::Edit
    } else if name == "shell"@ || name == "bash"@ || name == "run_command"@ {
        UniversalTool::Bash
    } else if name == "grep"@ || name == "search"@ {
        UniversalTool::Search
    } else if name == "glob"@ || name == "list_files"@ {
        UniversalTool::Glob
    } else if name == "ls"@ || name == "list_dir"@ {
        UniversalTool::List
    } else if name == "ask"@ || name == "ask_user"@ {
        UniversalTool::Ask
    } else if name == "call_agent"@ || name == "spawn_agent"@ {
        UniversalTool::Task
    } else {
        UniversalTool::Unknown
    }
}

pub open spec fn opencode_tool(name: Seq<char>) -> UniversalTool {
    if name == "read"@ || name == "file_read"@ {
        UniversalTool::Read
    } else if name == "write"@ || name == "file_write"@ {
        UniversalTool::Write
    } else if name == "edit"@ || name == "file_edit"@ {
        UniversalTool::Edit
    } else if name == "bash"@ || name == "shell"@ || name == "execute"@ {
        UniversalTool::Bash
    } else if name == "grep"@ || name == "search"@ {
        UniversalTool::Search
    } else if name == "glob"@ || name == "find"@ {
        UniversalTool::Glob
    } else if name == "ls"@ || name == "list"@ {
        UniversalTool::List
    } else if name == "ask"@ || name == "confirm"@ {
        UniversalTool::Ask
    } else if name == "task"@ || name == "agent"@ {
        UniversalTool::Task
    } else {
        UniversalTool::Unknown
    }
}

fn either(name: &str, a: &str, b: &str) -> (r: bool)
    ensures
        r == (name@ == a@ || name@ == b@),
{
    str_equal(name, a) || str_equal(name, b)
}

impl UniversalTool {
    /// The tool a Codex tool name stands for.
    pub fn from_codex(name: &str) -> (r: UniversalTool)
        ensures
            r == codex_tool(name@),
    {
        if either(name, "read_file", "read") {
            UniversalTool::Read
        } else if either(name, "write_file", "write") {
            UniversalTool::Write
        } else if either(name, "edit_file", "edit") || str_equal(name, "apply_diff") {
            UniversalTool::Edit
        } else if either(name, "shell", "bash") || str_equal(name, "run_command") {
            UniversalTool::Bash
        } else if either(name, "grep", "search") {
            UniversalTool::Search
        } else if either(name, "glob", "list_files") {
            UniversalTool::Glob
        } else if either(name, "ls", "list_dir") {
            UniversalTool::List
        } else if either(name, "ask", "ask_user") {
            UniversalTool::Ask
        } else if either(name, "call_agent", "spawn_agent") {
            UniversalTool::Task
        } else {
            UniversalTool::Unknown
        }
    }

    /// The tool an OpenCode tool name stands for.
    pub fn from_opencode(name: &str) -> (r: UniversalTool)
        ensures
            r == opencode_tool(name@),
    {
        if either(name, "read", "file_read") {
            UniversalTool::Read
        } else if either(name, "write", "file_write") {
            UniversalTool::Write
        } else if either(name, "edit", "file_edit") {
            UniversalTool::Edit
        } else if either(name, "bash", "shell") || str_equal(name, "execute") {
            UniversalTool::Bash
        } else if either(name, "grep", "search") {
            UniversalTool::Search
        } else if either(name, "glob", "find") {
            UniversalTool::Glob
        } else if either(name, "ls", "list") {
            UniversalTool::List
        } else if either(name, "ask", "confirm") {
            UniversalTool::Ask
        } else if either(name, "task", "agent") {
            UniversalTool::Task
        } else {
            UniversalTool::Unknown
        }
    }
}

} // verus!
