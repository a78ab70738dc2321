//! Which local tool a `tool_execute` request runs. File tools need a
//! workspace; a tool this client does not have is refused, and the daemon,
//! which receives the refusal, adapts. Shell commands need a per-command
//! approval and are handled by the turn loop instead.

use vstd::prelude::*;
use crate::text::{push_str, str_eq, to_string};

verus! {

/// A tool this client runs.
pub enum ToolRoute {
    ReadFile,
    WriteFile,
    EditFile,
    ComputeFooting,
    SearchCompany,
    LoadFinancials,
}

/// The tool named `name`, if this client has it.
pub open spec fn route_of(name: Seq<char>) -> Option<ToolRoute> {
    if name == "read_file"@ {
        Some(ToolRoute::ReadFile)
    } else if name == "write_file"@ {
        Some(ToolRoute::WriteFile)
    } else if name == "edit_file"@ {
        Some(ToolRoute::EditFile)
    } else if name == "compute_footing"@ {
        Some(ToolRoute::ComputeFooting)
    } else if name == "search_company"@ {
        Some(ToolRoute::SearchCompany)
    } else if name == "load_financials"@ {
        Some(ToolRoute::LoadFinancials)
    } else {
        None
    }
}

/// A file tool (it works inside the workspace).
pub open spec fn is_file_tool(t: ToolRoute) -> bool {
    t is ReadFile || t is WriteFile || t is EditFile
}

/// "도구 '{name}' 는 이 클라이언트에서 지원하지 않습니다."
pub open spec fn unsupported_text(name: Seq<char>) -> Seq<char> {
    "도구 '"@ + name + "' 는 이 클라이언트에서 지원하지 않습니다."@
}

/// The tool to run for `name`: refused when this client has no such tool,
/// and refused for a file tool when no workspace is set.
pub fn route_tool(name: &str, has_workspace: bool) -> (r: Result<ToolRoute, String>)
    ensures
        match route_of(name@) {
            None => r is Err && r->Err_0@ == unsupported_text(name@),
            Some(t) => if is_file_tool(t) && !has_workspace {
                r is Err && r->Err_0@ == "워크스페이스 미설정 — 폴더를 먼저 지정하세요(설정)."@
            } else {
                r is Ok && r->Ok_0 == t
            },
        },
{
    let t = if str_eq(name, "read_file") {
        ToolRoute::ReadFile
    } else if str_eq(name, "write_file") {
        ToolRoute::WriteFile
    } else if str_eq(name, "edit_file") {
        ToolRoute::EditFile
    } else if str_eq(name, "compute_footing") {
        ToolRoute::ComputeFooting
    } else if str_eq(name, "search_company") {
        ToolRoute::SearchCompany
    } else if str_eq(name, "load_financials") {
        ToolRoute::LoadFinancials
    } else {
        let mut e = to_string("도구 '");
        push_str(&mut e, name);
        push_str(&mut e, "' 는 이 클라이언트에서 지원하지 않습니다.");
        return Err(e);
    };
    let file = match t {
        ToolRoute::ReadFile | ToolRoute::WriteFile | ToolRoute::EditFile => true,
        _ => false,
    };
    if file && !has_workspace {
        return Err(to_string("워크스페이스 미설정 — 폴더를 먼저 지정하세요(설정)."));
    }
    Ok(t)
}

} // verus!
