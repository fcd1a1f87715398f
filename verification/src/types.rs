//! The canonical server model, the error taxonomy, and the table of known
//! tools with their configuration layouts.

use vstd::prelude::*;
use vstd::string::StringExecFns;
use crate::json::{Json, JsonV, jview, jview_obj};

verus! {

/// Error taxonomy of the library.  Payloads carry the human-readable detail.
#[derive(Debug, PartialEq)]
pub enum McpError {
    /// An expected file or entry was absent.
    NotFound(String),
    /// An underlying storage failure, with its text.
    Io(String),
    /// JSON text that does not parse, with the parser's text.
    Json(String),
    /// The per-user application data directory could not be determined.
    AppDataDir,
    /// A container key exists but has the wrong JSON shape.
    InvalidFormat(String),
    /// An unknown tool identifier.
    ToolNotSupported(String),
}

/// Ghost image of one canonical server entry.
pub struct McpServerV {
    pub name: Seq<char>,
    pub command: Seq<char>,
    pub args: Option<Seq<Seq<char>>>,
    pub env: Option<Seq<(Seq<char>, Seq<char>)>>,
    pub disabled: Option<bool>,
    pub url: Option<Seq<char>>,
    pub target: Option<Seq<char>>,
    pub extra: Option<Seq<(Seq<char>, JsonV)>>,
}

/// One canonical MCP server entry.  `extra` carries, in order, every property
/// of the source object that the model does not understand, so that writing
/// the entry back reproduces them.
#[derive(Debug, PartialEq)]
pub struct McpServer {
    pub name: String,
    pub command: String,
    pub args: Option<Vec<String>>,
    pub env: Option<Vec<(String, String)>>,
    pub disabled: Option<bool>,
    pub url: Option<String>,
    pub target: Option<String>,
    pub extra: Option<Vec<(String, Json)>>,
}

impl View for McpServer {
    type V = McpServerV;

    open spec fn view(&self) -> McpServerV {
        McpServerV {
            name: self.name@,
            command: self.command@,
            args: match self.args {
                Some(a) => Some(a.deep_view()),
                None => None,
            },
            env: match self.env {
                Some(e) => Some(e.deep_view()),
                None => None,
            },
            disabled: self.disabled,
            url: match self.url {
                Some(u) => Some(u@),
                None => None,
            },
            target: match self.target {
                Some(t) => Some(t@),
                None => None,
            },
            extra: match self.extra {
                Some(x) => Some(jview_obj(x@)),
                None => None,
            },
        }
    }
}

/// Where the canonical list of servers comes from.
#[derive(Debug, Clone, Copy, PartialEq, Eq, Structural)]
pub enum McpSourceMode {
    Assistant,
    AppManaged,
}

/// The application's own stored configuration.
#[derive(Debug)]
pub struct McpConfig {
    pub source_mode: McpSourceMode,
    pub servers: Vec<McpServer>,
    pub enabled_tools: Vec<String>,
}

impl Default for McpConfig {
    fn default() -> (r: McpConfig)
        ensures
            r.source_mode == McpSourceMode::Assistant,
            r.servers@.len() == 0,
            r.enabled_tools@.len() == 0,
    {
        McpConfig { source_mode: McpSourceMode::Assistant, servers: Vec::new(), enabled_tools: Vec::new() }
    }
}

/// The JSON layout a tool keeps its servers in.
#[derive(Debug, Clone, Copy, PartialEq, Eq, Structural)]
pub enum McpToolFormat {
    Standard,
    Copilot,
    Opencode,
}

/// Ghost image of a tool description.
pub struct McpToolInfoV {
    pub tool_id: Seq<char>,
    pub config_path: Seq<char>,
    pub json_path: Seq<char>,
    pub format: McpToolFormat,
    pub name: Seq<char>,
}

/// One known tool: where its configuration lives and how it is laid out.
#[derive(Debug)]
pub struct McpToolInfo {
    pub tool_id: String,
    pub config_path: String,
    pub json_path: String,
    pub format: McpToolFormat,
    pub name: String,
}

impl View for McpToolInfo {
    type V = McpToolInfoV;

    open spec fn view(&self) -> McpToolInfoV {
        McpToolInfoV {
            tool_id: self.tool_id@,
            config_path: self.config_path@,
            json_path: self.json_path@,
            format: self.format,
            name: self.name@,
        }
    }
}

/// Agreement of a merge with its target, derived from a merge result.
#[derive(Debug, Clone, Copy, PartialEq, Eq, Structural)]
pub enum McpSyncStatus {
    Synced,
    OutOfSync,
    Conflicts,
    NotInstalled,
    NoMcp,
}

/// Per-tool summary shown before a synchronization.
#[derive(Debug)]
pub struct McpToolStatus {
    pub tool_id: String,
    pub name: String,
    pub installed: bool,
    pub config_path: String,
    pub sync_status: McpSyncStatus,
    pub server_count: u32,
    pub enabled: bool,
}

/// One name present on both sides with differing fields.
#[derive(Debug)]
pub struct McpServerConflict {
    pub server_name: String,
    pub source_server: McpServer,
    pub target_server: McpServer,
    pub tool_id: String,
}

/// Outcome of comparing a source list against a target list.
#[derive(Debug)]
pub struct McpMergeResult {
    pub tool_id: String,
    pub added: Vec<McpServer>,
    pub kept: Vec<McpServer>,
    pub conflicts: Vec<McpServerConflict>,
}

/// A merge result paired with the tool it belongs to.
#[derive(Debug)]
pub struct McpSyncPreview {
    pub tool_id: String,
    pub tool_name: String,
    pub merge_result: McpMergeResult,
    pub has_changes: bool,
}

/// Current and prospective text of a tool's configuration file.
#[derive(Debug)]
pub struct McpConfigPreview {
    pub tool_id: String,
    pub tool_name: String,
    pub config_path: String,
    pub current_content: String,
    pub preview_content: String,
}

/// How a conflicting entry is to be resolved.
#[derive(Debug, Clone, Copy, PartialEq, Eq, Structural)]
pub enum McpConflictResolution {
    Source,
    Target,
    Custom,
}

/// Per-tool outcome of a synchronization.
#[derive(Debug)]
pub struct McpSyncResult {
    pub tool_id: String,
    pub success: bool,
    pub message: String,
    pub servers_written: u32,
}

fn clone_string_vec(v: &Vec<String>) -> (r: Vec<String>)
    ensures
        r.deep_view() == v.deep_view(),
{
    let n = v.len();
    let mut out: Vec<String> = Vec::new();
    let mut i: usize = 0;
    proof {
        assert(out.deep_view() =~= v.deep_view().take(0));
    }
    while i < n
        invariant
            n == v.len(),
            0 <= i <= n,
            out.deep_view() == v.deep_view().take(i as int),
        decreases n - i,
    {
        let ghost opre = out.deep_view();
        out.push(v[i].clone());
        proof {
            assert(out.deep_view() =~= opre.push(v@[i as int]@));
            assert(v.deep_view().take(i + 1) =~= v.deep_view().take(i as int).push(
                v.deep_view()[i as int],
            ));
        }
        i += 1;
    }
    proof {
        assert(v.deep_view().take(n as int) =~= v.deep_view());
    }
    out
}

fn clone_env_vec(v: &Vec<(String, String)>) -> (r: Vec<(String, String)>)
    ensures
        r.deep_view() == v.deep_view(),
{
    let n = v.len();
    let mut out: Vec<(String, String)> = Vec::new();
    let mut i: usize = 0;
    proof {
        assert(out.deep_view() =~= v.deep_view().take(0));
    }
    while i < n
        invariant
            n == v.len(),
            0 <= i <= n,
            out.deep_view() == v.deep_view().take(i as int),
        decreases n - i,
    {
        let ghost opre = out.deep_view();
        out.push((v[i].0.clone(), v[i].1.clone()));
        proof {
            assert(out.deep_view() =~= opre.push((v@[i as int].0@, v@[i as int].1@)));
            assert(v.deep_view()[i as int] == (v@[i as int].0@, v@[i as int].1@));
            assert(v.deep_view().take(i + 1) =~= v.deep_view().take(i as int).push(
                v.deep_view()[i as int],
            ));
        }
        i += 1;
    }
    proof {
        assert(v.deep_view().take(n as int) =~= v.deep_view());
    }
    out
}

fn clone_extra_vec(v: &Vec<(String, Json)>) -> (r: Vec<(String, Json)>)
    ensures
        jview_obj(r@) == jview_obj(v@),
{
    let n = v.len();
    let mut out: Vec<(String, Json)> = Vec::new();
    let mut i: usize = 0;
    proof {
        crate::json::lemma_jview_obj(v@);
        assert(jview_obj(v@.take(0)) =~= Seq::<(Seq<char>, JsonV)>::empty());
        assert(jview_obj(out@) =~= jview_obj(v@.take(0)));
    }
    while i < n
        invariant
            n == v.len(),
            0 <= i <= n,
            jview_obj(v@).len() == n,
            forall|k: int| 0 <= k < n ==> jview_obj(v@)[k] == (v@[k].0@, jview(v@[k].1)),
            jview_obj(out@) == jview_obj(v@.take(i as int)),
        decreases n - i,
    {
        let k = v[i].0.clone();
        let j = crate::json::clone_json(&v[i].1);
        let ghost opre = out@;
        out.push((k, j));
        proof {
            crate::json::lemma_jview_obj(v@.take(i + 1));
            assert(v@.take(i + 1).drop_last() =~= v@.take(i as int));
            assert(v@.take(i + 1).last() == v@[i as int]);
            assert(out@.drop_last() =~= opre);
            assert(jview_obj(out@) == jview_obj(opre).push((k@, jview(j))));
            assert(jview_obj(v@.take(i + 1)) == jview_obj(v@.take(i as int)).push((
                v@[i as int].0@,
                jview(v@[i as int].1),
            )));
        }
        i += 1;
    }
    proof {
        assert(v@.take(n as int) =~= v@);
    }
    out
}

/// A deep copy of a server, equal to the original in the model.
pub fn clone_server(s: &McpServer) -> (r: McpServer)
    ensures
        r@ == s@,
{
    McpServer {
        name: s.name.clone(),
        command: s.command.clone(),
        args: match &s.args {
            Some(a) => Some(clone_string_vec(a)),
            None => None,
        },
        env: match &s.env {
            Some(e) => Some(clone_env_vec(e)),
            None => None,
        },
        disabled: s.disabled,
        url: match &s.url {
            Some(u) => Some(u.clone()),
            None => None,
        },
        target: match &s.target {
            Some(t) => Some(t.clone()),
            None => None,
        },
        extra: match &s.extra {
            Some(x) => Some(clone_extra_vec(x)),
            None => None,
        },
    }
}

/// The fixed table of tools that keep MCP servers, in the order they are
/// tried and listed.
pub open spec fn spec_tool_definitions() -> Seq<McpToolInfoV> {
    seq![
        McpToolInfoV {
            tool_id: "agent-cli"@,
            config_path: "~/.agent.json"@,
            json_path: "mcpServers"@,
            format: McpToolFormat::Standard,
            name: "Agent CLI"@,
        },
        McpToolInfoV {
            tool_id: "gemini-cli"@,
            config_path: "~/.gemini/settings.json"@,
            json_path: "mcpServers"@,
            format: McpToolFormat::Standard,
            name: "Gemini CLI"@,
        },
        McpToolInfoV {
            tool_id: "amp"@,
            config_path: "~/.config/amp/settings.json"@,
            json_path: "amp.mcpServers"@,
            format: McpToolFormat::Standard,
            name: "Amp"@,
        },
        McpToolInfoV {
            tool_id: "copilot-cli"@,
            config_path: "~/.copilot/mcp-config.json"@,
            json_path: "servers"@,
            format: McpToolFormat::Copilot,
            name: "GitHub Copilot CLI"@,
        },
        McpToolInfoV {
            tool_id: "opencode"@,
            config_path: "~/.config/opencode/opencode.json"@,
            json_path: "mcp"@,
            format: McpToolFormat::Opencode,
            name: "OpenCode"@,
        },
        McpToolInfoV {
            tool_id: "factory-droid"@,
            config_path: "~/.factory/mcp.json"@,
            json_path: "mcpServers"@,
            format: McpToolFormat::Standard,
            name: "Factory Droid CLI"@,
        },
        McpToolInfoV {
            tool_id: "qwen-code"@,
            config_path: "~/.qwen/settings.json"@,
            json_path: "mcpServers"@,
            format: McpToolFormat::Standard,
            name: "Qwen Code"@,
        },
    ]
}

fn tool_info(
    tool_id: &str,
    config_path: &str,
    json_path: &str,
    format: McpToolFormat,
    name: &str,
) -> (r: McpToolInfo)
    ensures
        r@ == (McpToolInfoV {
            tool_id: tool_id@,
            config_path: config_path@,
            json_path: json_path@,
            format: format,
            name: name@,
        }),
{
    McpToolInfo {
        tool_id: String::from_str(tool_id),
        config_path: String::from_str(config_path),
        json_path: String::from_str(json_path),
        format,
        name: String::from_str(name),
    }
}

/// The tools this library knows how to synchronize, with the location and
/// layout of each tool's configuration.
pub fn get_mcp_tool_definitions() -> (r: Vec<McpToolInfo>)
    ensures
        r@.len() == spec_tool_definitions().len(),
        forall|i: int| 0 <= i < r@.len() ==> r@[i]@ == spec_tool_definitions()[i],
{
    let mut defs: Vec<McpToolInfo> = Vec::new();
    defs.push(tool_info("agent-cli", "~/.agent.json", "mcpServers", McpToolFormat::Standard, "Agent CLI"));
    defs.push(tool_info("gemini-cli", "~/.gemini/settings.json", "mcpServers", McpToolFormat::Standard, "Gemini CLI"));
    defs.push(tool_info("amp", "~/.config/amp/settings.json", "amp.mcpServers", McpToolFormat::Standard, "Amp"));
    defs.push(tool_info("copilot-cli", "~/.copilot/mcp-config.json", "servers", McpToolFormat::Copilot, "GitHub Copilot CLI"));
    defs.push(tool_info("opencode", "~/.config/opencode/opencode.json", "mcp", McpToolFormat::Opencode, "OpenCode"));
    defs.push(tool_info("factory-droid", "~/.factory/mcp.json", "mcpServers", McpToolFormat::Standard, "Factory Droid CLI"));
    defs.push(tool_info("qwen-code", "~/.qwen/settings.json", "mcpServers", McpToolFormat::Standard, "Qwen Code"));
    defs
}

/// The table entry for `tool_id`, if the tool is known.
pub fn get_mcp_tool_info(tool_id: &str) -> (r: Option<McpToolInfo>)
    ensures
        match r {
            Some(t) => t@.tool_id == tool_id@ && (exists|i: int|
                0 <= i < spec_tool_definitions().len() && spec_tool_definitions()[i] == t@),
            None => forall|i: int|
                0 <= i < spec_tool_definitions().len() ==> (#[trigger] spec_tool_definitions()[i]).tool_id
                    != tool_id@,
        },
{
    let mut defs = get_mcp_tool_definitions();
    let n = defs.len();
    let mut i: usize = 0;
    while i < n
        invariant
            n == defs@.len(),
            0 <= i <= n,
            n == spec_tool_definitions().len(),
            forall|k: int| 0 <= k < n ==> defs@[k]@ == spec_tool_definitions()[k],
            forall|k: int| 0 <= k < i ==> (#[trigger] spec_tool_definitions()[k]).tool_id != tool_id@,
        decreases n - i,
    {
        let mut found = false;
        {
            let d = &defs[i];
            if crate::text::string_eq_str(&d.tool_id, tool_id) {
                found = true;
            }
        }
        if found {
            let d = defs.remove(i);
            proof {
                assert(d@ == spec_tool_definitions()[i as int]);
            }
            return Some(d);
        }
        i += 1;
    }
    None
}

} // verus!
