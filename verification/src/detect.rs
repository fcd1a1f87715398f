//! The format auto-detector: given an arbitrary JSON document, decide
//! which layout wrote it.  Candidates are tried most specific first, and a
//! candidate is accepted only when its container is an object holding at
//! least one server.

use vstd::prelude::*;
use vstd::string::StringExecFns;
use crate::adapters::{server_views, spec_parse_std_entries, spec_string_items};
use crate::json::{
    Json, JsonV, jview, jview_obj, json_obj_get, obj_get, lemma_jview_obj,
};
use crate::jsontext::{json_doc_of, parse_json_document};
use crate::types::{McpError, McpServer, McpServerV};

verus! {

/// The layout the detector recognized.
#[derive(Debug, Clone, Copy, PartialEq, Eq, Structural)]
pub enum DetectedFormat {
    /// Servers under the literal key `mcpServers`.
    Standard,
    /// Servers under the literal dotted key `amp.mcpServers`.
    Amp,
    /// Servers under the literal key `servers`.
    Copilot,
    /// Servers under `mcp.servers`.
    Opencode,
}

/// Servers imported from a file, with where they came from.
#[derive(Debug)]
pub struct ImportResult {
    pub servers: Vec<McpServer>,
    pub source_path: String,
    pub detected_format: DetectedFormat,
}

/// How a JSON value is read as environment text on import: strings as
/// they are, numbers by their rendering, booleans as words, anything else
/// not at all.
pub open spec fn spec_value_text(v: JsonV) -> Option<Seq<char>> {
    match v {
        JsonV::Str(s) => Some(s),
        JsonV::Num(t) => Some(t),
        JsonV::Bool(b) => Some(
            if b {
                "true"@
            } else {
                "false"@
            },
        ),
        _ => None,
    }
}

/// The entries of an object whose values read as text, coerced.
pub open spec fn spec_coerced_entries(entries: Seq<(Seq<char>, JsonV)>) -> Seq<
    (Seq<char>, Seq<char>),
>
    decreases entries.len(),
{
    if entries.len() == 0 {
        Seq::empty()
    } else {
        let rest = spec_coerced_entries(entries.drop_last());
        match spec_value_text(entries.last().1) {
            Some(t) => rest.push((entries.last().0, t)),
            None => rest,
        }
    }
}

/// Reading one imported server object: command, arguments, a coerced
/// environment and a url; nothing else is taken.
pub open spec fn spec_parse_import_server(name: Seq<char>, entries: Seq<(Seq<char>, JsonV)>)
    -> McpServerV {
    McpServerV {
        name: name,
        command: match obj_get(entries, "command"@) {
            Some(JsonV::Str(s)) => s,
            _ => Seq::empty(),
        },
        args: match obj_get(entries, "args"@) {
            Some(JsonV::Arr(a)) => Some(spec_string_items(a)),
            _ => None,
        },
        env: match obj_get(entries, "env"@) {
            Some(JsonV::Obj(e)) => Some(spec_coerced_entries(e)),
            _ => None,
        },
        disabled: None,
        url: match obj_get(entries, "url"@) {
            Some(JsonV::Str(s)) => Some(s),
            _ => None,
        },
        target: None,
        extra: None,
    }
}

pub open spec fn spec_parse_import_entries(entries: Seq<(Seq<char>, JsonV)>) -> Seq<McpServerV>
    decreases entries.len(),
{
    if entries.len() == 0 {
        Seq::empty()
    } else {
        let rest = spec_parse_import_entries(entries.drop_last());
        match entries.last().1 {
            JsonV::Obj(cfg) => rest.push(spec_parse_import_server(entries.last().0, cfg)),
            _ => rest,
        }
    }
}

fn collect_coerced_entries(entries: &Vec<(String, Json)>) -> (r: Vec<(String, String)>)
    ensures
        r.deep_view() == spec_coerced_entries(jview_obj(entries@)),
{
    let n = entries.len();
    let mut out: Vec<(String, String)> = Vec::new();
    let mut i: usize = 0;
    proof {
        lemma_jview_obj(entries@);
        assert(jview_obj(entries@.take(0)) =~= Seq::<(Seq<char>, JsonV)>::empty());
        assert(out.deep_view() =~= spec_coerced_entries(jview_obj(entries@.take(0))));
    }
    while i < n
        invariant
            n == entries.len(),
            0 <= i <= n,
            jview_obj(entries@).len() == n,
            forall|k: int| 0 <= k < n ==> jview_obj(entries@)[k] == (entries@[k].0@, jview(
                entries@[k].1,
            )),
            out.deep_view() == spec_coerced_entries(jview_obj(entries@.take(i as int))),
        decreases n - i,
    {
        let ghost gpre = jview_obj(entries@.take(i as int));
        let ghost gcur = jview_obj(entries@.take(i + 1));
        proof {
            lemma_jview_obj(entries@.take(i + 1));
            assert(entries@.take(i + 1).drop_last() =~= entries@.take(i as int));
            assert(entries@.take(i + 1).last() == entries@[i as int]);
            assert(gcur.drop_last() =~= gpre);
            assert(gcur.last() == (entries@[i as int].0@, jview(entries@[i as int].1)));
        }
        let text: Option<String> = match &entries[i].1 {
            Json::Str(s) => Some(s.clone()),
            Json::Num(t) => Some(t.clone()),
            Json::Bool(b) => {
                if *b {
                    Some(crate::text::str_to_string("true"))
                } else {
                    Some(crate::text::str_to_string("false"))
                }
            },
            _ => None,
        };
        match text {
            Some(t) => {
                let ghost dpre = out.deep_view();
                let ghost gt = t@;
                out.push((entries[i].0.clone(), t));
                proof {
                    assert(out.deep_view() =~= dpre.push((entries@[i as int].0@, gt)));
                    assert(spec_value_text(jview(entries@[i as int].1)) == Some(gt));
                }
            },
            None => {
                proof {
                    assert(spec_value_text(jview(entries@[i as int].1)) is None);
                }
            },
        }
        i += 1;
    }
    proof {
        assert(entries@.take(n as int) =~= entries@);
    }
    out
}

fn parse_import_server_object(name: String, cfg: &Vec<(String, Json)>) -> (r: McpServer)
    ensures
        r@ == spec_parse_import_server(name@, jview_obj(cfg@)),
{
    let command: String = match json_obj_get(cfg, "command") {
        Some(Json::Str(s)) => s.clone(),
        _ => String::new(),
    };
    let args: Option<Vec<String>> = match json_obj_get(cfg, "args") {
        Some(Json::Arr(items)) => Some(crate::adapters::collect_string_items(items)),
        _ => None,
    };
    let env: Option<Vec<(String, String)>> = match json_obj_get(cfg, "env") {
        Some(Json::Obj(e)) => Some(collect_coerced_entries(e)),
        _ => None,
    };
    let url: Option<String> = match json_obj_get(cfg, "url") {
        Some(Json::Str(s)) => Some(s.clone()),
        _ => None,
    };
    McpServer {
        name,
        command,
        args,
        env,
        disabled: None,
        url,
        target: None,
        extra: None,
    }
}

/// Reads every object-valued entry of a container as an imported server.
pub fn parse_servers_from_object(servers: &Vec<(String, Json)>) -> (r: Vec<McpServer>)
    ensures
        server_views(r@) == spec_parse_import_entries(jview_obj(servers@)),
{
    let n = servers.len();
    let mut out: Vec<McpServer> = Vec::new();
    let mut i: usize = 0;
    proof {
        lemma_jview_obj(servers@);
        assert(jview_obj(servers@.take(0)) =~= Seq::<(Seq<char>, JsonV)>::empty());
        assert(server_views(out@) =~= spec_parse_import_entries(jview_obj(servers@.take(0))));
    }
    while i < n
        invariant
            n == servers.len(),
            0 <= i <= n,
            jview_obj(servers@).len() == n,
            forall|k: int| 0 <= k < n ==> jview_obj(servers@)[k] == (servers@[k].0@, jview(
                servers@[k].1,
            )),
            server_views(out@) == spec_parse_import_entries(jview_obj(servers@.take(i as int))),
        decreases n - i,
    {
        let ghost gpre = jview_obj(servers@.take(i as int));
        let ghost gcur = jview_obj(servers@.take(i + 1));
        proof {
            lemma_jview_obj(servers@.take(i + 1));
            assert(servers@.take(i + 1).drop_last() =~= servers@.take(i as int));
            assert(servers@.take(i + 1).last() == servers@[i as int]);
            assert(gcur.drop_last() =~= gpre);
            assert(gcur.last() == (servers@[i as int].0@, jview(servers@[i as int].1)));
        }
        match &servers[i].1 {
            Json::Obj(cfg) => {
                let name = servers[i].0.clone();
                let s = parse_import_server_object(name, cfg);
                let ghost opre = server_views(out@);
                out.push(s);
                proof {
                    assert(server_views(out@) =~= opre.push(s@));
                }
            },
            _ => {},
        }
        i += 1;
    }
    proof {
        assert(servers@.take(n as int) =~= servers@);
    }
    out
}

/// The servers an Amp-style document holds: a Standard container under
/// the literal dotted key.
pub open spec fn detect_amp(root: JsonV) -> Seq<McpServerV> {
    match root {
        JsonV::Obj(e) => match obj_get(e, "amp.mcpServers"@) {
            Some(JsonV::Obj(s)) => spec_parse_std_entries(s),
            _ => Seq::empty(),
        },
        _ => Seq::empty(),
    }
}

/// The servers an OpenCode-style document holds under `mcp.servers`.
pub open spec fn detect_opencode(root: JsonV) -> Seq<McpServerV> {
    match root {
        JsonV::Obj(e) => match obj_get(e, "mcp"@) {
            Some(JsonV::Obj(me)) => match obj_get(me, "servers"@) {
                Some(JsonV::Obj(s)) => spec_parse_import_entries(s),
                _ => Seq::empty(),
            },
            _ => Seq::empty(),
        },
        _ => Seq::empty(),
    }
}

/// Whether the document has any `mcp` key at its root.
pub open spec fn has_mcp_key(root: JsonV) -> bool {
    match root {
        JsonV::Obj(e) => obj_get(e, "mcp"@) is Some,
        _ => false,
    }
}

/// The servers a Copilot-style document holds under `servers`.
pub open spec fn detect_copilot(root: JsonV) -> Seq<McpServerV> {
    match root {
        JsonV::Obj(e) => match obj_get(e, "servers"@) {
            Some(JsonV::Obj(s)) => spec_parse_import_entries(s),
            _ => Seq::empty(),
        },
        _ => Seq::empty(),
    }
}

/// The servers a Standard document holds under `mcpServers`.
pub open spec fn detect_standard(root: JsonV) -> Seq<McpServerV> {
    match root {
        JsonV::Obj(e) => match obj_get(e, "mcpServers"@) {
            Some(JsonV::Obj(s)) => spec_parse_std_entries(s),
            _ => Seq::empty(),
        },
        _ => Seq::empty(),
    }
}

/// The detector: candidates in order of specificity, each accepted only
/// when it yields at least one server, and the Copilot shape only when no
/// `mcp` key could claim the document for OpenCode.
pub open spec fn spec_detect(root: JsonV) -> Option<(Seq<McpServerV>, DetectedFormat)> {
    if detect_amp(root).len() > 0 {
        Some((detect_amp(root), DetectedFormat::Amp))
    } else if detect_opencode(root).len() > 0 {
        Some((detect_opencode(root), DetectedFormat::Opencode))
    } else if !has_mcp_key(root) && detect_copilot(root).len() > 0 {
        Some((detect_copilot(root), DetectedFormat::Copilot))
    } else if detect_standard(root).len() > 0 {
        Some((detect_standard(root), DetectedFormat::Standard))
    } else {
        None
    }
}

/// Detector precedence: a document carrying a non-empty `amp.mcpServers`
/// container is recognized as Amp, whatever other keys it carries.
pub proof fn lemma_detector_precedence(root: JsonV)
    requires
        detect_amp(root).len() > 0,
    ensures
        spec_detect(root) == Some((detect_amp(root), DetectedFormat::Amp)),
{
}

/// Runs the detector over an already-parsed document.
pub fn detect_in_root(root: &Json) -> (r: Option<(Vec<McpServer>, DetectedFormat)>)
    ensures
        match r {
            Some(p) => spec_detect(root@) == Some((server_views(p.0@), p.1)),
            None => spec_detect(root@) is None,
        },
{
    match root {
        Json::Obj(root_entries) => {
            match json_obj_get(root_entries, "amp.mcpServers") {
                Some(Json::Obj(servers)) => {
                    let list = crate::adapters::parse_server_entries(servers);
                    if list.len() > 0 {
                        proof {
                            assert(server_views(list@).len() > 0);
                        }
                        return Some((list, DetectedFormat::Amp));
                    }
                    proof {
                        assert(server_views(list@).len() == 0);
                    }
                },
                _ => {},
            }
            match json_obj_get(root_entries, "mcp") {
                Some(Json::Obj(me)) => {
                    match json_obj_get(me, "servers") {
                        Some(Json::Obj(servers)) => {
                            let list = parse_servers_from_object(servers);
                            if list.len() > 0 {
                                proof {
                                    assert(server_views(list@).len() > 0);
                                }
                                return Some((list, DetectedFormat::Opencode));
                            }
                            proof {
                                assert(server_views(list@).len() == 0);
                            }
                        },
                        _ => {},
                    }
                },
                _ => {},
            }
            let mcp_absent = match json_obj_get(root_entries, "mcp") {
                Some(_) => false,
                None => true,
            };
            if mcp_absent {
                match json_obj_get(root_entries, "servers") {
                    Some(Json::Obj(servers)) => {
                        let list = parse_servers_from_object(servers);
                        if list.len() > 0 {
                            proof {
                                assert(server_views(list@).len() > 0);
                            }
                            return Some((list, DetectedFormat::Copilot));
                        }
                        proof {
                            assert(server_views(list@).len() == 0);
                        }
                    },
                    _ => {},
                }
            }
            match json_obj_get(root_entries, "mcpServers") {
                Some(Json::Obj(servers)) => {
                    let list = crate::adapters::parse_server_entries(servers);
                    if list.len() > 0 {
                        proof {
                            assert(server_views(list@).len() > 0);
                        }
                        return Some((list, DetectedFormat::Standard));
                    }
                    proof {
                        assert(server_views(list@).len() == 0);
                    }
                },
                _ => {},
            }
            None
        },
        _ => None,
    }
}

/// Parses raw text and detects which layout wrote it.  Text that is not
/// JSON yields the parser's error; a document in no recognized layout
/// yields a format error naming the keys that were tried.
pub fn parse_mcp_config_from_content(content: &str) -> (r: Result<
    (Vec<McpServer>, DetectedFormat),
    McpError,
>)
    ensures
        (r matches Ok(p) ==> json_doc_of(content@) matches Some(root) && spec_detect(root) == Some(
            (server_views(p.0@), p.1),
        )),
        (r matches Err(e) ==> (json_doc_of(content@) is None && e is Json) || (json_doc_of(
            content@,
        ) matches Some(root) && spec_detect(root) is None && e is InvalidFormat)),
{
    let root = match parse_json_document(content) {
        Ok(j) => j,
        Err(e) => {
            return Err(e);
        },
    };
    match detect_in_root(&root) {
        Some(p) => Ok(p),
        None => Err(
            McpError::InvalidFormat(
                crate::text::str_to_string(
                    "No recognized MCP config format found. Expected one of: mcpServers, amp.mcpServers, servers, mcp.servers",
                ),
            ),
        ),
    }
}

} // verus!
