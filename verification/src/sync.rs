//! The synchronization engine around the merge: reading a tool's servers
//! out of its document, writing the reconciled list back into it, and the
//! decisions of a sync run.  All file handling stays with the caller.

use vstd::prelude::*;
use vstd::string::StrSliceExecFns;
use vstd::string::StringExecFns;
use crate::adapters::{
    parse_copilot_mcp_servers, parse_opencode_mcp_servers, parse_standard_mcp_servers,
    server_views, servers_to_tool_format, spec_parse_copilot, spec_parse_opencode,
    spec_parse_standard, spec_serialize_tool,
};
use crate::json::{Json, JsonV, json_obj_get, obj_get};
use crate::jsonpath::{
    has_dotted_sibling, json_obj_set, set_json_value, spec_has_dotted_sibling, spec_obj_set,
    spec_set_json_value, spec_walk_set,
};
use crate::text::{
    contains_char, dec_string, index_of, lemma_index_of, spec_dec, spec_index_of, str_to_string,
};
use crate::types::{
    clone_server, McpError, McpMergeResult, McpServer, McpServerV, McpSyncResult, McpSyncPreview,
    McpToolInfo, McpToolInfoV, McpToolFormat,
};

verus! {

/// Reading a Standard document along a dotted path: a missing segment or
/// a non-object in the middle yields the empty list; the final segment is
/// read as a Standard container.
pub open spec fn spec_read_walk(v: JsonV, path: Seq<char>) -> Option<Seq<McpServerV>>
    decreases path.len(),
    via spec_read_walk_decreases
{
    let i = spec_index_of(path, '.');
    if i == path.len() {
        spec_parse_standard(v, path)
    } else {
        match v {
            JsonV::Obj(e) => match obj_get(e, path.take(i)) {
                Some(child) => spec_read_walk(child, path.skip(i + 1)),
                None => Some(Seq::<McpServerV>::empty()),
            },
            _ => Some(Seq::<McpServerV>::empty()),
        }
    }
}

#[via_fn]
proof fn spec_read_walk_decreases(v: JsonV, path: Seq<char>) {
    lemma_index_of(path, '.');
}

/// Reading a tool's servers out of its document: the tool's layout
/// decides the shape, and for the Standard layout a dotted path is tried
/// as a literal key first and walked only when that key holds no object.
pub open spec fn spec_read_tool(root: JsonV, tool: McpToolInfoV) -> Option<Seq<McpServerV>> {
    match tool.format {
        McpToolFormat::Copilot => spec_parse_copilot(root),
        McpToolFormat::Opencode => spec_parse_opencode(root),
        McpToolFormat::Standard => {
            let literal_hit = match root {
                JsonV::Obj(e) => match obj_get(e, tool.json_path) {
                    Some(JsonV::Obj(_)) => true,
                    _ => false,
                },
                _ => false,
            };
            if literal_hit {
                spec_parse_standard(root, tool.json_path)
            } else if tool.json_path.contains('.') {
                spec_read_walk(root, tool.json_path)
            } else {
                spec_parse_standard(root, tool.json_path)
            }
        },
    }
}

fn read_walk(v: &Json, path: &str) -> (r: Result<Vec<McpServer>, McpError>)
    ensures
        match r {
            Ok(list) => spec_read_walk(v@, path@) == Some(server_views(list@)),
            Err(e) => spec_read_walk(v@, path@) is None && e is InvalidFormat,
        },
    decreases path@.len(),
{
    proof {
        lemma_index_of(path@, '.');
    }
    let len = path.unicode_len();
    let idx = index_of(path, '.');
    match idx {
        None => parse_standard_mcp_servers(v, path),
        Some(i) => {
            let head = path.substring_char(0, i);
            let tail = path.substring_char(i + 1, len);
            proof {
                assert(head@ =~= path@.take(i as int));
                assert(tail@ =~= path@.skip(i + 1));
            }
            match v {
                Json::Obj(e) => match json_obj_get(e, head) {
                    Some(child) => read_walk(child, tail),
                    None => {
                        let r: Vec<McpServer> = Vec::new();
                        proof {
                            assert(server_views(r@) =~= Seq::<McpServerV>::empty());
                        }
                        Ok(r)
                    },
                },
                _ => {
                    let r: Vec<McpServer> = Vec::new();
                    proof {
                        assert(server_views(r@) =~= Seq::<McpServerV>::empty());
                    }
                    Ok(r)
                },
            }
        },
    }
}

/// Reads a tool's servers out of its already-parsed document.
pub fn read_tool_mcp_servers(root: &Json, tool: &McpToolInfo) -> (r: Result<
    Vec<McpServer>,
    McpError,
>)
    ensures
        match r {
            Ok(list) => spec_read_tool(root@, tool@) == Some(server_views(list@)),
            Err(e) => spec_read_tool(root@, tool@) is None && e is InvalidFormat,
        },
{
    match tool.format {
        McpToolFormat::Copilot => parse_copilot_mcp_servers(root),
        McpToolFormat::Opencode => parse_opencode_mcp_servers(root),
        McpToolFormat::Standard => {
            let literal_hit = match root {
                Json::Obj(e) => match json_obj_get(e, tool.json_path.as_str()) {
                    Some(Json::Obj(_)) => true,
                    _ => false,
                },
                _ => false,
            };
            if literal_hit {
                parse_standard_mcp_servers(root, tool.json_path.as_str())
            } else if contains_char(tool.json_path.as_str(), '.') {
                read_walk(root, tool.json_path.as_str())
            } else {
                parse_standard_mcp_servers(root, tool.json_path.as_str())
            }
        },
    }
}

/// Writing the reconciled list back into a tool's document.  For the
/// Standard layout, a dotted path is written to the literal key when that
/// key already exists or when a dotted sibling key shares its first
/// segment; otherwise it is walked, creating missing intermediate
/// objects.  A non-object blocking the walk makes the write impossible.
pub open spec fn spec_update_tool_config(
    root: JsonV,
    tool: McpToolInfoV,
    list: Seq<McpServerV>,
) -> Option<JsonV> {
    let payload = spec_serialize_tool(list, tool.format);
    match tool.format {
        McpToolFormat::Copilot => match root {
            JsonV::Obj(e) => Some(JsonV::Obj(spec_obj_set(e, "servers"@, payload))),
            _ => Some(root),
        },
        McpToolFormat::Opencode => match root {
            JsonV::Obj(e) => Some(JsonV::Obj(spec_obj_set(e, "mcp"@, payload))),
            _ => Some(root),
        },
        McpToolFormat::Standard => {
            let path = tool.json_path;
            match root {
                JsonV::Obj(e) => if obj_get(e, path) is Some {
                    Some(JsonV::Obj(spec_obj_set(e, path, payload)))
                } else if path.contains('.') {
                    let prefix = path.take(spec_index_of(path, '.'));
                    if spec_has_dotted_sibling(e, prefix) {
                        Some(JsonV::Obj(spec_obj_set(e, path, payload)))
                    } else {
                        spec_walk_set(root, path, payload)
                    }
                } else {
                    Some(JsonV::Obj(spec_obj_set(e, path, payload)))
                },
                _ => Some(root),
            }
        },
    }
}

/// Writes the reconciled list into a fresh copy of the tool's document.
pub fn update_tool_config(root: &Json, tool: &McpToolInfo, servers: &Vec<McpServer>) -> (r:
    Result<Json, McpError>)
    ensures
        match r {
            Ok(j) => spec_update_tool_config(root@, tool@, server_views(servers@)) == Some(j@),
            Err(e) => spec_update_tool_config(root@, tool@, server_views(servers@)) is None
                && e is InvalidFormat,
        },
{
    let payload = servers_to_tool_format(servers, &tool.format);
    match tool.format {
        McpToolFormat::Copilot => match root {
            Json::Obj(e) => Ok(Json::Obj(json_obj_set(e, "servers", payload))),
            _ => Ok(crate::json::clone_json(root)),
        },
        McpToolFormat::Opencode => match root {
            Json::Obj(e) => Ok(Json::Obj(json_obj_set(e, "mcp", payload))),
            _ => Ok(crate::json::clone_json(root)),
        },
        McpToolFormat::Standard => {
            let path = tool.json_path.as_str();
            match root {
                Json::Obj(e) => {
                    let literal_exists = match json_obj_get(e, path) {
                        Some(_) => true,
                        None => false,
                    };
                    if literal_exists {
                        return Ok(Json::Obj(json_obj_set(e, path, payload)));
                    }
                    proof {
                        lemma_index_of(path@, '.');
                    }
                    let dot = index_of(path, '.');
                    match dot {
                        Some(i) => {
                            let prefix = path.substring_char(0, i);
                            proof {
                                assert(prefix@ =~= path@.take(spec_index_of(path@, '.')));
                                assert(path@[i as int] == '.');
                                assert(path@.contains('.'));
                            }
                            if has_dotted_sibling(e, prefix) {
                                Ok(Json::Obj(json_obj_set(e, path, payload)))
                            } else {
                                match set_json_value(root, path, payload) {
                                    Some(j) => Ok(j),
                                    None => Err(
                                        McpError::InvalidFormat(
                                            str_to_string(
                                                "cannot write through a non-object in the document",
                                            ),
                                        ),
                                    ),
                                }
                            }
                        },
                        None => {
                            proof {
                                if path@.contains('.') {
                                    let w = choose|j: int|
                                        0 <= j < path@.len() && path@[j] == '.';
                                    assert(spec_index_of(path@, '.') < path@.len());
                                }
                            }
                            Ok(Json::Obj(json_obj_set(e, path, payload)))
                        },
                    }
                },
                _ => Ok(crate::json::clone_json(root)),
            }
        },
    }
}

/// Names joined with a comma and a space.
pub open spec fn spec_join_names(names: Seq<Seq<char>>) -> Seq<char>
    decreases names.len(),
{
    if names.len() == 0 {
        Seq::empty()
    } else if names.len() == 1 {
        names[0]
    } else {
        spec_join_names(names.drop_last()) + ", "@ + names.last()
    }
}

/// The message of a sync refused for unresolved conflicts.
pub open spec fn spec_conflict_message(names: Seq<Seq<char>>) -> Seq<char> {
    "Conflicts detected: "@ + spec_join_names(names) + ". Please resolve conflicts first."@
}

/// The message of a completed sync.
pub open spec fn spec_synced_message(total: nat, added: nat, kept: nat) -> Seq<char> {
    "Synced "@ + spec_dec(total) + " servers ("@ + spec_dec(added) + " added, "@ + spec_dec(kept)
        + " kept)"@
}

/// The names of the conflicting servers, in order.
pub open spec fn conflict_names(c: Seq<crate::types::McpServerConflict>) -> Seq<Seq<char>> {
    c.map_values(|x: crate::types::McpServerConflict| x.server_name@)
}

/// The source versions of the conflicting servers, in order.
pub open spec fn conflict_sources(c: Seq<crate::types::McpServerConflict>) -> Seq<McpServerV> {
    c.map_values(|x: crate::types::McpServerConflict| x.source_server@)
}

/// What a sync run does next: either it stops because conflicts await a
/// resolution, or it has the final list to write and the outcome to
/// report.
#[derive(Debug)]
pub enum McpSyncPlan {
    ConflictsPending(McpSyncResult),
    Write(Vec<McpServer>, McpSyncResult),
}

fn join_names(conflicts: &Vec<crate::types::McpServerConflict>) -> (r: String)
    ensures
        r@ == spec_join_names(conflict_names(conflicts@)),
{
    let n = conflicts.len();
    let mut out = String::new();
    let mut i: usize = 0;
    proof {
        assert(conflict_names(conflicts@).take(0) =~= Seq::<Seq<char>>::empty());
        assert(out@ =~= spec_join_names(conflict_names(conflicts@).take(0)));
    }
    while i < n
        invariant
            n == conflicts.len(),
            0 <= i <= n,
            conflict_names(conflicts@).len() == n,
            out@ == spec_join_names(conflict_names(conflicts@).take(i as int)),
        decreases n - i,
    {
        if i > 0 {
            out.append(", ");
        }
        out.append(conflicts[i].server_name.as_str());
        proof {
            let gnames = conflict_names(conflicts@);
            assert(gnames[i as int] == conflicts@[i as int].server_name@);
            assert(gnames.take(i + 1).drop_last() =~= gnames.take(i as int));
            assert(gnames.take(i + 1).last() == gnames[i as int]);
            if i == 0 {
                assert(out@ =~= spec_join_names(gnames.take(1)));
            } else {
                assert(out@ =~= spec_join_names(gnames.take(i + 1)));
            }
        }
        i += 1;
    }
    proof {
        assert(conflict_names(conflicts@).take(n as int) =~= conflict_names(conflicts@));
    }
    out
}

/// Decides one sync run from its merge: with unresolved conflicts and no
/// resolutions the run stops; otherwise the final list is everything
/// kept, then everything added, then the resolutions, or, by default,
/// the source version of every conflict.
pub fn plan_sync(
    tool_id: &str,
    merge: &McpMergeResult,
    resolved_conflicts: Option<Vec<McpServer>>,
) -> (r: McpSyncPlan)
    requires
        merge.kept@.len() + merge.added@.len() + merge.conflicts@.len() <= u32::MAX,
        (resolved_conflicts matches Some(rv) ==> merge.kept@.len() + merge.added@.len()
            + rv@.len() <= u32::MAX),
    ensures
        merge.conflicts@.len() > 0 && resolved_conflicts is None ==> (r matches
            McpSyncPlan::ConflictsPending(res) && !res.success && res.servers_written == 0
            && res.tool_id@ == tool_id@ && res.message@ == spec_conflict_message(
            conflict_names(merge.conflicts@),
        )),
        !(merge.conflicts@.len() > 0 && resolved_conflicts is None) ==> (r matches
            McpSyncPlan::Write(final_servers, res) && server_views(final_servers@) == server_views(
            merge.kept@,
        ) + server_views(merge.added@) + (match resolved_conflicts {
            Some(rv) => server_views(rv@),
            None => conflict_sources(merge.conflicts@),
        }) && res.success && res.tool_id@ == tool_id@ && res.servers_written
            == final_servers@.len() && res.message@ == spec_synced_message(
            final_servers@.len() as nat,
            merge.added@.len() as nat,
            merge.kept@.len() as nat,
        )),
{
    if merge.conflicts.len() > 0 && resolved_conflicts.is_none() {
        let mut message = str_to_string("Conflicts detected: ");
        let names = join_names(&merge.conflicts);
        message.append(names.as_str());
        message.append(". Please resolve conflicts first.");
        return McpSyncPlan::ConflictsPending(
            McpSyncResult {
                tool_id: str_to_string(tool_id),
                success: false,
                message,
                servers_written: 0,
            },
        );
    }
    let mut final_servers: Vec<McpServer> = Vec::new();
    let kept_n = merge.kept.len();
    let mut i: usize = 0;
    proof {
        assert(server_views(final_servers@) =~= server_views(merge.kept@).take(0));
    }
    while i < kept_n
        invariant
            kept_n == merge.kept@.len(),
            0 <= i <= kept_n,
            final_servers@.len() == i,
            server_views(final_servers@) == server_views(merge.kept@).take(i as int),
        decreases kept_n - i,
    {
        let c = clone_server(&merge.kept[i]);
        let ghost pre = server_views(final_servers@);
        final_servers.push(c);
        proof {
            assert(server_views(final_servers@) =~= pre.push(merge.kept@[i as int]@));
            assert(server_views(merge.kept@).take(i + 1) =~= server_views(merge.kept@).take(
                i as int,
            ).push(server_views(merge.kept@)[i as int]));
        }
        i += 1;
    }
    proof {
        assert(server_views(merge.kept@).take(kept_n as int) =~= server_views(merge.kept@));
    }
    let added_n = merge.added.len();
    let mut j: usize = 0;
    let ghost gkept = server_views(merge.kept@);
    while j < added_n
        invariant
            added_n == merge.added@.len(),
            0 <= j <= added_n,
            gkept == server_views(merge.kept@),
            final_servers@.len() == merge.kept@.len() + j,
            server_views(final_servers@) == gkept + server_views(merge.added@).take(j as int),
        decreases added_n - j,
    {
        let c = clone_server(&merge.added[j]);
        let ghost pre = server_views(final_servers@);
        final_servers.push(c);
        proof {
            assert(server_views(final_servers@) =~= pre.push(merge.added@[j as int]@));
            assert(gkept + server_views(merge.added@).take(j + 1) =~= (gkept + server_views(
                merge.added@,
            ).take(j as int)).push(server_views(merge.added@)[j as int]));
        }
        j += 1;
    }
    proof {
        assert(server_views(merge.added@).take(added_n as int) =~= server_views(merge.added@));
    }
    let ghost gbase = server_views(merge.kept@) + server_views(merge.added@);
    match resolved_conflicts {
        Some(rv) => {
            let rv_n = rv.len();
            let mut k: usize = 0;
            while k < rv_n
                invariant
                    rv_n == rv@.len(),
                    0 <= k <= rv_n,
                    gbase == server_views(merge.kept@) + server_views(merge.added@),
                    final_servers@.len() == merge.kept@.len() + merge.added@.len() + k,
                    server_views(final_servers@) == gbase + server_views(rv@).take(k as int),
                decreases rv_n - k,
            {
                let c = clone_server(&rv[k]);
                let ghost pre = server_views(final_servers@);
                final_servers.push(c);
                proof {
                    assert(server_views(final_servers@) =~= pre.push(rv@[k as int]@));
                    assert(gbase + server_views(rv@).take(k + 1) =~= (gbase + server_views(
                        rv@,
                    ).take(k as int)).push(server_views(rv@)[k as int]));
                }
                k += 1;
            }
            proof {
                assert(server_views(rv@).take(rv_n as int) =~= server_views(rv@));
            }
        },
        None => {
            let cf_n = merge.conflicts.len();
            let mut k: usize = 0;
            while k < cf_n
                invariant
                    cf_n == merge.conflicts@.len(),
                    0 <= k <= cf_n,
                    gbase == server_views(merge.kept@) + server_views(merge.added@),
                    final_servers@.len() == merge.kept@.len() + merge.added@.len() + k,
                    server_views(final_servers@) == gbase + conflict_sources(
                        merge.conflicts@,
                    ).take(k as int),
                decreases cf_n - k,
            {
                let c = clone_server(&merge.conflicts[k].source_server);
                let ghost pre = server_views(final_servers@);
                final_servers.push(c);
                proof {
                    assert(server_views(final_servers@) =~= pre.push(
                        merge.conflicts@[k as int].source_server@,
                    ));
                    assert(gbase + conflict_sources(merge.conflicts@).take(k + 1) =~= (gbase
                        + conflict_sources(merge.conflicts@).take(k as int)).push(
                        conflict_sources(merge.conflicts@)[k as int],
                    ));
                }
                k += 1;
            }
            proof {
                assert(conflict_sources(merge.conflicts@).take(cf_n as int) =~= conflict_sources(
                    merge.conflicts@,
                ));
            }
        },
    }
    let total: u32 = final_servers.len() as u32;
    let mut message = str_to_string("Synced ");
    let d1 = dec_string(total);
    message.append(d1.as_str());
    message.append(" servers (");
    let d2 = dec_string(merge.added.len() as u32);
    message.append(d2.as_str());
    message.append(" added, ");
    let d3 = dec_string(merge.kept.len() as u32);
    message.append(d3.as_str());
    message.append(" kept)");
    McpSyncPlan::Write(
        final_servers,
        McpSyncResult {
            tool_id: str_to_string(tool_id),
            success: true,
            message,
            servers_written: total,
        },
    )
}

/// Pairs a merge with its tool for a preview; there is something to do
/// exactly when something would be added or conflicts.
pub fn make_sync_preview(tool: &McpToolInfo, merge: McpMergeResult) -> (r: McpSyncPreview)
    ensures
        r.tool_id@ == tool@.tool_id,
        r.tool_name@ == tool@.name,
        r.has_changes == (merge.added@.len() > 0 || merge.conflicts@.len() > 0),
        r.merge_result == merge,
{
    let has_changes = merge.added.len() > 0 || merge.conflicts.len() > 0;
    McpSyncPreview {
        tool_id: tool.tool_id.clone(),
        tool_name: tool.name.clone(),
        merge_result: merge,
        has_changes,
    }
}

/// The per-tool state shown in a status listing: an uninstalled tool is
/// not synced at all, a document that cannot be read counts as carrying
/// no servers, and only a readable document gets a real comparison.
pub fn derive_tool_state(
    installed: bool,
    read_ok: bool,
    status_if_ok: crate::types::McpSyncStatus,
    count_if_ok: u32,
) -> (r: (crate::types::McpSyncStatus, u32))
    ensures
        !installed ==> r == (crate::types::McpSyncStatus::NotInstalled, 0u32),
        installed && !read_ok ==> r == (crate::types::McpSyncStatus::NoMcp, 0u32),
        installed && read_ok ==> r == (status_if_ok, count_if_ok),
{
    if !installed {
        (crate::types::McpSyncStatus::NotInstalled, 0)
    } else if !read_ok {
        (crate::types::McpSyncStatus::NoMcp, 0)
    } else {
        (status_if_ok, count_if_ok)
    }
}

} // verus!
