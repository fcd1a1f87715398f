//! Operations on the application's own stored configuration: the managed
//! server list and the set of tools enabled for synchronization.  Loading
//! and saving the file stay with the caller.

use vstd::prelude::*;
use vstd::string::StringExecFns;
use crate::adapters::server_views;
use crate::merge::{find_server, has_name, lemma_name_index, name_index};
use crate::text::{str_to_string, string_eq_str};
use crate::types::{clone_server, McpConfig, McpError, McpServer, McpServerV, McpSourceMode};

verus! {

/// The list without any entry of the given name.
pub open spec fn spec_remove_name(list: Seq<McpServerV>, name: Seq<char>) -> Seq<McpServerV>
    decreases list.len(),
{
    if list.len() == 0 {
        Seq::empty()
    } else {
        let rest = spec_remove_name(list.drop_last(), name);
        if list.last().name == name {
            rest
        } else {
            rest.push(list.last())
        }
    }
}

/// Adds a server to the managed list; a name already taken is refused.
pub fn add_mcp_server(config: McpConfig, server: McpServer) -> (r: Result<McpConfig, McpError>)
    ensures
        match r {
            Ok(c) => !has_name(server_views(config.servers@), server@.name) && server_views(
                c.servers@,
            ) == server_views(config.servers@).push(server@) && c.source_mode
                == config.source_mode && c.enabled_tools@ == config.enabled_tools@,
            Err(e) => has_name(server_views(config.servers@), server@.name) && e is InvalidFormat,
        },
{
    let taken = match find_server(&config.servers, server.name.as_str()) {
        Some(_) => true,
        None => false,
    };
    if taken {
        let mut m = str_to_string("Server with name '");
        m.append(server.name.as_str());
        m.append("' already exists");
        return Err(McpError::InvalidFormat(m));
    }
    let McpConfig { source_mode, mut servers, enabled_tools } = config;
    let ghost pre = server_views(servers@);
    let ghost gs = server@;
    servers.push(server);
    proof {
        assert(server_views(servers@) =~= pre.push(gs));
    }
    Ok(McpConfig { source_mode, servers, enabled_tools })
}

/// Replaces the server once listed under `original_name`; renaming onto a
/// name already taken is refused, and an unknown name is not found.
pub fn update_mcp_server(config: McpConfig, original_name: &str, server: McpServer) -> (r: Result<
    McpConfig,
    McpError,
>)
    ensures
        match r {
            Ok(c) => ({
                let views = server_views(config.servers@);
                let idx = name_index(views, original_name@);
                &&& has_name(views, original_name@)
                &&& (original_name@ != server@.name ==> !has_name(views, server@.name))
                &&& server_views(c.servers@) == views.update(idx, server@)
                &&& c.source_mode == config.source_mode
                &&& c.enabled_tools@ == config.enabled_tools@
            }),
            Err(e) => ({
                let views = server_views(config.servers@);
                (!has_name(views, original_name@) && e is NotFound) || (has_name(
                    views,
                    original_name@,
                ) && original_name@ != server@.name && has_name(views, server@.name)
                    && e is InvalidFormat)
            }),
        },
{
    let ghost views = server_views(config.servers@);
    proof {
        lemma_name_index(views, original_name@);
    }
    let n = config.servers.len();
    let mut idx: usize = 0;
    let mut found = false;
    while idx < n
        invariant
            n == config.servers@.len(),
            views == server_views(config.servers@),
            0 <= idx <= n,
            !found ==> forall|j: int| 0 <= j < idx ==> views[j].name != original_name@,
            found ==> idx < n && idx == name_index(views, original_name@),
        ensures
            0 <= idx <= n,
            !found ==> forall|j: int| 0 <= j < idx ==> views[j].name != original_name@,
            !found ==> idx == n,
            found ==> idx < n && idx == name_index(views, original_name@),
        decreases n - idx + (if found {
            0int
        } else {
            1int
        }),
    {
        if found {
            break;
        }
        if string_eq_str(&config.servers[idx].name, original_name) {
            found = true;
            proof {
                lemma_name_index(views, original_name@);
                assert(views[idx as int] == config.servers@[idx as int]@);
                assert(views[idx as int].name == original_name@);
                let k = name_index(views, original_name@);
                assert(!(k < idx));
                assert(!(idx < k));
            }
            break;
        }
        proof {
            assert(views[idx as int] == config.servers@[idx as int]@);
        }
        idx += 1;
    }
    if !found {
        proof {
            if name_index(views, original_name@) < views.len() {
                assert(views[name_index(views, original_name@)].name == original_name@);
            }
        }
        let mut m = str_to_string("Server '");
        m.append(original_name);
        m.append("' not found");
        return Err(McpError::NotFound(m));
    }
    let renaming = !string_eq_str(&server.name, original_name);
    if renaming {
        let taken = match find_server(&config.servers, server.name.as_str()) {
            Some(_) => true,
            None => false,
        };
        if taken {
            let mut m = str_to_string("Server with name '");
            m.append(server.name.as_str());
            m.append("' already exists");
            return Err(McpError::InvalidFormat(m));
        }
    }
    let McpConfig { source_mode, mut servers, enabled_tools } = config;
    let ghost gs = server@;
    servers.set(idx, server);
    proof {
        assert(server_views(servers@) =~= views.update(idx as int, gs));
    }
    Ok(McpConfig { source_mode, servers, enabled_tools })
}

/// Removes every server of the given name; a name not listed is not
/// found.
pub fn remove_mcp_server(config: McpConfig, server_name: &str) -> (r: Result<McpConfig, McpError>)
    ensures
        match r {
            Ok(c) => has_name(server_views(config.servers@), server_name@) && server_views(
                c.servers@,
            ) == spec_remove_name(server_views(config.servers@), server_name@) && c.source_mode
                == config.source_mode && c.enabled_tools@ == config.enabled_tools@,
            Err(e) => !has_name(server_views(config.servers@), server_name@) && e is NotFound,
        },
{
    let ghost views = server_views(config.servers@);
    proof {
        lemma_name_index(views, server_name@);
    }
    let present = match find_server(&config.servers, server_name) {
        Some(_) => true,
        None => false,
    };
    if !present {
        let mut m = str_to_string("Server '");
        m.append(server_name);
        m.append("' not found");
        return Err(McpError::NotFound(m));
    }
    let McpConfig { source_mode, servers, enabled_tools } = config;
    let n = servers.len();
    let mut out: Vec<McpServer> = Vec::new();
    let mut i: usize = 0;
    proof {
        assert(server_views(out@) =~= spec_remove_name(views.take(0), server_name@));
    }
    while i < n
        invariant
            n == servers@.len(),
            views == server_views(servers@),
            0 <= i <= n,
            server_views(out@) == spec_remove_name(views.take(i as int), server_name@),
        decreases n - i,
    {
        proof {
            assert(views[i as int] == servers@[i as int]@);
            assert(views.take(i + 1).drop_last() =~= views.take(i as int));
            assert(views.take(i + 1).last() == views[i as int]);
        }
        if !string_eq_str(&servers[i].name, server_name) {
            let c = clone_server(&servers[i]);
            let ghost pre = server_views(out@);
            out.push(c);
            proof {
                assert(server_views(out@) =~= pre.push(views[i as int]));
            }
        }
        i += 1;
    }
    proof {
        assert(views.take(n as int) =~= views);
    }
    Ok(McpConfig { source_mode, servers: out, enabled_tools })
}

/// Whether a tool identifier is in the enabled list.
pub open spec fn spec_has_tool(tools: Seq<Seq<char>>, id: Seq<char>) -> bool {
    exists|i: int| 0 <= i < tools.len() && tools[i] == id
}

/// The list without any occurrence of the identifier.
pub open spec fn spec_remove_tool(tools: Seq<Seq<char>>, id: Seq<char>) -> Seq<Seq<char>>
    decreases tools.len(),
{
    if tools.len() == 0 {
        Seq::empty()
    } else {
        let rest = spec_remove_tool(tools.drop_last(), id);
        if tools.last() == id {
            rest
        } else {
            rest.push(tools.last())
        }
    }
}

/// Turns a tool's participation in syncs on or off: enabling appends the
/// identifier once, disabling removes every occurrence.
pub fn set_tool_mcp_enabled(config: McpConfig, tool_id: &str, enabled: bool) -> (r: McpConfig)
    ensures
        r.source_mode == config.source_mode,
        server_views(r.servers@) == server_views(config.servers@),
        enabled && spec_has_tool(config.enabled_tools.deep_view(), tool_id@)
            ==> r.enabled_tools.deep_view() == config.enabled_tools.deep_view(),
        enabled && !spec_has_tool(config.enabled_tools.deep_view(), tool_id@)
            ==> r.enabled_tools.deep_view() == config.enabled_tools.deep_view().push(tool_id@),
        !enabled ==> r.enabled_tools.deep_view() == spec_remove_tool(
            config.enabled_tools.deep_view(),
            tool_id@,
        ),
{
    let McpConfig { source_mode, servers, mut enabled_tools } = config;
    let ghost gtools = enabled_tools.deep_view();
    if enabled {
        let n = enabled_tools.len();
        let mut i: usize = 0;
        let mut present = false;
        while i < n
            invariant
                n == enabled_tools@.len(),
                gtools == enabled_tools.deep_view(),
                0 <= i <= n,
                !present ==> forall|j: int| 0 <= j < i ==> gtools[j] != tool_id@,
                present ==> spec_has_tool(gtools, tool_id@),
            ensures
                !present ==> forall|j: int| 0 <= j < n ==> gtools[j] != tool_id@,
                present ==> spec_has_tool(gtools, tool_id@),
            decreases n - i + (if present {
                0int
            } else {
                1int
            }),
        {
            if present {
                break;
            }
            if string_eq_str(&enabled_tools[i], tool_id) {
                present = true;
                proof {
                    assert(gtools[i as int] == enabled_tools@[i as int]@);
                }
                break;
            }
            proof {
                assert(gtools[i as int] == enabled_tools@[i as int]@);
            }
            i += 1;
        }
        if !present {
            proof {
                if spec_has_tool(gtools, tool_id@) {
                    let w = choose|j: int| 0 <= j < gtools.len() && gtools[j] == tool_id@;
                    assert(gtools[w] != tool_id@);
                }
            }
            enabled_tools.push(str_to_string(tool_id));
            proof {
                assert(enabled_tools.deep_view() =~= gtools.push(tool_id@));
            }
        }
        McpConfig { source_mode, servers, enabled_tools }
    } else {
        let n = enabled_tools.len();
        let mut out: Vec<String> = Vec::new();
        let mut i: usize = 0;
        proof {
            assert(out.deep_view() =~= spec_remove_tool(gtools.take(0), tool_id@));
        }
        while i < n
            invariant
                n == enabled_tools@.len(),
                gtools == enabled_tools.deep_view(),
                0 <= i <= n,
                out.deep_view() == spec_remove_tool(gtools.take(i as int), tool_id@),
            decreases n - i,
        {
            proof {
                assert(gtools[i as int] == enabled_tools@[i as int]@);
                assert(gtools.take(i + 1).drop_last() =~= gtools.take(i as int));
                assert(gtools.take(i + 1).last() == gtools[i as int]);
            }
            if !string_eq_str(&enabled_tools[i], tool_id) {
                let ghost pre = out.deep_view();
                out.push(enabled_tools[i].clone());
                proof {
                    assert(out.deep_view() =~= pre.push(gtools[i as int]));
                }
            }
            i += 1;
        }
        proof {
            assert(gtools.take(n as int) =~= gtools);
        }
        McpConfig { source_mode, servers, enabled_tools: out }
    }
}

/// Which list a sync reads from: the assistant's own file in
/// `Assistant` mode, the managed list otherwise.
pub fn choose_source_servers(config: McpConfig, assistant_servers: Vec<McpServer>) -> (r: Vec<
    McpServer,
>)
    ensures
        config.source_mode == McpSourceMode::Assistant ==> r@ == assistant_servers@,
        config.source_mode == McpSourceMode::AppManaged ==> r@ == config.servers@,
{
    match config.source_mode {
        McpSourceMode::Assistant => assistant_servers,
        McpSourceMode::AppManaged => config.servers,
    }
}

} // verus!
