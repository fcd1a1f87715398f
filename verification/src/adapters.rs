//! Format adapters: bidirectional mapping between JSON trees and the
//! canonical server list, one pair of functions per layout.
//!
//! Each executable function is specified against a spec-level twin; the
//! round-trip laws of the crate are stated and proved over those twins.

use vstd::prelude::*;
use vstd::string::StringExecFns;
use crate::json::{
    Json, JsonV, jview, jview_arr, jview_obj, json_obj_get, obj_get, lemma_jview_arr,
    lemma_jview_obj, clone_json,
};
use crate::types::{McpError, McpServer, McpServerV};

verus! {

/// The ghost images of a list of servers.
pub open spec fn server_views(s: Seq<McpServer>) -> Seq<McpServerV> {
    s.map_values(|x: McpServer| x@)
}

/// The string items of a JSON array, in order; other items are dropped.
pub open spec fn spec_string_items(items: Seq<JsonV>) -> Seq<Seq<char>>
    decreases items.len(),
{
    if items.len() == 0 {
        Seq::empty()
    } else {
        let rest = spec_string_items(items.drop_last());
        match items.last() {
            JsonV::Str(s) => rest.push(s),
            _ => rest,
        }
    }
}

/// The string-valued entries of a JSON object, in order; other entries are
/// dropped.
pub open spec fn spec_string_entries(entries: Seq<(Seq<char>, JsonV)>) -> Seq<
    (Seq<char>, Seq<char>),
>
    decreases entries.len(),
{
    if entries.len() == 0 {
        Seq::empty()
    } else {
        let rest = spec_string_entries(entries.drop_last());
        match entries.last().1 {
            JsonV::Str(s) => rest.push((entries.last().0, s)),
            _ => rest,
        }
    }
}

/// The keys the Standard layout maps onto named fields of the model.
pub open spec fn known_std_key(k: Seq<char>) -> bool {
    k == "command"@ || k == "args"@ || k == "env"@ || k == "disabled"@ || k == "url"@ || k
        == "_target"@
}

/// The entries of a server object that the model does not understand.
pub open spec fn spec_extra_entries(entries: Seq<(Seq<char>, JsonV)>) -> Seq<(Seq<char>, JsonV)>
    decreases entries.len(),
{
    if entries.len() == 0 {
        Seq::empty()
    } else {
        let rest = spec_extra_entries(entries.drop_last());
        if known_std_key(entries.last().0) {
            rest
        } else {
            rest.push(entries.last())
        }
    }
}

/// Reading one Standard-layout server object.
pub open spec fn spec_parse_std_server(name: Seq<char>, entries: Seq<(Seq<char>, JsonV)>)
    -> McpServerV {
    McpServerV {
        name: name,
        command: match obj_get(entries, "command"@) {
            Some(JsonV::Str(s)) => s,
            _ => Seq::empty(),
        },
        args: match obj_get(entries, "args"@) {
            Some(JsonV::Arr(a)) => Some(spec_string_items(a)),
            _ => None,
        },
        env: match obj_get(entries, "env"@) {
            Some(JsonV::Obj(e)) => Some(spec_string_entries(e)),
            _ => None,
        },
        disabled: match obj_get(entries, "disabled"@) {
            Some(JsonV::Bool(b)) => Some(b),
            _ => None,
        },
        url: match obj_get(entries, "url"@) {
            Some(JsonV::Str(s)) => Some(s),
            _ => None,
        },
        target: match obj_get(entries, "_target"@) {
            Some(JsonV::Str(s)) => Some(s),
            _ => None,
        },
        extra: if spec_extra_entries(entries).len() == 0 {
            None
        } else {
            Some(spec_extra_entries(entries))
        },
    }
}

/// Reading the object under the container key: one server per entry whose
/// value is an object; entries of any other shape are dropped.
pub open spec fn spec_parse_std_entries(entries: Seq<(Seq<char>, JsonV)>) -> Seq<McpServerV>
    decreases entries.len(),
{
    if entries.len() == 0 {
        Seq::empty()
    } else {
        let rest = spec_parse_std_entries(entries.drop_last());
        match entries.last().1 {
            JsonV::Obj(cfg) => rest.push(spec_parse_std_server(entries.last().0, cfg)),
            _ => rest,
        }
    }
}

/// Reading a whole Standard-layout document at `key`: an absent key yields
/// the empty list, a present key of any shape but object is a format error
/// (`None` here).
pub open spec fn spec_parse_standard(root: JsonV, key: Seq<char>) -> Option<Seq<McpServerV>> {
    match root {
        JsonV::Obj(entries) => match obj_get(entries, key) {
            Option::None => Some(Seq::<McpServerV>::empty()),
            Option::Some(JsonV::Obj(servers)) => Some(spec_parse_std_entries(servers)),
            Option::Some(_) => None,
        },
        _ => Some(Seq::<McpServerV>::empty()),
    }
}

/// The string items of a JSON array, executable side.
pub fn collect_string_items(items: &Vec<Json>) -> (r: Vec<String>)
    ensures
        r.deep_view() == spec_string_items(jview_arr(items@)),
{
    let n = items.len();
    let mut out: Vec<String> = Vec::new();
    let mut i: usize = 0;
    proof {
        lemma_jview_arr(items@);
        assert(jview_arr(items@.take(0)) =~= Seq::<JsonV>::empty());
        assert(out.deep_view() =~= spec_string_items(jview_arr(items@.take(0))));
    }
    while i < n
        invariant
            n == items.len(),
            0 <= i <= n,
            jview_arr(items@).len() == n,
            forall|k: int| 0 <= k < n ==> jview_arr(items@)[k] == jview(items@[k]),
            out.deep_view() == spec_string_items(jview_arr(items@.take(i as int))),
        decreases n - i,
    {
        let ghost gpre = jview_arr(items@.take(i as int));
        let ghost gcur = jview_arr(items@.take(i + 1));
        proof {
            lemma_jview_arr(items@.take(i + 1));
            assert(items@.take(i + 1).drop_last() =~= items@.take(i as int));
            assert(items@.take(i + 1).last() == items@[i as int]);
            assert(gcur.drop_last() =~= gpre);
            assert(gcur.last() == jview(items@[i as int]));
            assert(gcur =~= gpre.push(jview(items@[i as int])));
            assert(spec_string_items(gcur) == match gcur.last() {
                JsonV::Str(s) => spec_string_items(gpre).push(s),
                _ => spec_string_items(gpre),
            });
        }
        match &items[i] {
            Json::Str(s) => {
                let ghost dpre = out.deep_view();
                out.push(s.clone());
                proof {
                    assert(out.deep_view() =~= dpre.push(s@));
                }
            },
            _ => {},
        }
        i += 1;
    }
    proof {
        assert(items@.take(n as int) =~= items@);
    }
    out
}

/// The string-valued entries of a JSON object, executable side.
fn collect_string_entries(entries: &Vec<(String, Json)>) -> (r: Vec<(String, String)>)
    ensures
        r.deep_view() == spec_string_entries(jview_obj(entries@)),
{
    let n = entries.len();
    let mut out: Vec<(String, String)> = Vec::new();
    let mut i: usize = 0;
    proof {
        lemma_jview_obj(entries@);
        assert(jview_obj(entries@.take(0)) =~= Seq::<(Seq<char>, JsonV)>::empty());
        assert(out.deep_view() =~= spec_string_entries(jview_obj(entries@.take(0))));
    }
    while i < n
        invariant
            n == entries.len(),
            0 <= i <= n,
            jview_obj(entries@).len() == n,
            forall|k: int| 0 <= k < n ==> jview_obj(entries@)[k] == (entries@[k].0@, jview(
                entries@[k].1,
            )),
            out.deep_view() == spec_string_entries(jview_obj(entries@.take(i as int))),
        decreases n - i,
    {
        let ghost gpre = jview_obj(entries@.take(i as int));
        let ghost gcur = jview_obj(entries@.take(i + 1));
        proof {
            lemma_jview_obj(entries@.take(i + 1));
            assert(entries@.take(i + 1).drop_last() =~= entries@.take(i as int));
            assert(entries@.take(i + 1).last() == entries@[i as int]);
            assert(gcur.drop_last() =~= gpre);
            assert(gcur.last() == (entries@[i as int].0@, jview(entries@[i as int].1)));
        }
        match &entries[i].1 {
            Json::Str(s) => {
                let ghost dpre = out.deep_view();
                out.push((entries[i].0.clone(), s.clone()));
                proof {
                    assert(out.deep_view() =~= dpre.push((entries@[i as int].0@, s@)));
                }
            },
            _ => {},
        }
        i += 1;
    }
    proof {
        assert(entries@.take(n as int) =~= entries@);
    }
    out
}

/// Whether `k` is one of the keys the Standard layout understands.
fn is_known_std_key(k: &String) -> (r: bool)
    ensures
        r == known_std_key(k@),
{
    crate::text::string_eq_str(k, "command") || crate::text::string_eq_str(k, "args")
        || crate::text::string_eq_str(k, "env") || crate::text::string_eq_str(k, "disabled")
        || crate::text::string_eq_str(k, "url") || crate::text::string_eq_str(k, "_target")
}

/// The entries of a server object that the model does not understand,
/// executable side.
fn collect_extra_entries(entries: &Vec<(String, Json)>) -> (r: Vec<(String, Json)>)
    ensures
        jview_obj(r@) == spec_extra_entries(jview_obj(entries@)),
{
    let n = entries.len();
    let mut out: Vec<(String, Json)> = Vec::new();
    let mut i: usize = 0;
    proof {
        lemma_jview_obj(entries@);
        assert(jview_obj(entries@.take(0)) =~= Seq::<(Seq<char>, JsonV)>::empty());
        assert(jview_obj(out@) =~= spec_extra_entries(jview_obj(entries@.take(0))));
    }
    while i < n
        invariant
            n == entries.len(),
            0 <= i <= n,
            jview_obj(entries@).len() == n,
            forall|k: int| 0 <= k < n ==> jview_obj(entries@)[k] == (entries@[k].0@, jview(
                entries@[k].1,
            )),
            jview_obj(out@) == spec_extra_entries(jview_obj(entries@.take(i as int))),
        decreases n - i,
    {
        let ghost gpre = jview_obj(entries@.take(i as int));
        let ghost gcur = jview_obj(entries@.take(i + 1));
        proof {
            lemma_jview_obj(entries@.take(i + 1));
            assert(entries@.take(i + 1).drop_last() =~= entries@.take(i as int));
            assert(entries@.take(i + 1).last() == entries@[i as int]);
            assert(gcur.drop_last() =~= gpre);
            assert(gcur.last() == (entries@[i as int].0@, jview(entries@[i as int].1)));
        }
        if !is_known_std_key(&entries[i].0) {
            let k = entries[i].0.clone();
            let v = clone_json(&entries[i].1);
            let ghost opre = out@;
            out.push((k, v));
            proof {
                assert(out@.drop_last() =~= opre);
                assert(jview_obj(out@) == jview_obj(opre).push((k@, jview(v))));
            }
        }
        i += 1;
    }
    proof {
        assert(entries@.take(n as int) =~= entries@);
    }
    out
}

/// Reads one Standard-layout server object into the model.
fn parse_std_server_object(name: String, cfg: &Vec<(String, Json)>) -> (r: McpServer)
    ensures
        r@ == spec_parse_std_server(name@, jview_obj(cfg@)),
{
    let command: String = match json_obj_get(cfg, "command") {
        Some(Json::Str(s)) => s.clone(),
        _ => String::new(),
    };
    let args: Option<Vec<String>> = match json_obj_get(cfg, "args") {
        Some(Json::Arr(items)) => Some(collect_string_items(items)),
        _ => None,
    };
    let env: Option<Vec<(String, String)>> = match json_obj_get(cfg, "env") {
        Some(Json::Obj(e)) => Some(collect_string_entries(e)),
        _ => None,
    };
    let disabled: Option<bool> = match json_obj_get(cfg, "disabled") {
        Some(Json::Bool(b)) => Some(*b),
        _ => None,
    };
    let url: Option<String> = match json_obj_get(cfg, "url") {
        Some(Json::Str(s)) => Some(s.clone()),
        _ => None,
    };
    let target: Option<String> = match json_obj_get(cfg, "_target") {
        Some(Json::Str(s)) => Some(s.clone()),
        _ => None,
    };
    let extra_vec = collect_extra_entries(cfg);
    let extra: Option<Vec<(String, Json)>> = if extra_vec.len() == 0 {
        proof {
            crate::json::lemma_jview_obj(extra_vec@);
        }
        None
    } else {
        proof {
            crate::json::lemma_jview_obj(extra_vec@);
        }
        Some(extra_vec)
    };
    McpServer { name, command, args, env, disabled, url, target, extra }
}

/// Reads every server from the object stored under `key` in `root`,
/// following the Standard layout.  The key being absent yields the empty
/// list; the key holding anything but an object is a format error.
pub fn parse_standard_mcp_servers(root: &Json, key: &str) -> (r: Result<Vec<McpServer>, McpError>)
    ensures
        match r {
            Ok(list) => spec_parse_standard(root@, key@) == Some(server_views(list@)),
            Err(e) => spec_parse_standard(root@, key@) is None && e is InvalidFormat,
        },
{
    match root {
        Json::Obj(root_entries) => {
            match json_obj_get(root_entries, key) {
                None => {
                    let r: Vec<McpServer> = Vec::new();
                    proof {
                        assert(server_views(r@) =~= Seq::<McpServerV>::empty());
                    }
                    Ok(r)
                },
                Some(j) => match j {
                    Json::Obj(servers) => Ok(parse_server_entries(servers)),
                    _ => {
                        let mut m = String::from_str(key);
                        m.append(" is not an object");
                        Err(McpError::InvalidFormat(m))
                    },
                },
            }
        },
        _ => {
            let r: Vec<McpServer> = Vec::new();
            proof {
                assert(server_views(r@) =~= Seq::<McpServerV>::empty());
            }
            Ok(r)
        },
    }
}

/// Reads the entries of a container object, one server per object-valued
/// entry, following the Standard layout.
pub fn parse_server_entries(servers: &Vec<(String, Json)>) -> (r: Vec<McpServer>)
    ensures
        server_views(r@) == spec_parse_std_entries(jview_obj(servers@)),
{
    let n = servers.len();
    let mut out: Vec<McpServer> = Vec::new();
    let mut i: usize = 0;
    proof {
        lemma_jview_obj(servers@);
        assert(jview_obj(servers@.take(0)) =~= Seq::<(Seq<char>, JsonV)>::empty());
        assert(server_views(out@) =~= spec_parse_std_entries(jview_obj(servers@.take(0))));
    }
    while i < n
        invariant
            n == servers.len(),
            0 <= i <= n,
            jview_obj(servers@).len() == n,
            forall|k: int| 0 <= k < n ==> jview_obj(servers@)[k] == (servers@[k].0@, jview(
                servers@[k].1,
            )),
            server_views(out@) == spec_parse_std_entries(jview_obj(servers@.take(i as int))),
        decreases n - i,
    {
        let ghost gpre = jview_obj(servers@.take(i as int));
        let ghost gcur = jview_obj(servers@.take(i + 1));
        proof {
            lemma_jview_obj(servers@.take(i + 1));
            assert(servers@.take(i + 1).drop_last() =~= servers@.take(i as int));
            assert(servers@.take(i + 1).last() == servers@[i as int]);
            assert(gcur.drop_last() =~= gpre);
            assert(gcur.last() == (servers@[i as int].0@, jview(servers@[i as int].1)));
        }
        match &servers[i].1 {
            Json::Obj(cfg) => {
                let name = servers[i].0.clone();
                let s = parse_std_server_object(name, cfg);
                let ghost opre = server_views(out@);
                out.push(s);
                proof {
                    assert(server_views(out@) =~= opre.push(s@));
                }
            },
            _ => {},
        }
        i += 1;
    }
    proof {
        assert(servers@.take(n as int) =~= servers@);
    }
    out
}

/// Appends one entry to an object under construction.
fn push_entry(o: &mut Vec<(String, Json)>, k: &str, v: Json)
    ensures
        jview_obj(final(o)@) == jview_obj(old(o)@).push((k@, jview(v))),
{
    let ghost gv = v;
    o.push((String::from_str(k), v));
    proof {
        assert(o@.drop_last() =~= old(o)@);
        assert(o@.last() == (o@.last().0, gv));
        assert(o@.last().0@ == k@);
    }
}

/// Appends one entry, with an owned key, to an object under construction.
fn push_entry_key(o: &mut Vec<(String, Json)>, k: String, v: Json)
    ensures
        jview_obj(final(o)@) == jview_obj(old(o)@).push((k@, jview(v))),
{
    let ghost gv = v;
    let ghost gk = k;
    o.push((k, v));
    proof {
        assert(o@.drop_last() =~= old(o)@);
        assert(o@.last() == (gk, gv));
    }
}

/// Appends one item to an array under construction.
fn push_item(o: &mut Vec<Json>, v: Json)
    ensures
        jview_arr(final(o)@) == jview_arr(old(o)@).push(jview(v)),
{
    let ghost gv = v;
    o.push(v);
    proof {
        assert(o@.drop_last() =~= old(o)@);
        assert(o@.last() == gv);
    }
}

/// A sequence of strings as a JSON array of strings.
pub open spec fn spec_strs_json(a: Seq<Seq<char>>) -> Seq<JsonV> {
    a.map_values(|x: Seq<char>| JsonV::Str(x))
}

/// String pairs as JSON object entries with string values.
pub open spec fn spec_env_json(e: Seq<(Seq<char>, Seq<char>)>) -> Seq<(Seq<char>, JsonV)> {
    e.map_values(|kv: (Seq<char>, Seq<char>)| (kv.0, JsonV::Str(kv.1)))
}

fn strings_to_json(a: &Vec<String>) -> (r: Vec<Json>)
    ensures
        jview_arr(r@) == spec_strs_json(a.deep_view()),
{
    let n = a.len();
    let mut out: Vec<Json> = Vec::new();
    let mut i: usize = 0;
    proof {
        assert(jview_arr(out@) =~= spec_strs_json(a.deep_view().take(0)));
    }
    while i < n
        invariant
            n == a.len(),
            0 <= i <= n,
            jview_arr(out@) == spec_strs_json(a.deep_view().take(i as int)),
        decreases n - i,
    {
        let ghost opre = out@;
        push_item(&mut out, Json::Str(a[i].clone()));
        proof {
            assert(jview_arr(out@) == jview_arr(opre).push(JsonV::Str(a@[i as int]@)));
            assert(spec_strs_json(a.deep_view().take(i + 1)) =~= spec_strs_json(
                a.deep_view().take(i as int),
            ).push(JsonV::Str(a@[i as int]@)));
        }
        i += 1;
    }
    proof {
        assert(a.deep_view().take(n as int) =~= a.deep_view());
    }
    out
}

fn env_entries_to_json(e: &Vec<(String, String)>) -> (r: Vec<(String, Json)>)
    ensures
        jview_obj(r@) == spec_env_json(e.deep_view()),
{
    let n = e.len();
    let mut out: Vec<(String, Json)> = Vec::new();
    let mut i: usize = 0;
    proof {
        assert(jview_obj(out@) =~= spec_env_json(e.deep_view().take(0)));
    }
    while i < n
        invariant
            n == e.len(),
            0 <= i <= n,
            jview_obj(out@) == spec_env_json(e.deep_view().take(i as int)),
        decreases n - i,
    {
        let ghost opre = out@;
        push_entry_key(&mut out, e[i].0.clone(), Json::Str(e[i].1.clone()));
        proof {
            assert(jview_obj(out@) == jview_obj(opre).push((e@[i as int].0@, JsonV::Str(
                e@[i as int].1@,
            ))));
            assert(spec_env_json(e.deep_view().take(i + 1)) =~= spec_env_json(
                e.deep_view().take(i as int),
            ).push((e@[i as int].0@, JsonV::Str(e@[i as int].1@))));
        }
        i += 1;
    }
    proof {
        assert(e.deep_view().take(n as int) =~= e.deep_view());
    }
    out
}

/// The `command` entry of a Standard server object: present only when the
/// command is non-empty, so URL-only servers stay command-less.
pub open spec fn blk_command(s: McpServerV) -> Seq<(Seq<char>, JsonV)> {
    if s.command.len() > 0 {
        seq![("command"@, JsonV::Str(s.command))]
    } else {
        Seq::empty()
    }
}

pub open spec fn blk_args(s: McpServerV) -> Seq<(Seq<char>, JsonV)> {
    match s.args {
        Some(a) => seq![("args"@, JsonV::Arr(spec_strs_json(a)))],
        None => Seq::empty(),
    }
}

pub open spec fn blk_env(s: McpServerV) -> Seq<(Seq<char>, JsonV)> {
    match s.env {
        Some(e) => seq![("env"@, JsonV::Obj(spec_env_json(e)))],
        None => Seq::empty(),
    }
}

/// The `disabled` entry is written only when the server is disabled.
pub open spec fn blk_disabled(s: McpServerV) -> Seq<(Seq<char>, JsonV)> {
    if s.disabled == Some(true) {
        seq![("disabled"@, JsonV::Bool(true))]
    } else {
        Seq::empty()
    }
}

pub open spec fn blk_url(s: McpServerV) -> Seq<(Seq<char>, JsonV)> {
    match s.url {
        Some(u) => seq![("url"@, JsonV::Str(u))],
        None => Seq::empty(),
    }
}

pub open spec fn blk_target(s: McpServerV) -> Seq<(Seq<char>, JsonV)> {
    match s.target {
        Some(t) => seq![("_target"@, JsonV::Str(t))],
        None => Seq::empty(),
    }
}

pub open spec fn blk_extra(s: McpServerV) -> Seq<(Seq<char>, JsonV)> {
    match s.extra {
        Some(x) => x,
        None => Seq::empty(),
    }
}

/// Writing one server in the Standard layout.
pub open spec fn spec_std_server_obj(s: McpServerV) -> Seq<(Seq<char>, JsonV)> {
    blk_command(s) + blk_args(s) + blk_env(s) + blk_disabled(s) + blk_url(s) + blk_target(s)
        + blk_extra(s)
}

/// Writing a server list in the Standard layout: one object entry per
/// server, in order, keyed by its name.
pub open spec fn spec_serialize_standard(list: Seq<McpServerV>) -> JsonV {
    JsonV::Obj(list.map_values(|s: McpServerV| (s.name, JsonV::Obj(spec_std_server_obj(s)))))
}

fn std_server_obj(s: &McpServer) -> (r: Vec<(String, Json)>)
    ensures
        jview_obj(r@) == spec_std_server_obj(s@),
{
    let mut o: Vec<(String, Json)> = Vec::new();
    proof {
        assert(jview_obj(o@) =~= Seq::<(Seq<char>, JsonV)>::empty());
    }
    if !s.command.as_str().is_empty() {
        push_entry(&mut o, "command", Json::Str(s.command.clone()));
    }
    proof {
        assert(jview_obj(o@) =~= blk_command(s@));
    }
    let ghost g1 = jview_obj(o@);
    match &s.args {
        Some(a) => {
            let items = strings_to_json(a);
            push_entry(&mut o, "args", Json::Arr(items));
            proof {
                assert(jview_obj(o@) =~= g1 + blk_args(s@));
            }
        },
        None => {
            proof {
                assert(jview_obj(o@) =~= g1 + blk_args(s@));
            }
        },
    }
    let ghost g2 = jview_obj(o@);
    match &s.env {
        Some(e) => {
            let entries = env_entries_to_json(e);
            push_entry(&mut o, "env", Json::Obj(entries));
            proof {
                assert(jview_obj(o@) =~= g2 + blk_env(s@));
            }
        },
        None => {
            proof {
                assert(jview_obj(o@) =~= g2 + blk_env(s@));
            }
        },
    }
    let ghost g3 = jview_obj(o@);
    match s.disabled {
        Some(true) => {
            push_entry(&mut o, "disabled", Json::Bool(true));
            proof {
                assert(jview_obj(o@) =~= g3 + blk_disabled(s@));
            }
        },
        _ => {
            proof {
                assert(jview_obj(o@) =~= g3 + blk_disabled(s@));
            }
        },
    }
    let ghost g4 = jview_obj(o@);
    match &s.url {
        Some(u) => {
            push_entry(&mut o, "url", Json::Str(u.clone()));
            proof {
                assert(jview_obj(o@) =~= g4 + blk_url(s@));
            }
        },
        None => {
            proof {
                assert(jview_obj(o@) =~= g4 + blk_url(s@));
            }
        },
    }
    let ghost g5 = jview_obj(o@);
    match &s.target {
        Some(t) => {
            push_entry(&mut o, "_target", Json::Str(t.clone()));
            proof {
                assert(jview_obj(o@) =~= g5 + blk_target(s@));
            }
        },
        None => {
            proof {
                assert(jview_obj(o@) =~= g5 + blk_target(s@));
            }
        },
    }
    let ghost g6 = jview_obj(o@);
    match &s.extra {
        Some(x) => {
            let n = x.len();
            let mut i: usize = 0;
            proof {
                crate::json::lemma_jview_obj(x@);
                assert(jview_obj(x@.take(0)) =~= Seq::<(Seq<char>, JsonV)>::empty());
                assert(jview_obj(o@) =~= g6 + jview_obj(x@.take(0)));
            }
            while i < n
                invariant
                    n == x.len(),
                    0 <= i <= n,
                    jview_obj(x@).len() == n,
                    forall|k: int| 0 <= k < n ==> jview_obj(x@)[k] == (x@[k].0@, jview(x@[k].1)),
                    jview_obj(o@) == g6 + jview_obj(x@.take(i as int)),
                decreases n - i,
            {
                let k = x[i].0.clone();
                let v = clone_json(&x[i].1);
                let ghost opre = jview_obj(o@);
                push_entry_key(&mut o, k, v);
                proof {
                    lemma_jview_obj(x@.take(i + 1));
                    assert(x@.take(i + 1).drop_last() =~= x@.take(i as int));
                    assert(x@.take(i + 1).last() == x@[i as int]);
                    assert(jview_obj(x@.take(i + 1)) == jview_obj(x@.take(i as int)).push((
                        x@[i as int].0@,
                        jview(x@[i as int].1),
                    )));
                    assert(g6 + jview_obj(x@.take(i + 1)) =~= (g6 + jview_obj(x@.take(i as int))).push(
                        (x@[i as int].0@, jview(x@[i as int].1)),
                    ));
                }
                i += 1;
            }
            proof {
                assert(x@.take(n as int) =~= x@);
                assert(jview_obj(o@) =~= g6 + blk_extra(s@));
            }
        },
        None => {
            proof {
                assert(jview_obj(o@) =~= g6 + blk_extra(s@));
            }
        },
    }
    proof {
        assert(jview_obj(o@) =~= spec_std_server_obj(s@));
    }
    o
}

/// Writes a server list in the Standard layout.
pub fn servers_to_standard_format(servers: &Vec<McpServer>) -> (r: Json)
    ensures
        r@ == spec_serialize_standard(server_views(servers@)),
{
    let n = servers.len();
    let mut out: Vec<(String, Json)> = Vec::new();
    let mut i: usize = 0;
    proof {
        assert(jview_obj(out@) =~= server_views(servers@).take(0).map_values(
            |s: McpServerV| (s.name, JsonV::Obj(spec_std_server_obj(s))),
        ));
    }
    while i < n
        invariant
            n == servers.len(),
            0 <= i <= n,
            jview_obj(out@) == server_views(servers@).take(i as int).map_values(
                |s: McpServerV| (s.name, JsonV::Obj(spec_std_server_obj(s))),
            ),
        decreases n - i,
    {
        let obj = std_server_obj(&servers[i]);
        let name = servers[i].name.clone();
        let ghost opre = out@;
        push_entry_key(&mut out, name, Json::Obj(obj));
        proof {
            assert(jview_obj(out@) == jview_obj(opre).push((servers@[i as int]@.name, JsonV::Obj(
                spec_std_server_obj(servers@[i as int]@),
            ))));
            assert(server_views(servers@).take(i + 1).map_values(
                |s: McpServerV| (s.name, JsonV::Obj(spec_std_server_obj(s))),
            ) =~= server_views(servers@).take(i as int).map_values(
                |s: McpServerV| (s.name, JsonV::Obj(spec_std_server_obj(s))),
            ).push((servers@[i as int]@.name, JsonV::Obj(spec_std_server_obj(
                servers@[i as int]@,
            )))));
        }
        i += 1;
    }
    proof {
        assert(server_views(servers@).take(n as int) =~= server_views(servers@));
    }
    Json::Obj(out)
}

/// Reading one Copilot-layout server object: only `command`, `args` and
/// `env` are understood; nothing else is read back.
pub open spec fn spec_parse_copilot_server(name: Seq<char>, entries: Seq<(Seq<char>, JsonV)>)
    -> McpServerV {
    McpServerV {
        name: name,
        command: match obj_get(entries, "command"@) {
            Some(JsonV::Str(s)) => s,
            _ => Seq::empty(),
        },
        args: match obj_get(entries, "args"@) {
            Some(JsonV::Arr(a)) => Some(spec_string_items(a)),
            _ => None,
        },
        env: match obj_get(entries, "env"@) {
            Some(JsonV::Obj(e)) => Some(spec_string_entries(e)),
            _ => None,
        },
        disabled: None,
        url: None,
        target: None,
        extra: None,
    }
}

pub open spec fn spec_parse_copilot_entries(entries: Seq<(Seq<char>, JsonV)>) -> Seq<McpServerV>
    decreases entries.len(),
{
    if entries.len() == 0 {
        Seq::empty()
    } else {
        let rest = spec_parse_copilot_entries(entries.drop_last());
        match entries.last().1 {
            JsonV::Obj(cfg) => rest.push(spec_parse_copilot_server(entries.last().0, cfg)),
            _ => rest,
        }
    }
}

/// Reading a whole Copilot-layout document: servers live under the literal
/// key `servers`.
pub open spec fn spec_parse_copilot(root: JsonV) -> Option<Seq<McpServerV>> {
    match root {
        JsonV::Obj(entries) => match obj_get(entries, "servers"@) {
            Option::None => Some(Seq::<McpServerV>::empty()),
            Option::Some(JsonV::Obj(servers)) => Some(spec_parse_copilot_entries(servers)),
            Option::Some(_) => None,
        },
        _ => Some(Seq::<McpServerV>::empty()),
    }
}

fn parse_copilot_server_object(name: String, cfg: &Vec<(String, Json)>) -> (r: McpServer)
    ensures
        r@ == spec_parse_copilot_server(name@, jview_obj(cfg@)),
{
    let command: String = match json_obj_get(cfg, "command") {
        Some(Json::Str(s)) => s.clone(),
        _ => String::new(),
    };
    let args: Option<Vec<String>> = match json_obj_get(cfg, "args") {
        Some(Json::Arr(items)) => Some(collect_string_items(items)),
        _ => None,
    };
    let env: Option<Vec<(String, String)>> = match json_obj_get(cfg, "env") {
        Some(Json::Obj(e)) => Some(collect_string_entries(e)),
        _ => None,
    };
    McpServer {
        name,
        command,
        args,
        env,
        disabled: None,
        url: None,
        target: None,
        extra: None,
    }
}

/// Reads every server from a Copilot-layout document.
pub fn parse_copilot_mcp_servers(root: &Json) -> (r: Result<Vec<McpServer>, McpError>)
    ensures
        match r {
            Ok(list) => spec_parse_copilot(root@) == Some(server_views(list@)),
            Err(e) => spec_parse_copilot(root@) is None && e is InvalidFormat,
        },
{
    match root {
        Json::Obj(root_entries) => {
            match json_obj_get(root_entries, "servers") {
                None => {
                    let r: Vec<McpServer> = Vec::new();
                    proof {
                        assert(server_views(r@) =~= Seq::<McpServerV>::empty());
                    }
                    Ok(r)
                },
                Some(j) => match j {
                    Json::Obj(servers) => Ok(parse_copilot_entries(servers)),
                    _ => Err(McpError::InvalidFormat(String::from_str("servers is not an object"))),
                },
            }
        },
        _ => {
            let r: Vec<McpServer> = Vec::new();
            proof {
                assert(server_views(r@) =~= Seq::<McpServerV>::empty());
            }
            Ok(r)
        },
    }
}

fn parse_copilot_entries(servers: &Vec<(String, Json)>) -> (r: Vec<McpServer>)
    ensures
        server_views(r@) == spec_parse_copilot_entries(jview_obj(servers@)),
{
    let n = servers.len();
    let mut out: Vec<McpServer> = Vec::new();
    let mut i: usize = 0;
    proof {
        lemma_jview_obj(servers@);
        assert(jview_obj(servers@.take(0)) =~= Seq::<(Seq<char>, JsonV)>::empty());
        assert(server_views(out@) =~= spec_parse_copilot_entries(jview_obj(servers@.take(0))));
    }
    while i < n
        invariant
            n == servers.len(),
            0 <= i <= n,
            jview_obj(servers@).len() == n,
            forall|k: int| 0 <= k < n ==> jview_obj(servers@)[k] == (servers@[k].0@, jview(
                servers@[k].1,
            )),
            server_views(out@) == spec_parse_copilot_entries(jview_obj(servers@.take(i as int))),
        decreases n - i,
    {
        let ghost gpre = jview_obj(servers@.take(i as int));
        let ghost gcur = jview_obj(servers@.take(i + 1));
        proof {
            lemma_jview_obj(servers@.take(i + 1));
            assert(servers@.take(i + 1).drop_last() =~= servers@.take(i as int));
            assert(servers@.take(i + 1).last() == servers@[i as int]);
            assert(gcur.drop_last() =~= gpre);
            assert(gcur.last() == (servers@[i as int].0@, jview(servers@[i as int].1)));
        }
        match &servers[i].1 {
            Json::Obj(cfg) => {
                let name = servers[i].0.clone();
                let s = parse_copilot_server_object(name, cfg);
                let ghost opre = server_views(out@);
                out.push(s);
                proof {
                    assert(server_views(out@) =~= opre.push(s@));
                }
            },
            _ => {},
        }
        i += 1;
    }
    proof {
        assert(servers@.take(n as int) =~= servers@);
    }
    out
}

/// Reading one OpenCode-layout server object: the command is a string
/// array holding the program and its arguments, the environment lives under
/// `environment`, and `enabled` is the inverse of the model's `disabled`.
pub open spec fn spec_parse_oc_server(name: Seq<char>, entries: Seq<(Seq<char>, JsonV)>)
    -> McpServerV {
    let items = match obj_get(entries, "command"@) {
        Some(JsonV::Arr(a)) => spec_string_items(a),
        _ => Seq::empty(),
    };
    McpServerV {
        name: name,
        command: if items.len() == 0 {
            Seq::empty()
        } else {
            items[0]
        },
        args: if items.len() > 1 {
            Some(items.drop_first())
        } else {
            None
        },
        env: match obj_get(entries, "environment"@) {
            Some(JsonV::Obj(e)) => Some(spec_string_entries(e)),
            _ => None,
        },
        disabled: match obj_get(entries, "enabled"@) {
            Some(JsonV::Bool(b)) => Some(!b),
            _ => None,
        },
        url: match obj_get(entries, "url"@) {
            Some(JsonV::Str(s)) => Some(s),
            _ => None,
        },
        target: None,
        extra: None,
    }
}

pub open spec fn spec_parse_oc_entries(entries: Seq<(Seq<char>, JsonV)>) -> Seq<McpServerV>
    decreases entries.len(),
{
    if entries.len() == 0 {
        Seq::empty()
    } else {
        let rest = spec_parse_oc_entries(entries.drop_last());
        match entries.last().1 {
            JsonV::Obj(cfg) => rest.push(spec_parse_oc_server(entries.last().0, cfg)),
            _ => rest,
        }
    }
}

/// Reading a whole OpenCode-layout document: servers live directly under
/// the literal key `mcp`.
pub open spec fn spec_parse_opencode(root: JsonV) -> Option<Seq<McpServerV>> {
    match root {
        JsonV::Obj(entries) => match obj_get(entries, "mcp"@) {
            Option::None => Some(Seq::<McpServerV>::empty()),
            Option::Some(JsonV::Obj(servers)) => Some(spec_parse_oc_entries(servers)),
            Option::Some(_) => None,
        },
        _ => Some(Seq::<McpServerV>::empty()),
    }
}

fn parse_oc_server_object(name: String, cfg: &Vec<(String, Json)>) -> (r: McpServer)
    ensures
        r@ == spec_parse_oc_server(name@, jview_obj(cfg@)),
{
    let parts: Vec<String> = match json_obj_get(cfg, "command") {
        Some(Json::Arr(items)) => collect_string_items(items),
        _ => Vec::new(),
    };
    proof {
        assert(parts.deep_view() == match obj_get(jview_obj(cfg@), "command"@) {
            Some(JsonV::Arr(a)) => spec_string_items(a),
            _ => Seq::<Seq<char>>::empty(),
        });
    }
    let command: String = if parts.len() == 0 {
        String::new()
    } else {
        parts[0].clone()
    };
    let args: Option<Vec<String>> = if parts.len() > 1 {
        let m = parts.len();
        let mut rest: Vec<String> = Vec::new();
        let mut j: usize = 1;
        proof {
            assert(rest.deep_view() =~= parts.deep_view().subrange(1, 1));
        }
        while j < m
            invariant
                m == parts.len(),
                1 <= j <= m,
                rest.deep_view() == parts.deep_view().subrange(1, j as int),
            decreases m - j,
        {
            let ghost rpre = rest.deep_view();
            rest.push(parts[j].clone());
            proof {
                assert(rest.deep_view() =~= rpre.push(parts@[j as int]@));
                assert(parts.deep_view().subrange(1, j + 1) =~= parts.deep_view().subrange(
                    1,
                    j as int,
                ).push(parts.deep_view()[j as int]));
            }
            j += 1;
        }
        proof {
            assert(parts.deep_view().subrange(1, m as int) =~= parts.deep_view().drop_first());
        }
        Some(rest)
    } else {
        None
    };
    let env: Option<Vec<(String, String)>> = match json_obj_get(cfg, "environment") {
        Some(Json::Obj(e)) => Some(collect_string_entries(e)),
        _ => None,
    };
    let disabled: Option<bool> = match json_obj_get(cfg, "enabled") {
        Some(Json::Bool(b)) => Some(!*b),
        _ => None,
    };
    let url: Option<String> = match json_obj_get(cfg, "url") {
        Some(Json::Str(s)) => Some(s.clone()),
        _ => None,
    };
    McpServer {
        name,
        command,
        args,
        env,
        disabled,
        url,
        target: None,
        extra: None,
    }
}

/// Reads every server from an OpenCode-layout document.
pub fn parse_opencode_mcp_servers(root: &Json) -> (r: Result<Vec<McpServer>, McpError>)
    ensures
        match r {
            Ok(list) => spec_parse_opencode(root@) == Some(server_views(list@)),
            Err(e) => spec_parse_opencode(root@) is None && e is InvalidFormat,
        },
{
    match root {
        Json::Obj(root_entries) => {
            match json_obj_get(root_entries, "mcp") {
                None => {
                    let r: Vec<McpServer> = Vec::new();
                    proof {
                        assert(server_views(r@) =~= Seq::<McpServerV>::empty());
                    }
                    Ok(r)
                },
                Some(j) => match j {
                    Json::Obj(servers) => Ok(parse_oc_entries(servers)),
                    _ => Err(McpError::InvalidFormat(String::from_str("mcp is not an object"))),
                },
            }
        },
        _ => {
            let r: Vec<McpServer> = Vec::new();
            proof {
                assert(server_views(r@) =~= Seq::<McpServerV>::empty());
            }
            Ok(r)
        },
    }
}

fn parse_oc_entries(servers: &Vec<(String, Json)>) -> (r: Vec<McpServer>)
    ensures
        server_views(r@) == spec_parse_oc_entries(jview_obj(servers@)),
{
    let n = servers.len();
    let mut out: Vec<McpServer> = Vec::new();
    let mut i: usize = 0;
    proof {
        lemma_jview_obj(servers@);
        assert(jview_obj(servers@.take(0)) =~= Seq::<(Seq<char>, JsonV)>::empty());
        assert(server_views(out@) =~= spec_parse_oc_entries(jview_obj(servers@.take(0))));
    }
    while i < n
        invariant
            n == servers.len(),
            0 <= i <= n,
            jview_obj(servers@).len() == n,
            forall|k: int| 0 <= k < n ==> jview_obj(servers@)[k] == (servers@[k].0@, jview(
                servers@[k].1,
            )),
            server_views(out@) == spec_parse_oc_entries(jview_obj(servers@.take(i as int))),
        decreases n - i,
    {
        let ghost gpre = jview_obj(servers@.take(i as int));
        let ghost gcur = jview_obj(servers@.take(i + 1));
        proof {
            lemma_jview_obj(servers@.take(i + 1));
            assert(servers@.take(i + 1).drop_last() =~= servers@.take(i as int));
            assert(servers@.take(i + 1).last() == servers@[i as int]);
            assert(gcur.drop_last() =~= gpre);
            assert(gcur.last() == (servers@[i as int].0@, jview(servers@[i as int].1)));
        }
        match &servers[i].1 {
            Json::Obj(cfg) => {
                let name = servers[i].0.clone();
                let s = parse_oc_server_object(name, cfg);
                let ghost opre = server_views(out@);
                out.push(s);
                proof {
                    assert(server_views(out@) =~= opre.push(s@));
                }
            },
            _ => {},
        }
        i += 1;
    }
    proof {
        assert(servers@.take(n as int) =~= servers@);
    }
    out
}

/// Writing one server in the Copilot layout: `command` always, `args` and
/// `env` when present, nothing else.
pub open spec fn spec_copilot_server_obj(s: McpServerV) -> Seq<(Seq<char>, JsonV)> {
    seq![("command"@, JsonV::Str(s.command))] + blk_args(s) + blk_env(s)
}

pub open spec fn spec_serialize_copilot(list: Seq<McpServerV>) -> JsonV {
    JsonV::Obj(list.map_values(|s: McpServerV| (s.name, JsonV::Obj(spec_copilot_server_obj(s)))))
}

fn copilot_server_obj(s: &McpServer) -> (r: Vec<(String, Json)>)
    ensures
        jview_obj(r@) == spec_copilot_server_obj(s@),
{
    let mut o: Vec<(String, Json)> = Vec::new();
    proof {
        assert(jview_obj(o@) =~= Seq::<(Seq<char>, JsonV)>::empty());
    }
    push_entry(&mut o, "command", Json::Str(s.command.clone()));
    proof {
        assert(jview_obj(o@) =~= seq![("command"@, JsonV::Str(s@.command))]);
    }
    let ghost g1 = jview_obj(o@);
    match &s.args {
        Some(a) => {
            let items = strings_to_json(a);
            push_entry(&mut o, "args", Json::Arr(items));
            proof {
                assert(jview_obj(o@) =~= g1 + blk_args(s@));
            }
        },
        None => {
            proof {
                assert(jview_obj(o@) =~= g1 + blk_args(s@));
            }
        },
    }
    let ghost g2 = jview_obj(o@);
    match &s.env {
        Some(e) => {
            let entries = env_entries_to_json(e);
            push_entry(&mut o, "env", Json::Obj(entries));
            proof {
                assert(jview_obj(o@) =~= g2 + blk_env(s@));
            }
        },
        None => {
            proof {
                assert(jview_obj(o@) =~= g2 + blk_env(s@));
            }
        },
    }
    proof {
        assert(jview_obj(o@) =~= spec_copilot_server_obj(s@));
    }
    o
}

/// Writes a server list in the Copilot layout.
pub fn servers_to_copilot_format(servers: &Vec<McpServer>) -> (r: Json)
    ensures
        r@ == spec_serialize_copilot(server_views(servers@)),
{
    let n = servers.len();
    let mut out: Vec<(String, Json)> = Vec::new();
    let mut i: usize = 0;
    proof {
        assert(jview_obj(out@) =~= server_views(servers@).take(0).map_values(
            |s: McpServerV| (s.name, JsonV::Obj(spec_copilot_server_obj(s))),
        ));
    }
    while i < n
        invariant
            n == servers.len(),
            0 <= i <= n,
            jview_obj(out@) == server_views(servers@).take(i as int).map_values(
                |s: McpServerV| (s.name, JsonV::Obj(spec_copilot_server_obj(s))),
            ),
        decreases n - i,
    {
        let obj = copilot_server_obj(&servers[i]);
        let name = servers[i].name.clone();
        let ghost opre = out@;
        push_entry_key(&mut out, name, Json::Obj(obj));
        proof {
            assert(jview_obj(out@) == jview_obj(opre).push((servers@[i as int]@.name, JsonV::Obj(
                spec_copilot_server_obj(servers@[i as int]@),
            ))));
            assert(server_views(servers@).take(i + 1).map_values(
                |s: McpServerV| (s.name, JsonV::Obj(spec_copilot_server_obj(s))),
            ) =~= server_views(servers@).take(i as int).map_values(
                |s: McpServerV| (s.name, JsonV::Obj(spec_copilot_server_obj(s))),
            ).push((servers@[i as int]@.name, JsonV::Obj(spec_copilot_server_obj(
                servers@[i as int]@,
            )))));
        }
        i += 1;
    }
    proof {
        assert(server_views(servers@).take(n as int) =~= server_views(servers@));
    }
    Json::Obj(out)
}

/// The command array written for one server: the program first, then the
/// arguments.
pub open spec fn spec_oc_cmd(s: McpServerV) -> Seq<Seq<char>> {
    seq![s.command] + match s.args {
        Some(a) => a,
        None => Seq::empty(),
    }
}

/// Writing one server in the OpenCode layout: a command array, the
/// environment under `environment`, `url` with `type` `remote` for remote
/// servers and `type` `local` otherwise, and `enabled` always.
pub open spec fn spec_oc_server_obj(s: McpServerV) -> Seq<(Seq<char>, JsonV)> {
    seq![("command"@, JsonV::Arr(spec_strs_json(spec_oc_cmd(s))))] + (match s.env {
        Some(e) => seq![("environment"@, JsonV::Obj(spec_env_json(e)))],
        None => Seq::empty(),
    }) + (match s.url {
        Some(u) => seq![("url"@, JsonV::Str(u)), ("type"@, JsonV::Str("remote"@))],
        None => seq![("type"@, JsonV::Str("local"@))],
    }) + seq![("enabled"@, JsonV::Bool(s.disabled != Some(true)))]
}

pub open spec fn spec_serialize_opencode(list: Seq<McpServerV>) -> JsonV {
    JsonV::Obj(list.map_values(|s: McpServerV| (s.name, JsonV::Obj(spec_oc_server_obj(s)))))
}

fn oc_server_obj(s: &McpServer) -> (r: Vec<(String, Json)>)
    ensures
        jview_obj(r@) == spec_oc_server_obj(s@),
{
    let mut cv: Vec<Json> = Vec::new();
    proof {
        assert(jview_arr(cv@) =~= Seq::<JsonV>::empty());
    }
    push_item(&mut cv, Json::Str(s.command.clone()));
    proof {
        assert(jview_arr(cv@) =~= spec_strs_json(spec_oc_cmd(s@).take(1)));
    }
    match &s.args {
        Some(a) => {
            let m = a.len();
            let mut j: usize = 0;
            while j < m
                invariant
                    m == a.len(),
                    0 <= j <= m,
                    s.args matches Some(aa) && aa == a,
                    spec_oc_cmd(s@).len() == 1 + m,
                    jview_arr(cv@) == spec_strs_json(spec_oc_cmd(s@).take(1 + j as int)),
                decreases m - j,
            {
                let ghost cpre = jview_arr(cv@);
                push_item(&mut cv, Json::Str(a[j].clone()));
                proof {
                    assert(spec_oc_cmd(s@)[1 + j as int] == a.deep_view()[j as int]);
                    assert(spec_strs_json(spec_oc_cmd(s@).take(1 + j + 1)) =~= spec_strs_json(
                        spec_oc_cmd(s@).take(1 + j as int),
                    ).push(JsonV::Str(a@[j as int]@)));
                }
                j += 1;
            }
            proof {
                assert(spec_oc_cmd(s@).take(1 + m as int) =~= spec_oc_cmd(s@));
            }
        },
        None => {
            proof {
                assert(spec_oc_cmd(s@).take(1) =~= spec_oc_cmd(s@));
            }
        },
    }
    let mut o: Vec<(String, Json)> = Vec::new();
    proof {
        assert(jview_obj(o@) =~= Seq::<(Seq<char>, JsonV)>::empty());
    }
    push_entry(&mut o, "command", Json::Arr(cv));
    proof {
        assert(jview_obj(o@) =~= seq![("command"@, JsonV::Arr(spec_strs_json(spec_oc_cmd(s@))))]);
    }
    let ghost g1 = jview_obj(o@);
    match &s.env {
        Some(e) => {
            let entries = env_entries_to_json(e);
            push_entry(&mut o, "environment", Json::Obj(entries));
            proof {
                assert(jview_obj(o@) =~= g1 + seq![("environment"@, JsonV::Obj(spec_env_json(
                    e.deep_view(),
                )))]);
            }
        },
        None => {},
    }
    let ghost g2 = jview_obj(o@);
    proof {
        assert(g2 == seq![("command"@, JsonV::Arr(spec_strs_json(spec_oc_cmd(s@))))] + (
        match s@.env {
            Some(e) => seq![("environment"@, JsonV::Obj(spec_env_json(e)))],
            None => Seq::<(Seq<char>, JsonV)>::empty(),
        }));
    }
    match &s.url {
        Some(u) => {
            push_entry(&mut o, "url", Json::Str(u.clone()));
            push_entry(&mut o, "type", Json::Str(String::from_str("remote")));
            proof {
                assert(jview_obj(o@) =~= g2 + seq![
                    ("url"@, JsonV::Str(u@)),
                    ("type"@, JsonV::Str("remote"@)),
                ]);
            }
        },
        None => {
            push_entry(&mut o, "type", Json::Str(String::from_str("local")));
            proof {
                assert(jview_obj(o@) =~= g2 + seq![("type"@, JsonV::Str("local"@))]);
            }
        },
    }
    let ghost g3 = jview_obj(o@);
    let enabled: bool = match s.disabled {
        Some(d) => !d,
        None => true,
    };
    push_entry(&mut o, "enabled", Json::Bool(enabled));
    proof {
        assert(jview_obj(o@) =~= g3 + seq![("enabled"@, JsonV::Bool(s@.disabled != Some(true)))]);
        assert(jview_obj(o@) =~= spec_oc_server_obj(s@));
    }
    o
}

/// Writes a server list in the OpenCode layout.
pub fn servers_to_opencode_format(servers: &Vec<McpServer>) -> (r: Json)
    ensures
        r@ == spec_serialize_opencode(server_views(servers@)),
{
    let n = servers.len();
    let mut out: Vec<(String, Json)> = Vec::new();
    let mut i: usize = 0;
    proof {
        assert(jview_obj(out@) =~= server_views(servers@).take(0).map_values(
            |s: McpServerV| (s.name, JsonV::Obj(spec_oc_server_obj(s))),
        ));
    }
    while i < n
        invariant
            n == servers.len(),
            0 <= i <= n,
            jview_obj(out@) == server_views(servers@).take(i as int).map_values(
                |s: McpServerV| (s.name, JsonV::Obj(spec_oc_server_obj(s))),
            ),
        decreases n - i,
    {
        let obj = oc_server_obj(&servers[i]);
        let name = servers[i].name.clone();
        let ghost opre = out@;
        push_entry_key(&mut out, name, Json::Obj(obj));
        proof {
            assert(jview_obj(out@) == jview_obj(opre).push((servers@[i as int]@.name, JsonV::Obj(
                spec_oc_server_obj(servers@[i as int]@),
            ))));
            assert(server_views(servers@).take(i + 1).map_values(
                |s: McpServerV| (s.name, JsonV::Obj(spec_oc_server_obj(s))),
            ) =~= server_views(servers@).take(i as int).map_values(
                |s: McpServerV| (s.name, JsonV::Obj(spec_oc_server_obj(s))),
            ).push((servers@[i as int]@.name, JsonV::Obj(spec_oc_server_obj(
                servers@[i as int]@,
            )))));
        }
        i += 1;
    }
    proof {
        assert(server_views(servers@).take(n as int) =~= server_views(servers@));
    }
    Json::Obj(out)
}

/// Which serializer a format uses.
pub open spec fn spec_serialize_tool(list: Seq<McpServerV>, fmt: crate::types::McpToolFormat)
    -> JsonV {
    match fmt {
        crate::types::McpToolFormat::Standard => spec_serialize_standard(list),
        crate::types::McpToolFormat::Copilot => spec_serialize_copilot(list),
        crate::types::McpToolFormat::Opencode => spec_serialize_opencode(list),
    }
}

/// Writes a server list in the layout of the given format.
pub fn servers_to_tool_format(servers: &Vec<McpServer>, format: &crate::types::McpToolFormat)
    -> (r: Json)
    ensures
        r@ == spec_serialize_tool(server_views(servers@), *format),
{
    match format {
        crate::types::McpToolFormat::Standard => servers_to_standard_format(servers),
        crate::types::McpToolFormat::Copilot => servers_to_copilot_format(servers),
        crate::types::McpToolFormat::Opencode => servers_to_opencode_format(servers),
    }
}

} // verus!
