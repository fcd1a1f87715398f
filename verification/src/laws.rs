//! The laws of the adapter family: reading back a written server list gives
//! the list again, and unknown properties of a Standard server object
//! survive a parse/write cycle unchanged.

use vstd::prelude::*;
use crate::json::{
    JsonV, obj_get, obj_key_index, lemma_obj_key_index, lemma_obj_get_absent,
    lemma_obj_get_singleton, lemma_obj_get_concat,
};
use crate::types::McpServerV;
use crate::adapters::{
    spec_string_items, spec_string_entries, spec_extra_entries, known_std_key, spec_strs_json,
    spec_env_json, spec_parse_std_server, spec_parse_std_entries, spec_parse_standard,
    spec_std_server_obj, spec_serialize_standard, blk_command, blk_args, blk_env, blk_disabled,
    blk_url, blk_target, blk_extra, spec_parse_copilot_server, spec_parse_copilot_entries,
    spec_parse_copilot, spec_copilot_server_obj, spec_serialize_copilot, spec_parse_oc_server,
    spec_parse_oc_entries, spec_parse_opencode, spec_oc_server_obj, spec_serialize_opencode,
    spec_oc_cmd,
};

verus! {

pub proof fn lemma_obj_get_empty(key: Seq<char>)
    ensures
        obj_get(Seq::<(Seq<char>, JsonV)>::empty(), key) is None,
{
}

/// Strings written as a JSON string array read back unchanged.
pub proof fn lemma_string_items_of_strs(a: Seq<Seq<char>>)
    ensures
        spec_string_items(spec_strs_json(a)) == a,
    decreases a.len(),
{
    if a.len() == 0 {
        assert(spec_strs_json(a) =~= Seq::<JsonV>::empty());
        assert(spec_string_items(spec_strs_json(a)) =~= a);
    } else {
        lemma_string_items_of_strs(a.drop_last());
        let m = spec_strs_json(a);
        assert(m.drop_last() =~= spec_strs_json(a.drop_last()));
        assert(m.last() == JsonV::Str(a.last()));
        assert(spec_string_items(m) == spec_string_items(m.drop_last()).push(a.last()));
        assert(spec_string_items(m) =~= a);
    }
}

/// String pairs written as a JSON object with string values read back
/// unchanged.
pub proof fn lemma_string_entries_of_env(e: Seq<(Seq<char>, Seq<char>)>)
    ensures
        spec_string_entries(spec_env_json(e)) == e,
    decreases e.len(),
{
    if e.len() == 0 {
        assert(spec_env_json(e) =~= Seq::<(Seq<char>, JsonV)>::empty());
        assert(spec_string_entries(spec_env_json(e)) =~= e);
    } else {
        lemma_string_entries_of_env(e.drop_last());
        let m = spec_env_json(e);
        assert(m.drop_last() =~= spec_env_json(e.drop_last()));
        assert(m.last() == (e.last().0, JsonV::Str(e.last().1)));
        assert(spec_string_entries(m) == spec_string_entries(m.drop_last()).push(e.last()));
        assert(spec_string_entries(m) =~= e);
    }
}

pub proof fn lemma_extra_concat(a: Seq<(Seq<char>, JsonV)>, b: Seq<(Seq<char>, JsonV)>)
    ensures
        spec_extra_entries(a + b) == spec_extra_entries(a) + spec_extra_entries(b),
    decreases b.len(),
{
    if b.len() == 0 {
        assert(a + b =~= a);
        assert(spec_extra_entries(b) =~= Seq::<(Seq<char>, JsonV)>::empty());
        assert(spec_extra_entries(a) + spec_extra_entries(b) =~= spec_extra_entries(a));
    } else {
        lemma_extra_concat(a, b.drop_last());
        assert((a + b).drop_last() =~= a + b.drop_last());
        assert((a + b).last() == b.last());
        if known_std_key(b.last().0) {
            assert(spec_extra_entries(a + b) =~= spec_extra_entries(a) + spec_extra_entries(b));
        } else {
            assert(spec_extra_entries(a + b) =~= spec_extra_entries(a) + spec_extra_entries(b));
        }
    }
}

pub proof fn lemma_extra_all_known(a: Seq<(Seq<char>, JsonV)>)
    requires
        forall|i: int| 0 <= i < a.len() ==> known_std_key((#[trigger] a[i]).0),
    ensures
        spec_extra_entries(a) == Seq::<(Seq<char>, JsonV)>::empty(),
    decreases a.len(),
{
    if a.len() > 0 {
        lemma_extra_all_known(a.drop_last());
    }
}

pub proof fn lemma_extra_all_unknown(a: Seq<(Seq<char>, JsonV)>)
    requires
        forall|i: int| 0 <= i < a.len() ==> !known_std_key((#[trigger] a[i]).0),
    ensures
        spec_extra_entries(a) == a,
    decreases a.len(),
{
    if a.len() > 0 {
        lemma_extra_all_unknown(a.drop_last());
        assert(spec_extra_entries(a) =~= a);
    }
}

/// Filtering a server object down to its unknown entries keeps the value
/// found under any unknown key.
pub proof fn lemma_obj_get_extra(entries: Seq<(Seq<char>, JsonV)>, k: Seq<char>)
    requires
        !known_std_key(k),
    ensures
        obj_get(spec_extra_entries(entries), k) == obj_get(entries, k),
    decreases entries.len(),
{
    if entries.len() == 0 {
        lemma_obj_get_empty(k);
    } else {
        let first = seq![entries[0]];
        let rest = entries.drop_first();
        assert(entries =~= first + rest);
        lemma_extra_concat(first, rest);
        assert(first.drop_last() =~= Seq::<(Seq<char>, JsonV)>::empty());
        assert(first.last() == entries[0]);
        assert(spec_extra_entries(Seq::<(Seq<char>, JsonV)>::empty()) =~= Seq::<(
            Seq<char>,
            JsonV,
        )>::empty());
        lemma_obj_get_extra(rest, k);
        lemma_obj_get_concat(spec_extra_entries(first), spec_extra_entries(rest), k);
        lemma_obj_key_index(entries, k);
        lemma_obj_key_index(rest, k);
        if known_std_key(entries[0].0) {
            assert(spec_extra_entries(first) =~= Seq::<(Seq<char>, JsonV)>::empty());
            lemma_obj_get_empty(k);
            assert(entries[0].0 != k);
            // the head is filtered out, and the lookup in `entries` skips it too
            assert(obj_key_index(entries, k) == 1 + obj_key_index(rest, k));
            if obj_key_index(rest, k) < rest.len() {
                assert(entries[1 + obj_key_index(rest, k)] == rest[obj_key_index(rest, k)]);
            }
        } else {
            assert(spec_extra_entries(first) =~= first);
            lemma_obj_get_singleton(entries[0].0, entries[0].1, k);
            if entries[0].0 != k {
                assert(obj_key_index(entries, k) == 1 + obj_key_index(rest, k));
                if obj_key_index(rest, k) < rest.len() {
                    assert(entries[1 + obj_key_index(rest, k)] == rest[obj_key_index(rest, k)]);
                }
            }
        }
    }
}

/// The six keys the Standard layout understands are pairwise distinct.
pub proof fn lemma_std_keys_distinct()
    ensures
        "command"@[0] == 'c',
        "args"@[0] == 'a',
        "env"@[0] == 'e',
        "disabled"@[0] == 'd',
        "url"@[0] == 'u',
        "_target"@[0] == '_',
        "command"@.len() == 7,
        "args"@.len() == 4,
        "env"@.len() == 3,
        "disabled"@.len() == 8,
        "url"@.len() == 3,
        "_target"@.len() == 7,
{
    reveal_strlit("command");
    reveal_strlit("args");
    reveal_strlit("env");
    reveal_strlit("disabled");
    reveal_strlit("url");
    reveal_strlit("_target");
}

/// Looking a key up across seven concatenated entry groups: the first group
/// that has the key wins.
pub proof fn lemma_obj_get_concat7(
    c1: Seq<(Seq<char>, JsonV)>,
    c2: Seq<(Seq<char>, JsonV)>,
    c3: Seq<(Seq<char>, JsonV)>,
    c4: Seq<(Seq<char>, JsonV)>,
    c5: Seq<(Seq<char>, JsonV)>,
    c6: Seq<(Seq<char>, JsonV)>,
    c7: Seq<(Seq<char>, JsonV)>,
    key: Seq<char>,
)
    ensures
        obj_get(c1 + c2 + c3 + c4 + c5 + c6 + c7, key) == (match obj_get(c1, key) {
            Some(v) => Some(v),
            None => match obj_get(c2, key) {
                Some(v) => Some(v),
                None => match obj_get(c3, key) {
                    Some(v) => Some(v),
                    None => match obj_get(c4, key) {
                        Some(v) => Some(v),
                        None => match obj_get(c5, key) {
                            Some(v) => Some(v),
                            None => match obj_get(c6, key) {
                                Some(v) => Some(v),
                                None => obj_get(c7, key),
                            },
                        },
                    },
                },
            },
        }),
{
    lemma_obj_get_concat(c1, c2, key);
    lemma_obj_get_concat(c1 + c2, c3, key);
    lemma_obj_get_concat(c1 + c2 + c3, c4, key);
    lemma_obj_get_concat(c1 + c2 + c3 + c4, c5, key);
    lemma_obj_get_concat(c1 + c2 + c3 + c4 + c5, c6, key);
    lemma_obj_get_concat(c1 + c2 + c3 + c4 + c5 + c6, c7, key);
}

/// The servers a Standard write can reproduce exactly: `disabled` is never
/// written when `Some(false)` (an enabled server is written bare), and the
/// unknown extras, when present, are a non-empty group of keys the layout
/// does not understand.
pub open spec fn std_round_trippable(s: McpServerV) -> bool {
    &&& s.disabled != Some(false)
    &&& match s.extra {
        Some(x) => x.len() > 0 && forall|i: int|
            0 <= i < x.len() ==> !known_std_key((#[trigger] x[i]).0),
        None => true,
    }
}

/// Reading back one written Standard server object gives the same server.
pub proof fn lemma_std_server_round_trip(s: McpServerV)
    requires
        std_round_trippable(s),
    ensures
        spec_parse_std_server(s.name, spec_std_server_obj(s)) == s,
{
    lemma_std_keys_distinct();
    let c1 = blk_command(s);
    let c2 = blk_args(s);
    let c3 = blk_env(s);
    let c4 = blk_disabled(s);
    let c5 = blk_url(s);
    let c6 = blk_target(s);
    let c7 = blk_extra(s);
    let e = spec_std_server_obj(s);
    assert(e == c1 + c2 + c3 + c4 + c5 + c6 + c7);
    assert forall|i: int| 0 <= i < c7.len() implies !known_std_key((#[trigger] c7[i]).0) by {
        match s.extra {
            Some(x) => {
                assert(c7 == x);
            },
            None => {},
        }
    }
    lemma_obj_get_absent(c7, "command"@);
    lemma_obj_get_absent(c7, "args"@);
    lemma_obj_get_absent(c7, "env"@);
    lemma_obj_get_absent(c7, "disabled"@);
    lemma_obj_get_absent(c7, "url"@);
    lemma_obj_get_absent(c7, "_target"@);

    // command
    lemma_obj_get_concat7(c1, c2, c3, c4, c5, c6, c7, "command"@);
    if s.command.len() > 0 {
        lemma_obj_get_singleton("command"@, JsonV::Str(s.command), "command"@);
    } else {
        lemma_obj_get_empty("command"@);
    }
    block_misses(s, "args"@, "command"@);
    block_misses(s, "env"@, "command"@);
    block_misses(s, "disabled"@, "command"@);
    block_misses(s, "url"@, "command"@);
    block_misses(s, "_target"@, "command"@);
    if s.command.len() == 0 {
        assert(s.command =~= Seq::<char>::empty());
    }
    assert(spec_parse_std_server(s.name, e).command == s.command);

    // args
    lemma_obj_get_concat7(c1, c2, c3, c4, c5, c6, c7, "args"@);
    block_misses(s, "command"@, "args"@);
    match s.args {
        Some(a) => {
            lemma_obj_get_singleton("args"@, JsonV::Arr(spec_strs_json(a)), "args"@);
            lemma_string_items_of_strs(a);
        },
        None => {
            lemma_obj_get_empty("args"@);
            block_misses(s, "env"@, "args"@);
            block_misses(s, "disabled"@, "args"@);
            block_misses(s, "url"@, "args"@);
            block_misses(s, "_target"@, "args"@);
        },
    }
    assert(spec_parse_std_server(s.name, e).args == s.args);

    // env
    lemma_obj_get_concat7(c1, c2, c3, c4, c5, c6, c7, "env"@);
    block_misses(s, "command"@, "env"@);
    block_misses(s, "args"@, "env"@);
    match s.env {
        Some(en) => {
            lemma_obj_get_singleton("env"@, JsonV::Obj(spec_env_json(en)), "env"@);
            lemma_string_entries_of_env(en);
        },
        None => {
            lemma_obj_get_empty("env"@);
            block_misses(s, "disabled"@, "env"@);
            block_misses(s, "url"@, "env"@);
            block_misses(s, "_target"@, "env"@);
        },
    }
    assert(spec_parse_std_server(s.name, e).env == s.env);

    // disabled
    lemma_obj_get_concat7(c1, c2, c3, c4, c5, c6, c7, "disabled"@);
    block_misses(s, "command"@, "disabled"@);
    block_misses(s, "args"@, "disabled"@);
    block_misses(s, "env"@, "disabled"@);
    block_misses(s, "url"@, "disabled"@);
    block_misses(s, "_target"@, "disabled"@);
    if s.disabled == Some(true) {
        lemma_obj_get_singleton("disabled"@, JsonV::Bool(true), "disabled"@);
    } else {
        lemma_obj_get_empty("disabled"@);
        match s.disabled {
            Some(b) => {
                assert(b == false);
                assert(false);
            },
            None => {},
        }
    }
    assert(spec_parse_std_server(s.name, e).disabled == s.disabled);

    // url
    lemma_obj_get_concat7(c1, c2, c3, c4, c5, c6, c7, "url"@);
    block_misses(s, "command"@, "url"@);
    block_misses(s, "args"@, "url"@);
    block_misses(s, "env"@, "url"@);
    block_misses(s, "disabled"@, "url"@);
    match s.url {
        Some(u) => {
            lemma_obj_get_singleton("url"@, JsonV::Str(u), "url"@);
        },
        None => {
            lemma_obj_get_empty("url"@);
            block_misses(s, "_target"@, "url"@);
        },
    }
    assert(spec_parse_std_server(s.name, e).url == s.url);

    // target
    lemma_obj_get_concat7(c1, c2, c3, c4, c5, c6, c7, "_target"@);
    block_misses(s, "command"@, "_target"@);
    block_misses(s, "args"@, "_target"@);
    block_misses(s, "env"@, "_target"@);
    block_misses(s, "disabled"@, "_target"@);
    block_misses(s, "url"@, "_target"@);
    match s.target {
        Some(t) => {
            lemma_obj_get_singleton("_target"@, JsonV::Str(t), "_target"@);
        },
        None => {
            lemma_obj_get_empty("_target"@);
        },
    }
    assert(spec_parse_std_server(s.name, e).target == s.target);

    // extra
    lemma_extra_concat(c1, c2);
    lemma_extra_concat(c1 + c2, c3);
    lemma_extra_concat(c1 + c2 + c3, c4);
    lemma_extra_concat(c1 + c2 + c3 + c4, c5);
    lemma_extra_concat(c1 + c2 + c3 + c4 + c5, c6);
    lemma_extra_concat(c1 + c2 + c3 + c4 + c5 + c6, c7);
    block_all_known(s, "command"@);
    block_all_known(s, "args"@);
    block_all_known(s, "env"@);
    block_all_known(s, "disabled"@);
    block_all_known(s, "url"@);
    block_all_known(s, "_target"@);
    lemma_extra_all_unknown(c7);
    assert(spec_extra_entries(e) =~= c7);
    assert(spec_parse_std_server(s.name, e).extra == s.extra);

    assert(spec_parse_std_server(s.name, e) == s);
}

/// The group written for `blk_key` holds no entry under `lookup`, for any
/// two distinct known keys.
proof fn block_misses(s: McpServerV, blk_key: Seq<char>, lookup: Seq<char>)
    requires
        blk_key != lookup,
        known_std_key(blk_key),
    ensures
        blk_key == "command"@ ==> obj_get(blk_command(s), lookup) is None,
        blk_key == "args"@ ==> obj_get(blk_args(s), lookup) is None,
        blk_key == "env"@ ==> obj_get(blk_env(s), lookup) is None,
        blk_key == "disabled"@ ==> obj_get(blk_disabled(s), lookup) is None,
        blk_key == "url"@ ==> obj_get(blk_url(s), lookup) is None,
        blk_key == "_target"@ ==> obj_get(blk_target(s), lookup) is None,
{
    lemma_obj_get_empty(lookup);
    if s.command.len() > 0 {
        lemma_obj_get_singleton("command"@, JsonV::Str(s.command), lookup);
    }
    match s.args {
        Some(a) => lemma_obj_get_singleton("args"@, JsonV::Arr(spec_strs_json(a)), lookup),
        None => (),
    }
    match s.env {
        Some(e) => lemma_obj_get_singleton("env"@, JsonV::Obj(spec_env_json(e)), lookup),
        None => (),
    }
    if s.disabled == Some(true) {
        lemma_obj_get_singleton("disabled"@, JsonV::Bool(true), lookup);
    }
    match s.url {
        Some(u) => lemma_obj_get_singleton("url"@, JsonV::Str(u), lookup),
        None => (),
    }
    match s.target {
        Some(t) => lemma_obj_get_singleton("_target"@, JsonV::Str(t), lookup),
        None => (),
    }
}

/// Every written named-field group carries only keys the layout understands.
proof fn block_all_known(s: McpServerV, blk_key: Seq<char>)
    requires
        known_std_key(blk_key),
    ensures
        blk_key == "command"@ ==> spec_extra_entries(blk_command(s)) == Seq::<(
            Seq<char>,
            JsonV,
        )>::empty(),
        blk_key == "args"@ ==> spec_extra_entries(blk_args(s)) == Seq::<(Seq<char>, JsonV)>::empty(),
        blk_key == "env"@ ==> spec_extra_entries(blk_env(s)) == Seq::<(Seq<char>, JsonV)>::empty(),
        blk_key == "disabled"@ ==> spec_extra_entries(blk_disabled(s)) == Seq::<(
            Seq<char>,
            JsonV,
        )>::empty(),
        blk_key == "url"@ ==> spec_extra_entries(blk_url(s)) == Seq::<(Seq<char>, JsonV)>::empty(),
        blk_key == "_target"@ ==> spec_extra_entries(blk_target(s)) == Seq::<(
            Seq<char>,
            JsonV,
        )>::empty(),
{
    lemma_extra_all_known(blk_command(s));
    lemma_extra_all_known(blk_args(s));
    lemma_extra_all_known(blk_env(s));
    lemma_extra_all_known(blk_disabled(s));
    lemma_extra_all_known(blk_url(s));
    lemma_extra_all_known(blk_target(s));
}

/// Reading back a written Standard container object gives the same list.
pub proof fn lemma_std_entries_round_trip(list: Seq<McpServerV>)
    requires
        forall|i: int| 0 <= i < list.len() ==> std_round_trippable(#[trigger] list[i]),
    ensures
        spec_parse_std_entries(
            list.map_values(|s: McpServerV| (s.name, JsonV::Obj(spec_std_server_obj(s)))),
        ) == list,
    decreases list.len(),
{
    let m = list.map_values(|s: McpServerV| (s.name, JsonV::Obj(spec_std_server_obj(s))));
    if list.len() == 0 {
        assert(spec_parse_std_entries(m) =~= list);
    } else {
        let pre = list.drop_last();
        lemma_std_entries_round_trip(pre);
        assert(m.drop_last() =~= pre.map_values(
            |s: McpServerV| (s.name, JsonV::Obj(spec_std_server_obj(s))),
        ));
        assert(m.last() == (list.last().name, JsonV::Obj(spec_std_server_obj(list.last()))));
        lemma_std_server_round_trip(list.last());
        assert(spec_parse_std_entries(m) == pre.push(list.last()));
        assert(pre.push(list.last()) =~= list);
    }
}

/// Round trip for the Standard layout: writing a server list under `key`
/// and reading it back yields the list unchanged.  Servers must be ones the
/// layout can represent exactly: see `std_round_trippable`.
pub proof fn lemma_standard_round_trip(list: Seq<McpServerV>, key: Seq<char>)
    requires
        forall|i: int| 0 <= i < list.len() ==> std_round_trippable(#[trigger] list[i]),
    ensures
        spec_parse_standard(
            JsonV::Obj(seq![(key, spec_serialize_standard(list))]),
            key,
        ) == Some(list),
{
    lemma_obj_get_singleton(key, spec_serialize_standard(list), key);
    lemma_std_entries_round_trip(list);
}

/// The servers a Copilot write can reproduce exactly: nothing beyond name,
/// command, arguments and environment is carried by that layout.
pub open spec fn copilot_round_trippable(s: McpServerV) -> bool {
    s.disabled is None && s.url is None && s.target is None && s.extra is None
}

/// Reading back one written Copilot server object gives the same server.
pub proof fn lemma_copilot_server_round_trip(s: McpServerV)
    requires
        copilot_round_trippable(s),
    ensures
        spec_parse_copilot_server(s.name, spec_copilot_server_obj(s)) == s,
{
    lemma_std_keys_distinct();
    let b1 = seq![("command"@, JsonV::Str(s.command))];
    let b2 = blk_args(s);
    let b3 = blk_env(s);
    let e = spec_copilot_server_obj(s);
    assert(e == b1 + b2 + b3);

    // command
    lemma_obj_get_concat(b1, b2, "command"@);
    lemma_obj_get_concat(b1 + b2, b3, "command"@);
    lemma_obj_get_singleton("command"@, JsonV::Str(s.command), "command"@);
    assert(spec_parse_copilot_server(s.name, e).command == s.command);

    // args
    lemma_obj_get_concat(b1, b2, "args"@);
    lemma_obj_get_concat(b1 + b2, b3, "args"@);
    lemma_obj_get_singleton("command"@, JsonV::Str(s.command), "args"@);
    match s.args {
        Some(a) => {
            lemma_obj_get_singleton("args"@, JsonV::Arr(spec_strs_json(a)), "args"@);
            lemma_string_items_of_strs(a);
        },
        None => {
            lemma_obj_get_empty("args"@);
            match s.env {
                Some(en) => lemma_obj_get_singleton("env"@, JsonV::Obj(spec_env_json(en)), "args"@),
                None => (),
            }
        },
    }
    assert(spec_parse_copilot_server(s.name, e).args == s.args);

    // env
    lemma_obj_get_concat(b1, b2, "env"@);
    lemma_obj_get_concat(b1 + b2, b3, "env"@);
    lemma_obj_get_singleton("command"@, JsonV::Str(s.command), "env"@);
    match s.args {
        Some(a) => lemma_obj_get_singleton("args"@, JsonV::Arr(spec_strs_json(a)), "env"@),
        None => lemma_obj_get_empty("env"@),
    }
    match s.env {
        Some(en) => {
            lemma_obj_get_singleton("env"@, JsonV::Obj(spec_env_json(en)), "env"@);
            lemma_string_entries_of_env(en);
        },
        None => {
            lemma_obj_get_empty("env"@);
        },
    }
    assert(spec_parse_copilot_server(s.name, e).env == s.env);

    assert(spec_parse_copilot_server(s.name, e) == s);
}

pub proof fn lemma_copilot_entries_round_trip(list: Seq<McpServerV>)
    requires
        forall|i: int| 0 <= i < list.len() ==> copilot_round_trippable(#[trigger] list[i]),
    ensures
        spec_parse_copilot_entries(
            list.map_values(|s: McpServerV| (s.name, JsonV::Obj(spec_copilot_server_obj(s)))),
        ) == list,
    decreases list.len(),
{
    let m = list.map_values(|s: McpServerV| (s.name, JsonV::Obj(spec_copilot_server_obj(s))));
    if list.len() == 0 {
        assert(spec_parse_copilot_entries(m) =~= list);
    } else {
        let pre = list.drop_last();
        lemma_copilot_entries_round_trip(pre);
        assert(m.drop_last() =~= pre.map_values(
            |s: McpServerV| (s.name, JsonV::Obj(spec_copilot_server_obj(s))),
        ));
        assert(m.last() == (list.last().name, JsonV::Obj(spec_copilot_server_obj(list.last()))));
        lemma_copilot_server_round_trip(list.last());
        assert(spec_parse_copilot_entries(m) == pre.push(list.last()));
        assert(pre.push(list.last()) =~= list);
    }
}

/// Round trip for the Copilot layout, for servers that layout can carry.
pub proof fn lemma_copilot_round_trip(list: Seq<McpServerV>)
    requires
        forall|i: int| 0 <= i < list.len() ==> copilot_round_trippable(#[trigger] list[i]),
    ensures
        spec_parse_copilot(
            JsonV::Obj(seq![("servers"@, spec_serialize_copilot(list))]),
        ) == Some(list),
{
    lemma_obj_get_singleton("servers"@, spec_serialize_copilot(list), "servers"@);
    lemma_copilot_entries_round_trip(list);
}

/// The keys the OpenCode layout writes are pairwise distinct.
pub proof fn lemma_oc_keys_distinct()
    ensures
        "command"@[0] == 'c',
        "environment"@[0] == 'e',
        "url"@[0] == 'u',
        "type"@[0] == 't',
        "enabled"@[0] == 'e',
        "environment"@.len() == 11,
        "enabled"@.len() == 7,
{
    reveal_strlit("command");
    reveal_strlit("environment");
    reveal_strlit("url");
    reveal_strlit("type");
    reveal_strlit("enabled");
}

/// Looking a key up in a two-entry object.
pub proof fn lemma_obj_get_pair(k1: Seq<char>, v1: JsonV, k2: Seq<char>, v2: JsonV, key: Seq<char>)
    ensures
        obj_get(seq![(k1, v1), (k2, v2)], key) == (if k1 == key {
            Some(v1)
        } else if k2 == key {
            Some(v2)
        } else {
            Option::<JsonV>::None
        }),
{
    let s = seq![(k1, v1), (k2, v2)];
    assert(s[0] == (k1, v1));
    assert(s.drop_first() =~= seq![(k2, v2)]);
    lemma_obj_get_singleton(k2, v2, key);
    lemma_obj_key_index(s, key);
    lemma_obj_key_index(seq![(k2, v2)], key);
    if k1 != key {
        assert(obj_key_index(s, key) == 1 + obj_key_index(seq![(k2, v2)], key));
        if k2 == key {
            assert(s[1] == (k2, v2));
        }
    }
}

/// The servers an OpenCode write can reproduce exactly: the layout carries
/// no provenance tag and no unknown extras, it always writes an `enabled`
/// flag, and an empty argument list is indistinguishable from none.
pub open spec fn opencode_round_trippable(s: McpServerV) -> bool {
    &&& s.target is None
    &&& s.extra is None
    &&& s.disabled is Some
    &&& match s.args {
        Some(a) => a.len() > 0,
        None => true,
    }
}

/// Reading back one written OpenCode server object gives the same server.
pub proof fn lemma_oc_server_round_trip(s: McpServerV)
    requires
        opencode_round_trippable(s),
    ensures
        spec_parse_oc_server(s.name, spec_oc_server_obj(s)) == s,
{
    lemma_oc_keys_distinct();
    let b1 = seq![("command"@, JsonV::Arr(spec_strs_json(spec_oc_cmd(s))))];
    let b2 = match s.env {
        Some(en) => seq![("environment"@, JsonV::Obj(spec_env_json(en)))],
        None => Seq::<(Seq<char>, JsonV)>::empty(),
    };
    let b3 = match s.url {
        Some(u) => seq![("url"@, JsonV::Str(u)), ("type"@, JsonV::Str("remote"@))],
        None => seq![("type"@, JsonV::Str("local"@))],
    };
    let b4 = seq![("enabled"@, JsonV::Bool(s.disabled != Some(true)))];
    let e = spec_oc_server_obj(s);
    assert(e == b1 + b2 + b3 + b4);

    let cmd_items = spec_oc_cmd(s);
    lemma_string_items_of_strs(cmd_items);
    assert(cmd_items[0] == s.command);

    // helper facts for each lookup key, evaluated block by block
    let keys = seq!["command"@, "environment"@, "enabled"@, "url"@];
    assert forall|ki: int| 0 <= ki < keys.len() implies obj_get(e, #[trigger] keys[ki])
        == obj_get_oc_chain(s, keys[ki]) by {
        let key = keys[ki];
        lemma_obj_get_concat(b1, b2, key);
        lemma_obj_get_concat(b1 + b2, b3, key);
        lemma_obj_get_concat(b1 + b2 + b3, b4, key);
        lemma_obj_get_singleton("command"@, JsonV::Arr(spec_strs_json(spec_oc_cmd(s))), key);
        match s.env {
            Some(en) => lemma_obj_get_singleton(
                "environment"@,
                JsonV::Obj(spec_env_json(en)),
                key,
            ),
            None => lemma_obj_get_empty(key),
        }
        match s.url {
            Some(u) => lemma_obj_get_pair(
                "url"@,
                JsonV::Str(u),
                "type"@,
                JsonV::Str("remote"@),
                key,
            ),
            None => lemma_obj_get_singleton("type"@, JsonV::Str("local"@), key),
        }
        lemma_obj_get_singleton("enabled"@, JsonV::Bool(s.disabled != Some(true)), key);
    }
    assert(keys[0] == "command"@);
    assert(keys[1] == "environment"@);
    assert(keys[2] == "enabled"@);
    assert(keys[3] == "url"@);

    // command and args
    assert(obj_get(e, "command"@) == Some(JsonV::Arr(spec_strs_json(spec_oc_cmd(s)))));
    assert(cmd_items.len() >= 1);
    assert(spec_parse_oc_server(s.name, e).command == s.command);
    match s.args {
        Some(a) => {
            assert(cmd_items.len() == 1 + a.len());
            assert(cmd_items.drop_first() =~= a);
        },
        None => {
            assert(cmd_items.len() == 1);
        },
    }
    assert(spec_parse_oc_server(s.name, e).args == s.args);

    // environment
    match s.env {
        Some(en) => lemma_string_entries_of_env(en),
        None => (),
    }
    assert(spec_parse_oc_server(s.name, e).env == s.env);

    // enabled
    assert(obj_get(e, "enabled"@) == Some(JsonV::Bool(s.disabled != Some(true))));
    match s.disabled {
        Some(d) => {
            if d {
                assert(s.disabled == Some(true));
            } else {
                assert(s.disabled != Some(true));
            }
        },
        None => {
            assert(false);
        },
    }
    assert(spec_parse_oc_server(s.name, e).disabled == s.disabled);

    // url
    assert(spec_parse_oc_server(s.name, e).url == s.url);

    assert(spec_parse_oc_server(s.name, e) == s);
}

/// The value each lookup finds in a written OpenCode server object.
pub open spec fn obj_get_oc_chain(s: McpServerV, key: Seq<char>) -> Option<JsonV> {
    if key == "command"@ {
        Some(JsonV::Arr(spec_strs_json(spec_oc_cmd(s))))
    } else if key == "environment"@ {
        match s.env {
            Some(en) => Some(JsonV::Obj(spec_env_json(en))),
            None => None,
        }
    } else if key == "url"@ {
        match s.url {
            Some(u) => Some(JsonV::Str(u)),
            None => None,
        }
    } else if key == "enabled"@ {
        Some(JsonV::Bool(s.disabled != Some(true)))
    } else {
        None
    }
}

pub proof fn lemma_oc_entries_round_trip(list: Seq<McpServerV>)
    requires
        forall|i: int| 0 <= i < list.len() ==> opencode_round_trippable(#[trigger] list[i]),
    ensures
        spec_parse_oc_entries(
            list.map_values(|s: McpServerV| (s.name, JsonV::Obj(spec_oc_server_obj(s)))),
        ) == list,
    decreases list.len(),
{
    let m = list.map_values(|s: McpServerV| (s.name, JsonV::Obj(spec_oc_server_obj(s))));
    if list.len() == 0 {
        assert(spec_parse_oc_entries(m) =~= list);
    } else {
        let pre = list.drop_last();
        lemma_oc_entries_round_trip(pre);
        assert(m.drop_last() =~= pre.map_values(
            |s: McpServerV| (s.name, JsonV::Obj(spec_oc_server_obj(s))),
        ));
        assert(m.last() == (list.last().name, JsonV::Obj(spec_oc_server_obj(list.last()))));
        lemma_oc_server_round_trip(list.last());
        assert(spec_parse_oc_entries(m) == pre.push(list.last()));
        assert(pre.push(list.last()) =~= list);
    }
}

/// Round trip for the OpenCode layout, for servers that layout can carry.
pub proof fn lemma_opencode_round_trip(list: Seq<McpServerV>)
    requires
        forall|i: int| 0 <= i < list.len() ==> opencode_round_trippable(#[trigger] list[i]),
    ensures
        spec_parse_opencode(
            JsonV::Obj(seq![("mcp"@, spec_serialize_opencode(list))]),
        ) == Some(list),
{
    lemma_obj_get_singleton("mcp"@, spec_serialize_opencode(list), "mcp"@);
    lemma_oc_entries_round_trip(list);
}

/// Unknown-field preservation: parsing a Standard server object and writing
/// the result back reproduces, under every key the layout does not
/// understand, exactly the value the source object carried there.
pub proof fn lemma_unknown_field_preservation(
    name: Seq<char>,
    entries: Seq<(Seq<char>, JsonV)>,
    k: Seq<char>,
)
    requires
        !known_std_key(k),
    ensures
        obj_get(spec_std_server_obj(spec_parse_std_server(name, entries)), k) == obj_get(
            entries,
            k,
        ),
{
    let s = spec_parse_std_server(name, entries);
    let c1 = blk_command(s);
    let c2 = blk_args(s);
    let c3 = blk_env(s);
    let c4 = blk_disabled(s);
    let c5 = blk_url(s);
    let c6 = blk_target(s);
    let c7 = blk_extra(s);
    let e = spec_std_server_obj(s);
    assert(e == c1 + c2 + c3 + c4 + c5 + c6 + c7);
    lemma_obj_get_concat7(c1, c2, c3, c4, c5, c6, c7, k);
    lemma_obj_get_empty(k);
    if s.command.len() > 0 {
        lemma_obj_get_singleton("command"@, JsonV::Str(s.command), k);
    }
    match s.args {
        Some(a) => lemma_obj_get_singleton("args"@, JsonV::Arr(spec_strs_json(a)), k),
        None => (),
    }
    match s.env {
        Some(en) => lemma_obj_get_singleton("env"@, JsonV::Obj(spec_env_json(en)), k),
        None => (),
    }
    if s.disabled == Some(true) {
        lemma_obj_get_singleton("disabled"@, JsonV::Bool(true), k);
    }
    match s.url {
        Some(u) => lemma_obj_get_singleton("url"@, JsonV::Str(u), k),
        None => (),
    }
    match s.target {
        Some(t) => lemma_obj_get_singleton("_target"@, JsonV::Str(t), k),
        None => (),
    }
    lemma_obj_get_extra(entries, k);
    if spec_extra_entries(entries).len() == 0 {
        assert(c7 =~= Seq::<(Seq<char>, JsonV)>::empty());
        assert(obj_get(e, k) is None);
    } else {
        assert(c7 == spec_extra_entries(entries));
    }
}

} // verus!
