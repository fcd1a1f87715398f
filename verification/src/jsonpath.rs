//! Dotted-path addressing into JSON documents: a path is first tried as a
//! literal top-level key, then as a dot-separated walk.  Writing creates
//! missing intermediate objects; reading never does.

use vstd::prelude::*;
use vstd::string::StrSliceExecFns;
use crate::json::{
    Json, JsonV, jview, jview_obj, json_obj_get, obj_get, obj_key_index, clone_json,
    lemma_jview_obj, lemma_obj_key_index,
};
use crate::text::{contains_char, index_of, lemma_index_of, spec_index_of, starts_with};

verus! {

/// The object with `value` stored under `key`: the first entry under that
/// key is replaced in place, or a new entry is appended.
pub open spec fn spec_obj_set(
    entries: Seq<(Seq<char>, JsonV)>,
    key: Seq<char>,
    value: JsonV,
) -> Seq<(Seq<char>, JsonV)> {
    let i = obj_key_index(entries, key);
    if i < entries.len() {
        entries.update(i, (key, value))
    } else {
        entries.push((key, value))
    }
}

/// Stores `value` under `key` in a fresh copy of the object.
pub fn json_obj_set(entries: &Vec<(String, Json)>, key: &str, value: Json) -> (r: Vec<
    (String, Json),
>)
    ensures
        jview_obj(r@) == spec_obj_set(jview_obj(entries@), key@, value@),
{
    proof {
        lemma_jview_obj(entries@);
        lemma_obj_key_index(jview_obj(entries@), key@);
    }
    let ghost gentries = jview_obj(entries@);
    let ghost gidx = obj_key_index(gentries, key@);
    let n = entries.len();
    let mut out: Vec<(String, Json)> = Vec::new();
    let mut i: usize = 0;
    let mut replaced = false;
    proof {
        assert(jview_obj(out@) =~= gentries.take(0));
    }
    while i < n
        invariant
            n == entries.len(),
            0 <= i <= n,
            gentries == jview_obj(entries@),
            gidx == obj_key_index(gentries, key@),
            gentries.len() == n,
            forall|k: int| 0 <= k < n ==> gentries[k] == (entries@[k].0@, jview(entries@[k].1)),
            0 <= gidx <= n,
            gidx < n ==> gentries[gidx].0 == key@,
            forall|j: int| 0 <= j < gidx ==> gentries[j].0 != key@,
            replaced == (gidx < i),
            out@.len() == i,
            !replaced ==> jview_obj(out@) == gentries.take(i as int),
            replaced ==> jview_obj(out@) == gentries.take(i as int).update(gidx, (key@, value@)),
        decreases n - i,
    {
        let ghost opre = jview_obj(out@);
        let ghost oseq = out@;
        if !replaced && crate::text::string_eq_str(&entries[i].0, key) {
            proof {
                assert(gentries[i as int].0 == key@);
                assert(!(gidx < i));
                assert(!(i < gidx));
            }
            let c = clone_json(&value);
            out.push((crate::text::str_to_string(key), c));
            replaced = true;
            proof {
                assert(out@.drop_last() =~= oseq);
                assert(jview_obj(out@) == jview_obj(oseq).push((key@, jview(c))));
                assert(jview_obj(out@) =~= gentries.take(i + 1).update(gidx, (key@, value@)));
            }
        } else {
            let k = entries[i].0.clone();
            let v = clone_json(&entries[i].1);
            out.push((k, v));
            proof {
                assert(out@.drop_last() =~= oseq);
                assert(jview_obj(out@) == jview_obj(oseq).push((
                    entries@[i as int].0@,
                    jview(entries@[i as int].1),
                )));
                if replaced {
                    assert(jview_obj(out@) =~= gentries.take(i + 1).update(gidx, (key@, value@)));
                } else {
                    assert(gentries[i as int].0 != key@);
                    assert(jview_obj(out@) =~= gentries.take(i + 1));
                }
            }
        }
        i += 1;
    }
    proof {
        assert(gentries.take(n as int) =~= gentries);
    }
    if !replaced {
        let ghost opre = jview_obj(out@);
        let ghost oseq = out@;
        let ghost gv = value;
        out.push((crate::text::str_to_string(key), value));
        proof {
            assert(out@.drop_last() =~= oseq);
            assert(jview_obj(out@) == opre.push((key@, jview(gv))));
            assert(jview_obj(out@) =~= spec_obj_set(gentries, key@, value@));
        }
        out
    } else {
        proof {
            assert(jview_obj(out@) =~= spec_obj_set(gentries, key@, value@));
        }
        out
    }
}

/// Reading along a dotted path: each segment selects an entry of an
/// object; a missing segment or a non-object in the middle yields
/// nothing.
pub open spec fn spec_walk_get(v: JsonV, path: Seq<char>) -> Option<JsonV>
    decreases path.len(),
    via spec_walk_get_decreases
{
    let i = spec_index_of(path, '.');
    if i == path.len() {
        match v {
            JsonV::Obj(e) => obj_get(e, path),
            _ => None,
        }
    } else {
        match v {
            JsonV::Obj(e) => match obj_get(e, path.take(i)) {
                Some(child) => spec_walk_get(child, path.skip(i + 1)),
                None => None,
            },
            _ => None,
        }
    }
}

#[via_fn]
proof fn spec_walk_get_decreases(v: JsonV, path: Seq<char>) {
    lemma_index_of(path, '.');
}

/// The value at a dotted path: the path as a literal top-level key wins;
/// only then is it read as a walk.
pub open spec fn spec_get_json_value(root: JsonV, path: Seq<char>) -> Option<JsonV> {
    match root {
        JsonV::Obj(e) => match obj_get(e, path) {
            Some(v) => Some(v),
            None => spec_walk_get(root, path),
        },
        _ => spec_walk_get(root, path),
    }
}

fn walk_get<'a>(v: &'a Json, path: &str) -> (r: Option<&'a Json>)
    ensures
        match r {
            Some(j) => spec_walk_get(v@, path@) == Some(jview(*j)),
            None => spec_walk_get(v@, path@) is None,
        },
    decreases path@.len(),
{
    proof {
        lemma_index_of(path@, '.');
    }
    let len = path.unicode_len();
    let idx = index_of(path, '.');
    match idx {
        None => match v {
            Json::Obj(e) => json_obj_get(e, path),
            _ => None,
        },
        Some(i) => {
            let head = path.substring_char(0, i);
            let tail = path.substring_char(i + 1, len);
            proof {
                assert(head@ =~= path@.take(i as int));
                assert(tail@ =~= path@.skip(i + 1));
            }
            match v {
                Json::Obj(e) => match json_obj_get(e, head) {
                    Some(child) => walk_get(child, tail),
                    None => None,
                },
                _ => None,
            }
        },
    }
}

/// Reads the value at a dotted path, the literal key first.
pub fn get_json_value<'a>(root: &'a Json, path: &str) -> (r: Option<&'a Json>)
    ensures
        match r {
            Some(j) => spec_get_json_value(root@, path@) == Some(jview(*j)),
            None => spec_get_json_value(root@, path@) is None,
        },
{
    match root {
        Json::Obj(e) => {
            match json_obj_get(e, path) {
                Some(v) => Some(v),
                None => walk_get(root, path),
            }
        },
        _ => walk_get(root, path),
    }
}

/// Writing along a dotted path: each segment selects or creates an
/// object entry; a non-object in the way makes the write impossible.
pub open spec fn spec_walk_set(v: JsonV, path: Seq<char>, value: JsonV) -> Option<JsonV>
    decreases path.len(),
    via spec_walk_set_decreases
{
    let i = spec_index_of(path, '.');
    if i == path.len() {
        match v {
            JsonV::Obj(e) => Some(JsonV::Obj(spec_obj_set(e, path, value))),
            _ => None,
        }
    } else {
        match v {
            JsonV::Obj(e) => {
                let child = match obj_get(e, path.take(i)) {
                    Some(c) => c,
                    None => JsonV::Obj(Seq::empty()),
                };
                match spec_walk_set(child, path.skip(i + 1), value) {
                    Some(nc) => Some(JsonV::Obj(spec_obj_set(e, path.take(i), nc))),
                    None => None,
                }
            },
            _ => None,
        }
    }
}

#[via_fn]
proof fn spec_walk_set_decreases(v: JsonV, path: Seq<char>, value: JsonV) {
    lemma_index_of(path, '.');
}

/// Writes `value` at a dotted path: the path as an existing literal key
/// wins; otherwise the path is walked, creating missing intermediate
/// objects, and fails only where something other than an object stands in
/// the way.
pub open spec fn spec_set_json_value(root: JsonV, path: Seq<char>, value: JsonV) -> Option<
    JsonV,
> {
    match root {
        JsonV::Obj(e) => if obj_get(e, path) is Some {
            Some(JsonV::Obj(spec_obj_set(e, path, value)))
        } else {
            spec_walk_set(root, path, value)
        },
        _ => spec_walk_set(root, path, value),
    }
}

fn walk_set(v: &Json, path: &str, value: Json) -> (r: Option<Json>)
    ensures
        match r {
            Some(j) => spec_walk_set(v@, path@, value@) == Some(j@),
            None => spec_walk_set(v@, path@, value@) is None,
        },
    decreases path@.len(),
{
    proof {
        lemma_index_of(path@, '.');
    }
    let len = path.unicode_len();
    let idx = index_of(path, '.');
    match idx {
        None => match v {
            Json::Obj(e) => Some(Json::Obj(json_obj_set(e, path, value))),
            _ => None,
        },
        Some(i) => {
            let head = path.substring_char(0, i);
            let tail = path.substring_char(i + 1, len);
            proof {
                assert(head@ =~= path@.take(i as int));
                assert(tail@ =~= path@.skip(i + 1));
            }
            match v {
                Json::Obj(e) => {
                    let sub = match json_obj_get(e, head) {
                        Some(c) => walk_set(c, tail, value),
                        None => {
                            let empty_obj = Json::Obj(Vec::new());
                            proof {
                                assert(jview_obj(Seq::<(String, Json)>::empty()) =~= Seq::<
                                    (Seq<char>, JsonV),
                                >::empty());
                            }
                            walk_set(&empty_obj, tail, value)
                        },
                    };
                    match sub {
                        Some(nc) => Some(Json::Obj(json_obj_set(e, head, nc))),
                        None => None,
                    }
                },
                _ => None,
            }
        },
    }
}

/// Writes `value` at a dotted path of the document, the existing literal
/// key first, creating missing intermediate objects on the walk.
pub fn set_json_value(root: &Json, path: &str, value: Json) -> (r: Option<Json>)
    ensures
        match r {
            Some(j) => spec_set_json_value(root@, path@, value@) == Some(j@),
            None => spec_set_json_value(root@, path@, value@) is None,
        },
{
    match root {
        Json::Obj(e) => {
            let exists_literal = match json_obj_get(e, path) {
                Some(_) => true,
                None => false,
            };
            if exists_literal {
                Some(Json::Obj(json_obj_set(e, path, value)))
            } else {
                walk_set(root, path, value)
            }
        },
        _ => walk_set(root, path, value),
    }
}

/// The entries whose key starts with the prefix.
pub open spec fn spec_prefixed_entries(
    entries: Seq<(Seq<char>, JsonV)>,
    prefix: Seq<char>,
) -> Seq<(Seq<char>, JsonV)>
    decreases entries.len(),
{
    if entries.len() == 0 {
        Seq::empty()
    } else {
        let rest = spec_prefixed_entries(entries.drop_last(), prefix);
        if prefix.is_prefix_of(entries.last().0) {
            rest.push(entries.last())
        } else {
            rest
        }
    }
}

/// The entries whose key does not start with the prefix.
pub open spec fn spec_unprefixed_entries(
    entries: Seq<(Seq<char>, JsonV)>,
    prefix: Seq<char>,
) -> Seq<(Seq<char>, JsonV)>
    decreases entries.len(),
{
    if entries.len() == 0 {
        Seq::empty()
    } else {
        let rest = spec_unprefixed_entries(entries.drop_last(), prefix);
        if prefix.is_prefix_of(entries.last().0) {
            rest
        } else {
            rest.push(entries.last())
        }
    }
}

/// Each entry of `new_entries` stored in turn.
pub open spec fn spec_insert_all(
    entries: Seq<(Seq<char>, JsonV)>,
    new_entries: Seq<(Seq<char>, JsonV)>,
) -> Seq<(Seq<char>, JsonV)>
    decreases new_entries.len(),
{
    if new_entries.len() == 0 {
        entries
    } else {
        spec_obj_set(
            spec_insert_all(entries, new_entries.drop_last()),
            new_entries.last().0,
            new_entries.last().1,
        )
    }
}

/// The object holding only the entries whose key starts with the prefix;
/// a document whose root is not an object has none.
pub fn json_object_with_prefix(root: &Json, prefix: &str) -> (r: Json)
    ensures
        r@ == (match root@ {
            JsonV::Obj(e) => JsonV::Obj(spec_prefixed_entries(e, prefix@)),
            _ => JsonV::Obj(Seq::<(Seq<char>, JsonV)>::empty()),
        }),
{
    let mut out: Vec<(String, Json)> = Vec::new();
    proof {
        assert(jview_obj(out@) =~= Seq::<(Seq<char>, JsonV)>::empty());
    }
    match root {
        Json::Obj(entries) => {
            proof {
                lemma_jview_obj(entries@);
            }
            let n = entries.len();
            let mut i: usize = 0;
            while i < n
                invariant
                    n == entries.len(),
                    0 <= i <= n,
                    jview_obj(entries@).len() == n,
                    forall|k: int| 0 <= k < n ==> jview_obj(entries@)[k] == (entries@[k].0@, jview(
                        entries@[k].1,
                    )),
                    jview_obj(out@) == spec_prefixed_entries(
                        jview_obj(entries@).take(i as int),
                        prefix@,
                    ),
                decreases n - i,
            {
                let ghost gentries = jview_obj(entries@);
                proof {
                    assert(gentries.take(i + 1).drop_last() =~= gentries.take(i as int));
                    assert(gentries.take(i + 1).last() == gentries[i as int]);
                }
                if starts_with(entries[i].0.as_str(), prefix) {
                    let k = entries[i].0.clone();
                    let v = clone_json(&entries[i].1);
                    let ghost oseq = out@;
                    out.push((k, v));
                    proof {
                        assert(out@.drop_last() =~= oseq);
                        assert(jview_obj(out@) == jview_obj(oseq).push((
                            entries@[i as int].0@,
                            jview(entries@[i as int].1),
                        )));
                    }
                }
                i += 1;
            }
            proof {
                assert(jview_obj(entries@).take(n as int) =~= jview_obj(entries@));
            }
            Json::Obj(out)
        },
        _ => Json::Obj(out),
    }
}

/// Replaces everything under the prefix: the entries carrying it are
/// dropped, and the new object's entries are stored in their place.  Only
/// an object can replace entries; any other replacement value leaves just
/// the drop.  A document whose root is not an object stands unchanged.
pub fn json_replace_prefix(root: &Json, prefix: &str, new_values: &Json) -> (r: Json)
    ensures
        r@ == (match root@ {
            JsonV::Obj(e) => {
                let kept = spec_unprefixed_entries(e, prefix@);
                match new_values@ {
                    JsonV::Obj(nv) => JsonV::Obj(spec_insert_all(kept, nv)),
                    _ => JsonV::Obj(kept),
                }
            },
            _ => root@,
        }),
{
    match root {
        Json::Obj(entries) => {
            proof {
                lemma_jview_obj(entries@);
            }
            let mut out: Vec<(String, Json)> = Vec::new();
            proof {
                assert(jview_obj(out@) =~= Seq::<(Seq<char>, JsonV)>::empty());
            }
            let n = entries.len();
            let mut i: usize = 0;
            while i < n
                invariant
                    n == entries.len(),
                    0 <= i <= n,
                    jview_obj(entries@).len() == n,
                    forall|k: int| 0 <= k < n ==> jview_obj(entries@)[k] == (entries@[k].0@, jview(
                        entries@[k].1,
                    )),
                    jview_obj(out@) == spec_unprefixed_entries(
                        jview_obj(entries@).take(i as int),
                        prefix@,
                    ),
                decreases n - i,
            {
                let ghost gentries = jview_obj(entries@);
                proof {
                    assert(gentries.take(i + 1).drop_last() =~= gentries.take(i as int));
                    assert(gentries.take(i + 1).last() == gentries[i as int]);
                }
                if !starts_with(entries[i].0.as_str(), prefix) {
                    let k = entries[i].0.clone();
                    let v = clone_json(&entries[i].1);
                    let ghost oseq = out@;
                    out.push((k, v));
                    proof {
                        assert(out@.drop_last() =~= oseq);
                        assert(jview_obj(out@) == jview_obj(oseq).push((
                            entries@[i as int].0@,
                            jview(entries@[i as int].1),
                        )));
                    }
                }
                i += 1;
            }
            proof {
                assert(jview_obj(entries@).take(n as int) =~= jview_obj(entries@));
            }
            match new_values {
                Json::Obj(nv) => {
                    proof {
                        lemma_jview_obj(nv@);
                    }
                    let ghost gkept = jview_obj(out@);
                    let m = nv.len();
                    let mut j: usize = 0;
                    while j < m
                        invariant
                            m == nv.len(),
                            0 <= j <= m,
                            jview_obj(nv@).len() == m,
                            forall|k: int| 0 <= k < m ==> jview_obj(nv@)[k] == (nv@[k].0@, jview(
                                nv@[k].1,
                            )),
                            jview_obj(out@) == spec_insert_all(
                                gkept,
                                jview_obj(nv@).take(j as int),
                            ),
                        decreases m - j,
                    {
                        let ghost gnv = jview_obj(nv@);
                        proof {
                            assert(gnv.take(j + 1).drop_last() =~= gnv.take(j as int));
                            assert(gnv.take(j + 1).last() == gnv[j as int]);
                        }
                        let v = clone_json(&nv[j].1);
                        out = json_obj_set(&out, nv[j].0.as_str(), v);
                        j += 1;
                    }
                    proof {
                        assert(jview_obj(nv@).take(m as int) =~= jview_obj(nv@));
                    }
                    Json::Obj(out)
                },
                _ => Json::Obj(out),
            }
        },
        _ => clone_json(root),
    }
}

/// Whether some key of the object both contains a dot and starts with the
/// prefix: the sign that a dotted path is really a literal key of this
/// document's convention.
pub open spec fn spec_has_dotted_sibling(
    entries: Seq<(Seq<char>, JsonV)>,
    prefix: Seq<char>,
) -> bool {
    exists|i: int|
        0 <= i < entries.len() && (#[trigger] entries[i]).0.contains('.') && prefix.is_prefix_of(
            entries[i].0,
        )
}

/// Looks for a dotted key starting with `prefix` among the entries.
pub fn has_dotted_sibling(entries: &Vec<(String, Json)>, prefix: &str) -> (r: bool)
    ensures
        r == spec_has_dotted_sibling(jview_obj(entries@), prefix@),
{
    proof {
        lemma_jview_obj(entries@);
    }
    let n = entries.len();
    let mut i: usize = 0;
    while i < n
        invariant
            n == entries.len(),
            jview_obj(entries@).len() == n,
            forall|k: int| 0 <= k < n ==> jview_obj(entries@)[k] == (entries@[k].0@, jview(
                entries@[k].1,
            )),
            0 <= i <= n,
            forall|j: int| 0 <= j < i ==> !((#[trigger] jview_obj(entries@)[j]).0.contains('.')
                && prefix@.is_prefix_of(jview_obj(entries@)[j].0)),
        decreases n - i,
    {
        if contains_char(entries[i].0.as_str(), '.') && starts_with(
            entries[i].0.as_str(),
            prefix,
        ) {
            proof {
                assert(jview_obj(entries@)[i as int].0.contains('.'));
                assert(prefix@.is_prefix_of(jview_obj(entries@)[i as int].0));
            }
            return true;
        }
        i += 1;
    }
    false
}

} // verus!
