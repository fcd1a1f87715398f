//! A JSON tree with value semantics, and its mathematical model.
//!
//! `Json` is the executable tree; `JsonV` is the ghost image that contracts
//! speak about.  Numbers are carried as their decimal text, which is all the
//! logic of this crate ever reads of them.  Objects keep their entries in
//! order as a sequence of pairs.

use vstd::prelude::*;

verus! {

/// Ghost model of a JSON value.
pub enum JsonV {
    Null,
    Bool(bool),
    Num(Seq<char>),
    Str(Seq<char>),
    Arr(Seq<JsonV>),
    Obj(Seq<(Seq<char>, JsonV)>),
}

/// A JSON value: the executable tree.
#[derive(Debug, PartialEq)]
pub enum Json {
    Null,
    Bool(bool),
    Num(String),
    Str(String),
    Arr(Vec<Json>),
    Obj(Vec<(String, Json)>),
}

/// The ghost image of a JSON tree.
pub open spec fn jview(j: Json) -> JsonV
    decreases j,
{
    match j {
        Json::Null => JsonV::Null,
        Json::Bool(b) => JsonV::Bool(b),
        Json::Num(s) => JsonV::Num(s@),
        Json::Str(s) => JsonV::Str(s@),
        Json::Arr(v) => JsonV::Arr(jview_arr(v@)),
        Json::Obj(v) => JsonV::Obj(jview_obj(v@)),
    }
}

/// The ghost image of a sequence of JSON trees.
pub open spec fn jview_arr(s: Seq<Json>) -> Seq<JsonV>
    decreases s,
{
    if s.len() == 0 {
        Seq::empty()
    } else {
        jview_arr(s.drop_last()).push(jview(s.last()))
    }
}

/// The ghost image of a sequence of object entries.
pub open spec fn jview_obj(s: Seq<(String, Json)>) -> Seq<(Seq<char>, JsonV)>
    decreases s,
{
    if s.len() == 0 {
        Seq::empty()
    } else {
        jview_obj(s.drop_last()).push((s.last().0@, jview(s.last().1)))
    }
}

impl View for Json {
    type V = JsonV;

    open spec fn view(&self) -> JsonV {
        jview(*self)
    }
}

pub proof fn lemma_jview_arr(s: Seq<Json>)
    ensures
        jview_arr(s).len() == s.len(),
        forall|i: int| 0 <= i < s.len() ==> jview_arr(s)[i] == jview(s[i]),
    decreases s,
{
    if s.len() > 0 {
        lemma_jview_arr(s.drop_last());
    }
}

pub proof fn lemma_jview_obj(s: Seq<(String, Json)>)
    ensures
        jview_obj(s).len() == s.len(),
        forall|i: int| 0 <= i < s.len() ==> jview_obj(s)[i] == (s[i].0@, jview(s[i].1)),
    decreases s,
{
    if s.len() > 0 {
        lemma_jview_obj(s.drop_last());
    }
}

/// Entry keys are pairwise distinct.
pub open spec fn unique_keys(entries: Seq<(Seq<char>, JsonV)>) -> bool {
    forall|i: int, j: int| 0 <= i < j < entries.len() ==> entries[i].0 != entries[j].0
}

/// Well-formedness of a JSON value: every object has pairwise distinct keys.
pub open spec fn jwf(j: JsonV) -> bool
    decreases j,
{
    match j {
        JsonV::Arr(items) => forall|i: int| 0 <= i < items.len() ==> jwf(#[trigger] items[i]),
        JsonV::Obj(entries) => unique_keys(entries) && forall|i: int|
            0 <= i < entries.len() ==> jwf(#[trigger] entries[i].1),
        _ => true,
    }
}

/// Index of the first entry whose key is `key`, or `entries.len()` when no
/// entry has that key.
pub open spec fn obj_key_index(entries: Seq<(Seq<char>, JsonV)>, key: Seq<char>) -> int
    decreases entries.len(),
{
    if entries.len() == 0 {
        0
    } else if entries[0].0 == key {
        0
    } else {
        1 + obj_key_index(entries.drop_first(), key)
    }
}

/// Value of the first entry under `key`, if any.
pub open spec fn obj_get(entries: Seq<(Seq<char>, JsonV)>, key: Seq<char>) -> Option<JsonV> {
    if obj_key_index(entries, key) < entries.len() {
        Some(entries[obj_key_index(entries, key)].1)
    } else {
        None
    }
}

pub proof fn lemma_obj_key_index(entries: Seq<(Seq<char>, JsonV)>, key: Seq<char>)
    ensures
        0 <= obj_key_index(entries, key) <= entries.len(),
        obj_key_index(entries, key) < entries.len() ==> entries[obj_key_index(entries, key)].0
            == key,
        forall|j: int| 0 <= j < obj_key_index(entries, key) ==> entries[j].0 != key,
    decreases entries.len(),
{
    if entries.len() > 0 && entries[0].0 != key {
        lemma_obj_key_index(entries.drop_first(), key);
        assert forall|j: int| 0 <= j < obj_key_index(entries, key) implies entries[j].0 != key by {
            if j > 0 {
                assert(entries.drop_first()[j - 1] == entries[j]);
            }
        }
    }
}

pub proof fn lemma_obj_get_absent(entries: Seq<(Seq<char>, JsonV)>, key: Seq<char>)
    requires
        forall|j: int| 0 <= j < entries.len() ==> (#[trigger] entries[j]).0 != key,
    ensures
        obj_get(entries, key) is None,
{
    lemma_obj_key_index(entries, key);
    if obj_key_index(entries, key) < entries.len() {
        assert(entries[obj_key_index(entries, key)].0 == key);
    }
}

pub proof fn lemma_obj_get_singleton(k: Seq<char>, v: JsonV, key: Seq<char>)
    ensures
        obj_get(seq![(k, v)], key) == (if k == key {
            Some(v)
        } else {
            Option::<JsonV>::None
        }),
{
    let s = seq![(k, v)];
    assert(s[0] == (k, v));
    if k != key {
        assert(s.drop_first() =~= Seq::<(Seq<char>, JsonV)>::empty());
        assert(obj_key_index(Seq::<(Seq<char>, JsonV)>::empty(), key) == 0);
        assert(obj_key_index(s, key) == 1);
    }
}

pub proof fn lemma_obj_key_index_concat(
    a: Seq<(Seq<char>, JsonV)>,
    b: Seq<(Seq<char>, JsonV)>,
    key: Seq<char>,
)
    ensures
        obj_key_index(a + b, key) == (if obj_key_index(a, key) < a.len() {
            obj_key_index(a, key)
        } else {
            a.len() + obj_key_index(b, key)
        }),
    decreases a.len(),
{
    lemma_obj_key_index(a, key);
    lemma_obj_key_index(b, key);
    lemma_obj_key_index(a + b, key);
    if a.len() == 0 {
        assert(a + b =~= b);
    } else {
        lemma_obj_key_index_concat(a.drop_first(), b, key);
        assert((a + b).drop_first() =~= a.drop_first() + b);
        assert((a + b)[0] == a[0]);
    }
}

/// Looking a key up in a concatenation: the front wins when it has the key.
pub proof fn lemma_obj_get_concat(
    a: Seq<(Seq<char>, JsonV)>,
    b: Seq<(Seq<char>, JsonV)>,
    key: Seq<char>,
)
    ensures
        obj_get(a + b, key) == (match obj_get(a, key) {
            Some(v) => Some(v),
            None => obj_get(b, key),
        }),
{
    lemma_obj_key_index(a, key);
    lemma_obj_key_index(b, key);
    lemma_obj_key_index_concat(a, b, key);
    let i = obj_key_index(a + b, key);
    if obj_key_index(a, key) < a.len() {
        assert((a + b)[i] == a[i]);
    } else if obj_key_index(b, key) < b.len() {
        assert((a + b)[i] == b[i - a.len()]);
    }
}

/// Looks up `key` among the entries of an object, returning a reference to
/// the first value stored under it.
pub fn json_obj_get<'a>(entries: &'a Vec<(String, Json)>, key: &str) -> (r: Option<&'a Json>)
    ensures
        match r {
            Some(j) => obj_get(jview_obj(entries@), key@) == Some(jview(*j)),
            None => obj_get(jview_obj(entries@), key@) is None,
        },
{
    proof {
        lemma_jview_obj(entries@);
        lemma_obj_key_index(jview_obj(entries@), key@);
    }
    let ghost gentries = jview_obj(entries@);
    let ghost gidx = obj_key_index(gentries, key@);
    let n = entries.len();
    let mut i: usize = 0;
    while i < n
        invariant
            n == entries.len(),
            0 <= i <= n,
            gentries == jview_obj(entries@),
            gidx == obj_key_index(gentries, key@),
            gentries.len() == n,
            forall|k: int| 0 <= k < n ==> gentries[k] == (entries@[k].0@, jview(entries@[k].1)),
            0 <= gidx <= n,
            gidx < n ==> gentries[gidx].0 == key@,
            forall|j: int| 0 <= j < gidx ==> gentries[j].0 != key@,
            forall|j: int| 0 <= j < i ==> gentries[j].0 != key@,
        decreases n - i,
    {
        if crate::text::string_eq_str(&entries[i].0, key) {
            proof {
                assert(gentries[i as int].0 == key@);
                assert(!(gidx < i));
                assert(!(i < gidx));
            }
            return Some(&entries[i].1);
        }
        i += 1;
    }
    proof {
        if gidx < n {
            assert(gentries[gidx].0 == key@);
        }
    }
    None
}

/// A deep copy of a JSON tree, equal to the original in the model.
#[verifier::loop_isolation(false)]
pub fn clone_json(j: &Json) -> (r: Json)
    ensures
        r@ == j@,
    decreases *j,
{
    match j {
        Json::Null => Json::Null,
        Json::Bool(b) => Json::Bool(*b),
        Json::Num(s) => Json::Num(s.clone()),
        Json::Str(s) => Json::Str(s.clone()),
        Json::Arr(items) => {
            let n = items.len();
            let mut out: Vec<Json> = Vec::new();
            let mut i: usize = 0;
            while i < n
                invariant
                    n == items.len(),
                    0 <= i <= n,
                    out.len() == i,
                    jview_arr(out@) == jview_arr(items@.take(i as int)),
                decreases n - i,
            {
                proof {
                    assert(*j == Json::Arr(*items));
                    assert(decreases_to!(Json::Arr(*items) => *items));
                    assert(decreases_to!(*items => items@));
                    assert(decreases_to!(items@ => items@[i as int]));
                    assert(decreases_to!(*j => items@[i as int]));
                }
                let c = clone_json(&items[i]);
                let ghost prev = out@;
                out.push(c);
                proof {
                    assert(out@.drop_last() =~= prev);
                    assert(items@.take(i + 1).drop_last() =~= items@.take(i as int));
                    assert(items@.take(i + 1).last() == items@[i as int]);
                    assert(jview_arr(out@) == jview_arr(prev).push(jview(c)));
                    assert(jview_arr(items@.take(i + 1)) == jview_arr(items@.take(i as int)).push(
                        jview(items@[i as int])));
                }
                i += 1;
            }
            proof {
                assert(items@.take(n as int) =~= items@);
            }
            Json::Arr(out)
        },
        Json::Obj(entries) => {
            let n = entries.len();
            let mut out: Vec<(String, Json)> = Vec::new();
            let mut i: usize = 0;
            while i < n
                invariant
                    n == entries.len(),
                    0 <= i <= n,
                    out.len() == i,
                    jview_obj(out@) == jview_obj(entries@.take(i as int)),
                decreases n - i,
            {
                proof {
                    assert(*j == Json::Obj(*entries));
                    assert(decreases_to!(Json::Obj(*entries) => *entries));
                    assert(decreases_to!(*entries => entries@));
                    assert(decreases_to!(entries@ => entries@[i as int]));
                    assert(decreases_to!(entries@[i as int] => entries@[i as int].1));
                    assert(decreases_to!(*j => entries@[i as int].1));
                }
                let k = entries[i].0.clone();
                let v = clone_json(&entries[i].1);
                let ghost prev = out@;
                out.push((k, v));
                proof {
                    assert(out@.drop_last() =~= prev);
                    assert(entries@.take(i + 1).drop_last() =~= entries@.take(i as int));
                    assert(entries@.take(i + 1).last() == entries@[i as int]);
                    assert(jview_obj(out@) == jview_obj(prev).push((k@, jview(v))));
                    assert(jview_obj(entries@.take(i + 1)) == jview_obj(entries@.take(i as int)).push(
                        (entries@[i as int].0@, jview(entries@[i as int].1))));
                }
                i += 1;
            }
            proof {
                assert(entries@.take(n as int) =~= entries@);
            }
            Json::Obj(out)
        },
    }
}

} // verus!
