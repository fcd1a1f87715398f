//! The reconciliation engine: comparing a source server list against a
//! target list and classifying every entry as added, kept or conflicting.

use vstd::prelude::*;
use crate::adapters::server_views;
use crate::text::{str_eq, string_eq_str};
use crate::types::{McpMergeResult, McpServer, McpServerConflict, McpServerV, McpSyncStatus};

verus! {

/// Index of the first entry named `name`, or `list.len()` when none is.
pub open spec fn name_index(list: Seq<McpServerV>, name: Seq<char>) -> int
    decreases list.len(),
{
    if list.len() == 0 {
        0
    } else if list[0].name == name {
        0
    } else {
        1 + name_index(list.drop_first(), name)
    }
}

/// The first entry named `name`, if any.
pub open spec fn find_by_name(list: Seq<McpServerV>, name: Seq<char>) -> Option<McpServerV> {
    if name_index(list, name) < list.len() {
        Some(list[name_index(list, name)])
    } else {
        None
    }
}

/// Whether some entry is named `name`.
pub open spec fn has_name(list: Seq<McpServerV>, name: Seq<char>) -> bool {
    find_by_name(list, name) is Some
}

pub proof fn lemma_name_index(list: Seq<McpServerV>, name: Seq<char>)
    ensures
        0 <= name_index(list, name) <= list.len(),
        name_index(list, name) < list.len() ==> list[name_index(list, name)].name == name,
        forall|j: int| 0 <= j < name_index(list, name) ==> list[j].name != name,
    decreases list.len(),
{
    if list.len() > 0 && list[0].name != name {
        lemma_name_index(list.drop_first(), name);
        assert forall|j: int| 0 <= j < name_index(list, name) implies list[j].name != name by {
            if j > 0 {
                assert(list.drop_first()[j - 1] == list[j]);
            }
        }
    }
}

/// Looks a name up in a server list.
pub fn find_server<'a>(list: &'a Vec<McpServer>, name: &str) -> (r: Option<&'a McpServer>)
    ensures
        match r {
            Some(t) => find_by_name(server_views(list@), name@) == Some(t@),
            None => find_by_name(server_views(list@), name@) is None,
        },
{
    let ghost gl = server_views(list@);
    let ghost gidx = name_index(gl, name@);
    proof {
        lemma_name_index(gl, name@);
    }
    let n = list.len();
    let mut i: usize = 0;
    while i < n
        invariant
            n == list.len(),
            0 <= i <= n,
            gl == server_views(list@),
            gidx == name_index(gl, name@),
            gl.len() == n,
            0 <= gidx <= n,
            gidx < n ==> gl[gidx].name == name@,
            forall|j: int| 0 <= j < gidx ==> gl[j].name != name@,
            forall|j: int| 0 <= j < i ==> gl[j].name != name@,
        decreases n - i,
    {
        if string_eq_str(&list[i].name, name) {
            proof {
                assert(gl[i as int] == list@[i as int]@);
                assert(!(gidx < i));
                assert(!(i < gidx));
            }
            return Some(&list[i]);
        }
        proof {
            assert(gl[i as int] == list@[i as int]@);
        }
        i += 1;
    }
    proof {
        if gidx < n {
            assert(gl[gidx].name == name@);
        }
    }
    None
}

/// The value stored under `k`, if any; the environment is an unordered
/// mapping, looked up by key.
pub open spec fn env_lookup(e: Seq<(Seq<char>, Seq<char>)>, k: Seq<char>) -> Option<Seq<char>>
    decreases e.len(),
{
    if e.len() == 0 {
        None
    } else if e[0].0 == k {
        Some(e[0].1)
    } else {
        env_lookup(e.drop_first(), k)
    }
}

/// Every pair of `a` is found, by key, in `b`.
pub open spec fn env_contained(
    a: Seq<(Seq<char>, Seq<char>)>,
    b: Seq<(Seq<char>, Seq<char>)>,
) -> bool {
    forall|i: int| 0 <= i < a.len() ==> env_lookup(b, (#[trigger] a[i]).0) == Some(a[i].1)
}

/// Two environments carry the same mapping, regardless of entry order.
pub open spec fn env_equivalent(
    a: Seq<(Seq<char>, Seq<char>)>,
    b: Seq<(Seq<char>, Seq<char>)>,
) -> bool {
    env_contained(a, b) && env_contained(b, a)
}

pub open spec fn opt_env_equal(
    a: Option<Seq<(Seq<char>, Seq<char>)>>,
    b: Option<Seq<(Seq<char>, Seq<char>)>>,
) -> bool {
    match (a, b) {
        (Option::None, Option::None) => true,
        (Option::Some(x), Option::Some(y)) => env_equivalent(x, y),
        _ => false,
    }
}

/// The fields whose disagreement makes two same-named servers conflict:
/// command, arguments (in order), environment (as a mapping) and url.
/// `disabled`, the provenance tag and unknown extras are deliberately left
/// out of the comparison.
pub open spec fn servers_equal_spec(a: McpServerV, b: McpServerV) -> bool {
    a.command == b.command && a.args == b.args && opt_env_equal(a.env, b.env) && a.url == b.url
}

fn env_lookup_exec<'a>(e: &'a Vec<(String, String)>, k: &str) -> (r: Option<&'a String>)
    ensures
        match r {
            Some(v) => env_lookup(e.deep_view(), k@) == Some(v@),
            None => env_lookup(e.deep_view(), k@) is None,
        },
{
    let ghost ge = e.deep_view();
    proof {
        lemma_env_index(ge, k@);
    }
    let ghost gidx = env_index(ge, k@);
    let n = e.len();
    let mut i: usize = 0;
    while i < n
        invariant
            n == e.len(),
            0 <= i <= n,
            ge == e.deep_view(),
            gidx == env_index(ge, k@),
            ge.len() == n,
            0 <= gidx <= n,
            gidx < n ==> ge[gidx].0 == k@,
            forall|j: int| 0 <= j < gidx ==> ge[j].0 != k@,
            forall|j: int| 0 <= j < i ==> ge[j].0 != k@,
            env_lookup(ge, k@) == (if gidx < n {
                Some(ge[gidx].1)
            } else {
                Option::<Seq<char>>::None
            }),
        decreases n - i,
    {
        if string_eq_str(&e[i].0, k) {
            proof {
                assert(ge[i as int] == (e@[i as int].0@, e@[i as int].1@));
                assert(!(gidx < i));
                assert(!(i < gidx));
            }
            return Some(&e[i].1);
        }
        proof {
            assert(ge[i as int] == (e@[i as int].0@, e@[i as int].1@));
        }
        i += 1;
    }
    None
}

/// Index of the first pair keyed `k`, or `e.len()`.
pub open spec fn env_index(e: Seq<(Seq<char>, Seq<char>)>, k: Seq<char>) -> int
    decreases e.len(),
{
    if e.len() == 0 {
        0
    } else if e[0].0 == k {
        0
    } else {
        1 + env_index(e.drop_first(), k)
    }
}

pub proof fn lemma_env_index(e: Seq<(Seq<char>, Seq<char>)>, k: Seq<char>)
    ensures
        0 <= env_index(e, k) <= e.len(),
        env_index(e, k) < e.len() ==> e[env_index(e, k)].0 == k,
        forall|j: int| 0 <= j < env_index(e, k) ==> e[j].0 != k,
        env_lookup(e, k) == (if env_index(e, k) < e.len() {
            Some(e[env_index(e, k)].1)
        } else {
            Option::<Seq<char>>::None
        }),
    decreases e.len(),
{
    if e.len() > 0 && e[0].0 != k {
        lemma_env_index(e.drop_first(), k);
        assert forall|j: int| 0 <= j < env_index(e, k) implies e[j].0 != k by {
            if j > 0 {
                assert(e.drop_first()[j - 1] == e[j]);
            }
        }
        if env_index(e.drop_first(), k) < e.drop_first().len() {
            assert(e[1 + env_index(e.drop_first(), k)] == e.drop_first()[env_index(
                e.drop_first(),
                k,
            )]);
        }
    }
}

fn env_contained_exec(a: &Vec<(String, String)>, b: &Vec<(String, String)>) -> (r: bool)
    ensures
        r == env_contained(a.deep_view(), b.deep_view()),
{
    let n = a.len();
    let mut i: usize = 0;
    while i < n
        invariant
            n == a.len(),
            0 <= i <= n,
            forall|j: int| 0 <= j < i ==> env_lookup(b.deep_view(), (#[trigger] a.deep_view()[j]).0)
                == Some(a.deep_view()[j].1),
        decreases n - i,
    {
        let hit = env_lookup_exec(b, a[i].0.as_str());
        match hit {
            Some(v) => {
                if !str_eq(v.as_str(), a[i].1.as_str()) {
                    proof {
                        assert(a.deep_view()[i as int] == (a@[i as int].0@, a@[i as int].1@));
                    }
                    return false;
                }
            },
            None => {
                proof {
                    assert(a.deep_view()[i as int] == (a@[i as int].0@, a@[i as int].1@));
                }
                return false;
            },
        }
        proof {
            assert(a.deep_view()[i as int] == (a@[i as int].0@, a@[i as int].1@));
        }
        i += 1;
    }
    true
}

fn string_vecs_equal(a: &Vec<String>, b: &Vec<String>) -> (r: bool)
    ensures
        r == (a.deep_view() == b.deep_view()),
{
    let n = a.len();
    if n != b.len() {
        proof {
            assert(a.deep_view().len() != b.deep_view().len());
        }
        return false;
    }
    let mut i: usize = 0;
    while i < n
        invariant
            n == a.len(),
            n == b.len(),
            0 <= i <= n,
            forall|j: int| 0 <= j < i ==> a.deep_view()[j] == b.deep_view()[j],
        decreases n - i,
    {
        if !str_eq(a[i].as_str(), b[i].as_str()) {
            proof {
                assert(a.deep_view()[i as int] == a@[i as int]@);
                assert(b.deep_view()[i as int] == b@[i as int]@);
            }
            return false;
        }
        proof {
            assert(a.deep_view()[i as int] == a@[i as int]@);
            assert(b.deep_view()[i as int] == b@[i as int]@);
        }
        i += 1;
    }
    proof {
        assert(a.deep_view() =~= b.deep_view());
    }
    true
}

/// Whether two same-named servers agree on every compared field.
pub fn servers_equal(a: &McpServer, b: &McpServer) -> (r: bool)
    ensures
        r == servers_equal_spec(a@, b@),
{
    if !str_eq(a.command.as_str(), b.command.as_str()) {
        return false;
    }
    let args_eq = match (&a.args, &b.args) {
        (None, None) => true,
        (Some(x), Some(y)) => string_vecs_equal(x, y),
        _ => false,
    };
    if !args_eq {
        return false;
    }
    let env_eq = match (&a.env, &b.env) {
        (None, None) => true,
        (Some(x), Some(y)) => env_contained_exec(x, y) && env_contained_exec(y, x),
        _ => false,
    };
    if !env_eq {
        return false;
    }
    match (&a.url, &b.url) {
        (None, None) => true,
        (Some(x), Some(y)) => str_eq(x.as_str(), y.as_str()),
        _ => false,
    }
}

/// The source entries whose name is absent from the target.
pub open spec fn spec_added(source: Seq<McpServerV>, target: Seq<McpServerV>) -> Seq<McpServerV>
    decreases source.len(),
{
    if source.len() == 0 {
        Seq::empty()
    } else {
        let rest = spec_added(source.drop_last(), target);
        if !has_name(target, source.last().name) {
            rest.push(source.last())
        } else {
            rest
        }
    }
}

/// The source entries whose target namesake agrees on every compared field.
pub open spec fn spec_kept_source(source: Seq<McpServerV>, target: Seq<McpServerV>) -> Seq<
    McpServerV,
>
    decreases source.len(),
{
    if source.len() == 0 {
        Seq::empty()
    } else {
        let rest = spec_kept_source(source.drop_last(), target);
        match find_by_name(target, source.last().name) {
            Some(t) => if servers_equal_spec(source.last(), t) {
                rest.push(source.last())
            } else {
                rest
            },
            None => rest,
        }
    }
}

/// The source entries whose target namesake disagrees, paired with that
/// namesake.
pub open spec fn spec_conflicts(source: Seq<McpServerV>, target: Seq<McpServerV>) -> Seq<
    (McpServerV, McpServerV),
>
    decreases source.len(),
{
    if source.len() == 0 {
        Seq::empty()
    } else {
        let rest = spec_conflicts(source.drop_last(), target);
        match find_by_name(target, source.last().name) {
            Some(t) => if !servers_equal_spec(source.last(), t) {
                rest.push((source.last(), t))
            } else {
                rest
            },
            None => rest,
        }
    }
}

/// The target entries whose name is absent from the source: a sync never
/// silently deletes what only the target has.
pub open spec fn spec_kept_target(source: Seq<McpServerV>, target: Seq<McpServerV>) -> Seq<
    McpServerV,
>
    decreases target.len(),
{
    if target.len() == 0 {
        Seq::empty()
    } else {
        let rest = spec_kept_target(source, target.drop_last());
        if !has_name(source, target.last().name) {
            rest.push(target.last())
        } else {
            rest
        }
    }
}

/// The ghost images of a conflict list: each record as the pair of its two
/// versions.
pub open spec fn conflict_views(c: Seq<McpServerConflict>) -> Seq<(McpServerV, McpServerV)> {
    c.map_values(|x: McpServerConflict| (x.source_server@, x.target_server@))
}

/// Classifies every entry of both lists.  Each source entry lands in
/// exactly one of `added`, `kept` and `conflicts`; each target entry whose
/// name the source does not use is kept as well.
pub fn compute_merge_result(
    source: &Vec<McpServer>,
    target: &Vec<McpServer>,
    tool_id: &str,
) -> (r: McpMergeResult)
    ensures
        r.tool_id@ == tool_id@,
        server_views(r.added@) == spec_added(server_views(source@), server_views(target@)),
        server_views(r.kept@) == spec_kept_source(server_views(source@), server_views(target@))
            + spec_kept_target(server_views(source@), server_views(target@)),
        conflict_views(r.conflicts@) == spec_conflicts(
            server_views(source@),
            server_views(target@),
        ),
        forall|i: int| 0 <= i < r.conflicts@.len() ==> (#[trigger] r.conflicts@[i]).server_name@
            == r.conflicts@[i].source_server@.name && r.conflicts@[i].tool_id@ == tool_id@,
{
    let ghost sv = server_views(source@);
    let ghost tv = server_views(target@);
    let mut added: Vec<McpServer> = Vec::new();
    let mut kept: Vec<McpServer> = Vec::new();
    let mut conflicts: Vec<McpServerConflict> = Vec::new();

    let n = source.len();
    let mut i: usize = 0;
    proof {
        assert(sv.take(0) =~= Seq::<McpServerV>::empty());
        assert(server_views(added@) =~= spec_added(sv.take(0), tv));
        assert(server_views(kept@) =~= spec_kept_source(sv.take(0), tv));
        assert(conflict_views(conflicts@) =~= spec_conflicts(sv.take(0), tv));
    }
    while i < n
        invariant
            n == source.len(),
            0 <= i <= n,
            sv == server_views(source@),
            tv == server_views(target@),
            sv.len() == n,
            server_views(added@) == spec_added(sv.take(i as int), tv),
            server_views(kept@) == spec_kept_source(sv.take(i as int), tv),
            conflict_views(conflicts@) == spec_conflicts(sv.take(i as int), tv),
            forall|k: int| 0 <= k < conflicts@.len() ==> (#[trigger] conflicts@[k]).server_name@
                == conflicts@[k].source_server@.name && conflicts@[k].tool_id@ == tool_id@,
        decreases n - i,
    {
        proof {
            assert(sv[i as int] == source@[i as int]@);
            assert(sv.take(i + 1).drop_last() =~= sv.take(i as int));
            assert(sv.take(i + 1).last() == sv[i as int]);
        }
        let hit = find_server(target, source[i].name.as_str());
        match hit {
            Some(t) => {
                if servers_equal(&source[i], t) {
                    let c = crate::types::clone_server(&source[i]);
                    let ghost kpre = server_views(kept@);
                    kept.push(c);
                    proof {
                        assert(server_views(kept@) =~= kpre.push(sv[i as int]));
                    }
                } else {
                    let cf = McpServerConflict {
                        server_name: source[i].name.clone(),
                        source_server: crate::types::clone_server(&source[i]),
                        target_server: crate::types::clone_server(t),
                        tool_id: crate::text::str_to_string(tool_id),
                    };
                    let ghost cpre = conflict_views(conflicts@);
                    conflicts.push(cf);
                    proof {
                        assert(conflict_views(conflicts@) =~= cpre.push((
                            sv[i as int],
                            find_by_name(tv, sv[i as int].name)->Some_0,
                        )));
                    }
                }
            },
            None => {
                let c = crate::types::clone_server(&source[i]);
                let ghost apre = server_views(added@);
                added.push(c);
                proof {
                    assert(server_views(added@) =~= apre.push(sv[i as int]));
                }
            },
        }
        i += 1;
    }
    proof {
        assert(sv.take(n as int) =~= sv);
    }

    let ghost kept_src = server_views(kept@);
    let m = target.len();
    let mut j: usize = 0;
    proof {
        assert(tv.take(0) =~= Seq::<McpServerV>::empty());
        assert(server_views(kept@) =~= kept_src + spec_kept_target(sv, tv.take(0)));
    }
    while j < m
        invariant
            m == target.len(),
            0 <= j <= m,
            sv == server_views(source@),
            tv == server_views(target@),
            tv.len() == m,
            server_views(kept@) == kept_src + spec_kept_target(sv, tv.take(j as int)),
        decreases m - j,
    {
        proof {
            assert(tv[j as int] == target@[j as int]@);
            assert(tv.take(j + 1).drop_last() =~= tv.take(j as int));
            assert(tv.take(j + 1).last() == tv[j as int]);
        }
        let hit = find_server(source, target[j].name.as_str());
        match hit {
            Some(_) => {},
            None => {
                let c = crate::types::clone_server(&target[j]);
                let ghost kpre = server_views(kept@);
                kept.push(c);
                proof {
                    assert(server_views(kept@) =~= kpre.push(tv[j as int]));
                    assert(kept_src + spec_kept_target(sv, tv.take(j + 1)) =~= (kept_src
                        + spec_kept_target(sv, tv.take(j as int))).push(tv[j as int]));
                }
            },
        }
        j += 1;
    }
    proof {
        assert(tv.take(m as int) =~= tv);
    }

    McpMergeResult { tool_id: crate::text::str_to_string(tool_id), added, kept, conflicts }
}

/// The agreement summary a merge yields: conflicts dominate, then pending
/// additions, else the two sides agree.
pub open spec fn spec_sync_status(source: Seq<McpServerV>, target: Seq<McpServerV>)
    -> McpSyncStatus {
    if spec_conflicts(source, target).len() > 0 {
        McpSyncStatus::Conflicts
    } else if spec_added(source, target).len() > 0 {
        McpSyncStatus::OutOfSync
    } else {
        McpSyncStatus::Synced
    }
}

/// Derives the sync status of a target list against the source list.
pub fn get_sync_status(source: &Vec<McpServer>, target: &Vec<McpServer>, tool_id: &str) -> (r:
    McpSyncStatus)
    ensures
        r == spec_sync_status(server_views(source@), server_views(target@)),
{
    let merge = compute_merge_result(source, target, tool_id);
    if merge.conflicts.len() > 0 {
        McpSyncStatus::Conflicts
    } else if merge.added.len() > 0 {
        McpSyncStatus::OutOfSync
    } else {
        McpSyncStatus::Synced
    }
}

/// Every source entry lands in exactly one bucket: the added, source-kept
/// and conflict counts always sum to the source length.
pub proof fn lemma_merge_partitions_source(source: Seq<McpServerV>, target: Seq<McpServerV>)
    ensures
        spec_added(source, target).len() + spec_kept_source(source, target).len()
            + spec_conflicts(source, target).len() == source.len(),
    decreases source.len(),
{
    if source.len() > 0 {
        lemma_merge_partitions_source(source.drop_last(), target);
    }
}

proof fn lemma_disjoint_source_side(source: Seq<McpServerV>, target: Seq<McpServerV>)
    requires
        forall|i: int, j: int| 0 <= i < source.len() && 0 <= j < target.len() ==> (
        #[trigger] source[i]).name != (#[trigger] target[j]).name,
    ensures
        spec_added(source, target) == source,
        spec_kept_source(source, target) == Seq::<McpServerV>::empty(),
        spec_conflicts(source, target) == Seq::<(McpServerV, McpServerV)>::empty(),
    decreases source.len(),
{
    if source.len() > 0 {
        let pre = source.drop_last();
        lemma_disjoint_source_side(pre, target);
        lemma_name_index(target, source.last().name);
        if name_index(target, source.last().name) < target.len() {
            assert(target[name_index(target, source.last().name)].name == source.last().name);
            assert(source[source.len() - 1].name != target[name_index(
                target,
                source.last().name,
            )].name);
        }
        assert(!has_name(target, source.last().name));
        assert(spec_added(source, target) =~= source);
    }
}

proof fn lemma_disjoint_target_side(source: Seq<McpServerV>, target: Seq<McpServerV>)
    requires
        forall|i: int, j: int| 0 <= i < source.len() && 0 <= j < target.len() ==> (
        #[trigger] source[i]).name != (#[trigger] target[j]).name,
    ensures
        spec_kept_target(source, target) == target,
    decreases target.len(),
{
    if target.len() > 0 {
        let pre = target.drop_last();
        lemma_disjoint_target_side(source, pre);
        lemma_name_index(source, target.last().name);
        if name_index(source, target.last().name) < source.len() {
            assert(source[name_index(source, target.last().name)].name == target[target.len()
                - 1].name);
        }
        assert(!has_name(source, target.last().name));
        assert(spec_kept_target(source, target) =~= target);
    }
}

/// Merge completeness on lists that share no name: every source entry is
/// added, every target entry is kept, nothing conflicts, and the bucket
/// sizes account for every name on either side exactly once.
pub proof fn lemma_merge_disjoint_complete(source: Seq<McpServerV>, target: Seq<McpServerV>)
    requires
        forall|i: int, j: int| 0 <= i < source.len() && 0 <= j < target.len() ==> (
        #[trigger] source[i]).name != (#[trigger] target[j]).name,
    ensures
        spec_added(source, target) == source,
        spec_kept_source(source, target) == Seq::<McpServerV>::empty(),
        spec_conflicts(source, target) == Seq::<(McpServerV, McpServerV)>::empty(),
        spec_kept_target(source, target) == target,
        spec_added(source, target).len() + (spec_kept_source(source, target)
            + spec_kept_target(source, target)).len() + spec_conflicts(source, target).len()
            == source.len() + target.len(),
{
    lemma_disjoint_source_side(source, target);
    lemma_disjoint_target_side(source, target);
}

} // verus!
