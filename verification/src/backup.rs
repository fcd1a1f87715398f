//! The crash-safe write path: every mutation goes through a plan of copy,
//! rename and write steps that rotates backups first, writes a sibling
//! temporary file, and renames it over the target.  The effect of a plan is
//! specified against a map from path to content; the rotation laws are
//! proved over that model.

use vstd::prelude::*;
use vstd::string::StrSliceExecFns;
use vstd::string::StringExecFns;
use crate::text::{dec_string, spec_dec, str_to_string};

verus! {

/// Rotation keeps at most this many numbered slots.
pub const MAX_BACKUP_SLOTS: u32 = 20;

/// Where a file's backups rotate: the bare `.bak` sibling and numbered
/// siblings `.bak.1` and up.
#[derive(Debug, Clone, Copy, PartialEq)]
pub struct BackupSettings {
    pub enabled: bool,
    pub max_backups: u32,
}

impl Default for BackupSettings {
    /// A single backup slot, kept on: what a write uses when the caller
    /// says nothing.
    fn default() -> (r: BackupSettings)
        ensures
            r.enabled,
            r.max_backups == 1,
    {
        BackupSettings { enabled: true, max_backups: 1 }
    }
}

/// One step of a plan.  A copy or rename of an absent source does nothing;
/// a write replaces the content under the path.
#[derive(Debug, PartialEq)]
pub enum FsOp {
    CopyFile(String, String),
    RenameFile(String, String),
    WriteFile(String, String),
}

/// Last index of a path separator in `p`, or `-1`.
pub open spec fn spec_rindex_sep(p: Seq<char>) -> int
    decreases p.len(),
{
    if p.len() == 0 {
        -1
    } else if p.last() == '/' || p.last() == '\\' {
        p.len() - 1
    } else {
        spec_rindex_sep(p.drop_last())
    }
}

/// Last index of `c` in `p`, or `-1`.
pub open spec fn spec_rindex_of(p: Seq<char>, c: char) -> int
    decreases p.len(),
{
    if p.len() == 0 {
        -1
    } else if p.last() == c {
        p.len() - 1
    } else {
        spec_rindex_of(p.drop_last(), c)
    }
}

/// Where the extension dot of the file name sits, or `-1` when the name
/// has no extension.  A dot that starts the file name does not count, so a
/// hidden file without a further dot has no extension.
pub open spec fn spec_ext_dot(p: Seq<char>) -> int {
    let d = spec_rindex_of(p, '.');
    if d > spec_rindex_sep(p) + 1 {
        d
    } else {
        -1
    }
}

/// The sibling of `p` whose extension is `ext`: the extension is replaced
/// when the file name has one and appended when it does not.
pub open spec fn spec_with_ext(p: Seq<char>, ext: Seq<char>) -> Seq<char> {
    let d = spec_ext_dot(p);
    if d >= 0 {
        p.take(d) + "."@ + ext
    } else {
        p + "."@ + ext
    }
}

/// The bare backup sibling of a path.
pub open spec fn spec_bak_path(p: Seq<char>) -> Seq<char> {
    spec_with_ext(p, "bak"@)
}

/// The temporary sibling a write goes through.
pub open spec fn spec_tmp_path(p: Seq<char>) -> Seq<char> {
    spec_with_ext(p, "tmp"@)
}

/// The numbered backup sibling `<path>.bak.<k>`.
pub open spec fn spec_numbered_bak(p: Seq<char>, k: nat) -> Seq<char> {
    p + ".bak."@ + spec_dec(k)
}

/// Slot `0` is the bare `.bak` sibling; slot `k >= 1` is `<path>.bak.<k>`.
pub open spec fn spec_slot_path(p: Seq<char>, k: int) -> Seq<char> {
    if k == 0 {
        spec_bak_path(p)
    } else {
        spec_numbered_bak(p, k as nat)
    }
}

proof fn lemma_rindex_sep(p: Seq<char>)
    ensures
        -1 <= spec_rindex_sep(p) < p.len(),
        spec_rindex_sep(p) >= 0 ==> (p[spec_rindex_sep(p)] == '/' || p[spec_rindex_sep(p)]
            == '\\'),
        forall|j: int| spec_rindex_sep(p) < j < p.len() ==> p[j] != '/' && p[j] != '\\',
    decreases p.len(),
{
    if p.len() > 0 && !(p.last() == '/' || p.last() == '\\') {
        lemma_rindex_sep(p.drop_last());
        assert forall|j: int| spec_rindex_sep(p) < j < p.len() implies p[j] != '/' && p[j] != '\\'
        by {
            if j < p.len() - 1 {
                assert(p.drop_last()[j] == p[j]);
            }
        }
    }
}

proof fn lemma_rindex_of(p: Seq<char>, c: char)
    ensures
        -1 <= spec_rindex_of(p, c) < p.len(),
        spec_rindex_of(p, c) >= 0 ==> p[spec_rindex_of(p, c)] == c,
        forall|j: int| spec_rindex_of(p, c) < j < p.len() ==> p[j] != c,
    decreases p.len(),
{
    if p.len() > 0 && p.last() != c {
        lemma_rindex_of(p.drop_last(), c);
        assert forall|j: int| spec_rindex_of(p, c) < j < p.len() implies p[j] != c by {
            if j < p.len() - 1 {
                assert(p.drop_last()[j] == p[j]);
            }
        }
    }
}

/// Last index of a path separator, executable side.
#[verifier::loop_isolation(false)]
fn rindex_sep(p: &str) -> (r: Option<usize>)
    ensures
        match r {
            Some(i) => i == spec_rindex_sep(p@),
            None => spec_rindex_sep(p@) == -1,
        },
{
    proof {
        lemma_rindex_sep(p@);
    }
    let len = p.unicode_len();
    let mut i: usize = len;
    while i > 0
        invariant
            len == p@.len(),
            0 <= i <= len,
            forall|j: int| i <= j < len ==> p@[j] != '/' && p@[j] != '\\',
        decreases i,
    {
        let c = p.get_char(i - 1);
        if c == '/' || c == '\\' {
            proof {
                let k = spec_rindex_sep(p@);
                assert(p@[i - 1] == '/' || p@[i - 1] == '\\');
                assert(!(k < i - 1));
                assert(!(i - 1 < k));
            }
            return Some(i - 1);
        }
        i -= 1;
    }
    proof {
        let k = spec_rindex_sep(p@);
        if k >= 0 {
            assert(p@[k] == '/' || p@[k] == '\\');
        }
    }
    None
}

/// Last index of `c`, executable side.
#[verifier::loop_isolation(false)]
fn rindex_of(p: &str, c: char) -> (r: Option<usize>)
    ensures
        match r {
            Some(i) => i == spec_rindex_of(p@, c),
            None => spec_rindex_of(p@, c) == -1,
        },
{
    proof {
        lemma_rindex_of(p@, c);
    }
    let len = p.unicode_len();
    let mut i: usize = len;
    while i > 0
        invariant
            len == p@.len(),
            0 <= i <= len,
            forall|j: int| i <= j < len ==> p@[j] != c,
        decreases i,
    {
        if p.get_char(i - 1) == c {
            proof {
                let k = spec_rindex_of(p@, c);
                assert(p@[i - 1] == c);
                assert(!(k < i - 1));
                assert(!(i - 1 < k));
            }
            return Some(i - 1);
        }
        i -= 1;
    }
    proof {
        let k = spec_rindex_of(p@, c);
        if k >= 0 {
            assert(p@[k] == c);
        }
    }
    None
}

/// The sibling of `path` carrying the extension `ext`.
pub fn path_with_extension(path: &str, ext: &str) -> (r: String)
    ensures
        r@ == spec_with_ext(path@, ext@),
{
    proof {
        lemma_rindex_sep(path@);
        lemma_rindex_of(path@, '.');
    }
    let len = path.unicode_len();
    let sep = rindex_sep(path);
    let dot = rindex_of(path, '.');
    let cut: usize = match (dot, sep) {
        (Some(d), Some(sp)) => if d > sp + 1 {
            d
        } else {
            len
        },
        (Some(d), None) => if d > 0 {
            d
        } else {
            len
        },
        _ => len,
    };
    proof {
        if cut < len {
            assert(spec_ext_dot(path@) == cut);
        } else {
            assert(spec_ext_dot(path@) == -1);
        }
    }
    let stem = path.substring_char(0, cut);
    let mut r = str_to_string(stem);
    r.append(".");
    r.append(ext);
    proof {
        if cut < len {
            assert(stem@ =~= path@.take(cut as int));
            assert(r@ =~= spec_with_ext(path@, ext@));
        } else {
            assert(stem@ =~= path@);
            assert(r@ =~= spec_with_ext(path@, ext@));
        }
    }
    r
}

/// The bare backup sibling of `path`.
pub fn backup_path_of(path: &str) -> (r: String)
    ensures
        r@ == spec_bak_path(path@),
{
    path_with_extension(path, "bak")
}

/// The temporary sibling of `path`.
pub fn temp_path_of(path: &str) -> (r: String)
    ensures
        r@ == spec_tmp_path(path@),
{
    path_with_extension(path, "tmp")
}

/// The numbered backup sibling of `path`.
pub fn numbered_backup_path(path: &str, k: u32) -> (r: String)
    ensures
        r@ == spec_numbered_bak(path@, k as nat),
{
    let mut r = str_to_string(path);
    r.append(".bak.");
    let d = dec_string(k);
    r.append(d.as_str());
    r
}

/// The store a plan acts on, modelled as a map from path to content.
pub open spec fn apply_op(m: Map<Seq<char>, Seq<char>>, op: FsOp) -> Map<Seq<char>, Seq<char>> {
    match op {
        FsOp::CopyFile(src, dst) => if m.dom().contains(src@) {
            m.insert(dst@, m[src@])
        } else {
            m
        },
        FsOp::RenameFile(src, dst) => if m.dom().contains(src@) {
            m.insert(dst@, m[src@]).remove(src@)
        } else {
            m
        },
        FsOp::WriteFile(p, c) => m.insert(p@, c@),
    }
}

/// A plan applied in order.
pub open spec fn apply_ops(m: Map<Seq<char>, Seq<char>>, ops: Seq<FsOp>) -> Map<
    Seq<char>,
    Seq<char>,
>
    decreases ops.len(),
{
    if ops.len() == 0 {
        m
    } else {
        apply_op(apply_ops(m, ops.drop_last()), ops.last())
    }
}

/// Slot `i` moved onto slot `i + 1`, when it exists.
pub open spec fn rename_slot(m: Map<Seq<char>, Seq<char>>, p: Seq<char>, i: int) -> Map<
    Seq<char>,
    Seq<char>,
> {
    let src = spec_slot_path(p, i);
    let dst = spec_slot_path(p, i + 1);
    if m.dom().contains(src) {
        m.insert(dst, m[src]).remove(src)
    } else {
        m
    }
}

/// Slots `hi` down to `lo` each moved one slot up, highest first.
pub open spec fn shift_down(m: Map<Seq<char>, Seq<char>>, p: Seq<char>, hi: int, lo: int) -> Map<
    Seq<char>,
    Seq<char>,
>
    decreases hi + 1 - lo,
{
    if hi < lo {
        m
    } else {
        shift_down(rename_slot(m, p, hi), p, hi - 1, lo)
    }
}

/// The number of numbered slots rotation actually uses.
pub open spec fn clamp_slots(max: nat) -> nat {
    if max > 20 {
        20
    } else {
        max
    }
}

/// What one backup rotation does to the store: with a single slot the
/// current file is copied to `.bak`; with more, the numbered slots shift
/// up, `.bak` becomes `.bak.1`, and the current file is copied to a fresh
/// `.bak`.
pub open spec fn model_rotate(m: Map<Seq<char>, Seq<char>>, p: Seq<char>, max: nat) -> Map<
    Seq<char>,
    Seq<char>,
> {
    if max <= 1 {
        if m.dom().contains(p) {
            m.insert(spec_bak_path(p), m[p])
        } else {
            m
        }
    } else {
        let m1 = shift_down(m, p, max - 1, 1);
        let m2 = rename_slot(m1, p, 0);
        if m2.dom().contains(p) {
            m2.insert(spec_bak_path(p), m2[p])
        } else {
            m2
        }
    }
}

/// What one durable write does to the store: rotate when backups are on
/// and the target exists, then write the temporary sibling and rename it
/// over the target.
pub open spec fn model_write(
    m: Map<Seq<char>, Seq<char>>,
    p: Seq<char>,
    content: Seq<char>,
    enabled: bool,
    max_raw: nat,
) -> Map<Seq<char>, Seq<char>> {
    let m1 = if enabled && m.dom().contains(p) && max_raw > 0 {
        model_rotate(m, p, clamp_slots(max_raw))
    } else {
        m
    };
    let m2 = m1.insert(spec_tmp_path(p), content);
    m2.insert(p, m2[spec_tmp_path(p)]).remove(spec_tmp_path(p))
}

proof fn lemma_shift_down_snoc(m: Map<Seq<char>, Seq<char>>, p: Seq<char>, hi: int, lo: int)
    requires
        lo <= hi,
    ensures
        shift_down(m, p, hi, lo) == rename_slot(shift_down(m, p, hi, lo + 1), p, lo),
    decreases hi + 1 - lo,
{
    if lo < hi {
        lemma_shift_down_snoc(rename_slot(m, p, hi), p, hi - 1, lo);
        assert(shift_down(m, p, hi, lo) == shift_down(rename_slot(m, p, hi), p, hi - 1, lo));
        assert(shift_down(m, p, hi, lo + 1) == shift_down(rename_slot(m, p, hi), p, hi - 1, lo + 1));
    } else {
        assert(shift_down(rename_slot(m, p, hi), p, hi - 1, lo) == rename_slot(m, p, hi));
        assert(shift_down(m, p, hi, lo + 1) == m);
        assert(shift_down(m, p, hi, lo) == rename_slot(m, p, hi));
    }
}

/// The rotation steps for one file: emitted in the order they must run.
pub fn backup_rotation_ops(path: &str, max_backups: u32) -> (r: Vec<FsOp>)
    requires
        1 <= max_backups,
    ensures
        forall|m: Map<Seq<char>, Seq<char>>| #[trigger] apply_ops(m, r@) == model_rotate(
            m,
            path@,
            clamp_slots(max_backups as nat),
        ),
{
    let max: u32 = if max_backups > MAX_BACKUP_SLOTS {
        MAX_BACKUP_SLOTS
    } else {
        max_backups
    };
    let mut ops: Vec<FsOp> = Vec::new();
    if max == 1 {
        let op = FsOp::CopyFile(str_to_string(path), backup_path_of(path));
        let ghost gop = op;
        ops.push(op);
        proof {
            assert forall|m: Map<Seq<char>, Seq<char>>| #[trigger] apply_ops(m, ops@)
                == model_rotate(m, path@, clamp_slots(max_backups as nat)) by {
                assert(ops@.drop_last() =~= Seq::<FsOp>::empty());
                assert(ops@.last() == gop);
                assert(apply_ops(m, Seq::<FsOp>::empty()) == m);
                assert(apply_ops(m, ops@) == apply_op(m, gop));
            }
        }
        return ops;
    }
    let mut i: u32 = max - 1;
    proof {
        assert forall|m: Map<Seq<char>, Seq<char>>| #[trigger] apply_ops(m, ops@) == shift_down(
            m,
            path@,
            max - 1,
            max as int,
        ) by {
            assert(ops@.len() == 0);
        }
    }
    while i >= 1
        invariant
            max == clamp_slots(max_backups as nat),
            2 <= max <= 20,
            0 <= i <= max - 1,
            forall|m: Map<Seq<char>, Seq<char>>| #[trigger] apply_ops(m, ops@) == shift_down(
                m,
                path@,
                max - 1,
                i + 1,
            ),
        decreases i,
    {
        let op = FsOp::RenameFile(numbered_backup_path(path, i), numbered_backup_path(path, i + 1));
        let ghost gop = op;
        let ghost opre = ops@;
        ops.push(op);
        proof {
            assert forall|m: Map<Seq<char>, Seq<char>>| #[trigger] apply_ops(m, ops@) == shift_down(
                m,
                path@,
                max - 1,
                i as int,
            ) by {
                assert(ops@.drop_last() =~= opre);
                assert(ops@.last() == gop);
                assert(apply_op(apply_ops(m, opre), gop) == rename_slot(
                    apply_ops(m, opre),
                    path@,
                    i as int,
                ));
                lemma_shift_down_snoc(m, path@, max - 1, i as int);
            }
        }
        i -= 1;
    }
    let op1 = FsOp::RenameFile(backup_path_of(path), numbered_backup_path(path, 1));
    let ghost gop1 = op1;
    let ghost opre1 = ops@;
    ops.push(op1);
    proof {
        assert forall|m: Map<Seq<char>, Seq<char>>| #[trigger] apply_ops(m, ops@) == rename_slot(
            shift_down(m, path@, max - 1, 1),
            path@,
            0,
        ) by {
            assert(ops@.drop_last() =~= opre1);
            assert(ops@.last() == gop1);
            assert(apply_ops(m, ops@) == apply_op(apply_ops(m, opre1), gop1));
            assert(apply_ops(m, opre1) == shift_down(m, path@, max - 1, 1));
            assert(apply_op(shift_down(m, path@, max - 1, 1), gop1) == rename_slot(
                shift_down(m, path@, max - 1, 1),
                path@,
                0,
            ));
        }
    }
    let op2 = FsOp::CopyFile(str_to_string(path), backup_path_of(path));
    let ghost gop2 = op2;
    let ghost opre2 = ops@;
    ops.push(op2);
    proof {
        assert forall|m: Map<Seq<char>, Seq<char>>| #[trigger] apply_ops(m, ops@) == model_rotate(
            m,
            path@,
            clamp_slots(max_backups as nat),
        ) by {
            assert(ops@.drop_last() =~= opre2);
            assert(ops@.last() == gop2);
            assert(apply_ops(m, ops@) == apply_op(apply_ops(m, opre2), gop2));
            assert(apply_ops(m, opre2) == rename_slot(shift_down(m, path@, max - 1, 1), path@, 0));
        }
    }
    ops
}

/// The full plan of one durable write: rotation when backups are on and
/// the target exists, the temporary write, and the final rename.
pub fn write_file_ops(
    path: &str,
    content: &str,
    settings: &BackupSettings,
    target_exists: bool,
) -> (r: Vec<FsOp>)
    ensures
        forall|m: Map<Seq<char>, Seq<char>>|
            m.dom().contains(path@) == target_exists ==> #[trigger] apply_ops(m, r@)
                == model_write(
                m,
                path@,
                content@,
                settings.enabled,
                settings.max_backups as nat,
            ),
{
    let mut ops: Vec<FsOp> = if settings.enabled && target_exists && settings.max_backups > 0 {
        backup_rotation_ops(path, settings.max_backups)
    } else {
        Vec::new()
    };
    let ghost rot = ops@;
    let op1 = FsOp::WriteFile(temp_path_of(path), str_to_string(content));
    let ghost gop1 = op1;
    ops.push(op1);
    let ghost mid = ops@;
    let op2 = FsOp::RenameFile(temp_path_of(path), str_to_string(path));
    let ghost gop2 = op2;
    ops.push(op2);
    proof {
        assert forall|m: Map<Seq<char>, Seq<char>>|
            m.dom().contains(path@) == target_exists implies #[trigger] apply_ops(m, ops@)
            == model_write(m, path@, content@, settings.enabled, settings.max_backups as nat) by {
            assert(ops@.drop_last() =~= mid);
            assert(ops@.last() == gop2);
            assert(mid.drop_last() =~= rot);
            assert(mid.last() == gop1);
            assert(apply_ops(m, ops@) == apply_op(apply_ops(m, mid), gop2));
            assert(apply_ops(m, mid) == apply_op(apply_ops(m, rot), gop1));
            let m1 = apply_ops(m, rot);
            if settings.enabled && target_exists && settings.max_backups > 0 {
                assert(m1 == model_rotate(m, path@, clamp_slots(settings.max_backups as nat)));
            } else {
                assert(rot.len() == 0);
            }
            let m2 = apply_op(m1, gop1);
            assert(m2 == m1.insert(spec_tmp_path(path@), content@));
            assert(m2.dom().contains(spec_tmp_path(path@)));
            assert(apply_op(m2, gop2) == m2.insert(path@, m2[spec_tmp_path(path@)]).remove(
                spec_tmp_path(path@),
            ));
        }
    }
    ops
}

/// The plan of a restore: optionally back the current file up, then write
/// the saved content over it.  The content is read before any of this
/// runs, so restoring from the very file the pre-restore backup overwrites
/// still restores the right bytes.
pub fn restore_ops(
    original: &str,
    backup_content: &str,
    create_backup: bool,
    original_exists: bool,
) -> (r: Vec<FsOp>)
    ensures
        forall|m: Map<Seq<char>, Seq<char>>|
            m.dom().contains(original@) == original_exists ==> #[trigger] apply_ops(m, r@) == (
            if create_backup && m.dom().contains(original@) {
                m.insert(spec_bak_path(original@), m[original@]).insert(original@, backup_content@)
            } else {
                m.insert(original@, backup_content@)
            }),
{
    let mut ops: Vec<FsOp> = Vec::new();
    if create_backup && original_exists {
        ops.push(FsOp::CopyFile(str_to_string(original), backup_path_of(original)));
    }
    let ghost pre = ops@;
    let op = FsOp::WriteFile(str_to_string(original), str_to_string(backup_content));
    let ghost gop = op;
    ops.push(op);
    proof {
        assert forall|m: Map<Seq<char>, Seq<char>>|
            m.dom().contains(original@) == original_exists implies #[trigger] apply_ops(m, ops@)
            == (if create_backup && m.dom().contains(original@) {
            m.insert(spec_bak_path(original@), m[original@]).insert(original@, backup_content@)
        } else {
            m.insert(original@, backup_content@)
        }) by {
            assert(ops@.drop_last() =~= pre);
            assert(ops@.last() == gop);
            assert(apply_ops(m, ops@) == apply_op(apply_ops(m, pre), gop));
            if create_backup && original_exists {
                assert(pre.drop_last() =~= Seq::<FsOp>::empty());
                assert(apply_ops(m, pre) == apply_op(apply_ops(m, Seq::<FsOp>::empty()),
                    pre.last()));
                assert(apply_ops(m, Seq::<FsOp>::empty()) == m);
            } else {
                assert(pre.len() == 0);
                assert(apply_ops(m, pre) == m);
            }
        }
    }
    ops
}

/// How many numbered slots a listing reports: the count of consecutive
/// present slots from the first, never past twenty.
pub open spec fn spec_listed_count(present: Seq<bool>, i: int) -> int
    decreases 21 - i,
{
    if i > 20 || i >= present.len() {
        0
    } else if !present[i] {
        0
    } else {
        1 + spec_listed_count(present, i + 1)
    }
}

/// The backup paths a listing reports, given which candidates exist:
/// the bare `.bak` when present, then the numbered slots from one upward,
/// stopping at the first missing slot and never probing past twenty.
/// `present[k]` says whether slot `k` exists, with slot `0` the bare
/// sibling.
pub fn list_backup_paths(path: &str, present: &Vec<bool>) -> (r: Vec<String>)
    requires
        present@.len() == 21,
    ensures
        r@.len() == (if present@[0] {
            1int
        } else {
            0int
        }) + spec_listed_count(present@, 1),
        present@[0] ==> r@.len() >= 1 && r@[0]@ == spec_bak_path(path@),
        forall|k: int|
            1 <= k <= spec_listed_count(present@, 1) ==> (#[trigger] spec_numbered_bak(
                path@,
                k as nat,
            )) == r@[k - 1 + (if present@[0] {
                1int
            } else {
                0int
            })]@,
{
    let mut out: Vec<String> = Vec::new();
    if present[0] {
        out.push(backup_path_of(path));
    }
    let ghost base = out@.len() as int;
    let mut k: u32 = 1;
    while k <= 20 && present[k as usize]
        invariant
            present@.len() == 21,
            1 <= k <= 21,
            out@.len() == base + k - 1,
            base == if present@[0] {
                1int
            } else {
                0int
            },
            present@[0] ==> out@[0]@ == spec_bak_path(path@),
            forall|j: int| 1 <= j < k ==> present@[j],
            forall|j: int| 1 <= j < k ==> (#[trigger] spec_numbered_bak(path@, j as nat)) == out@[j
                - 1 + base]@,
        ensures
            1 <= k <= 21,
            out@.len() == base + k - 1,
            present@[0] ==> out@[0]@ == spec_bak_path(path@),
            forall|j: int| 1 <= j < k ==> present@[j],
            forall|j: int| 1 <= j < k ==> (#[trigger] spec_numbered_bak(path@, j as nat)) == out@[j
                - 1 + base]@,
            k == 21 || !present@[k as int],
        decreases 21 - k,
    {
        out.push(numbered_backup_path(path, k));
        k += 1;
    }
    proof {
        lemma_listed_count_run(present@, 1, k as int);
    }
    out
}

/// The listed count is exactly the length of the run of present slots.
proof fn lemma_listed_count_run(present: Seq<bool>, i: int, stop: int)
    requires
        present.len() == 21,
        1 <= i <= stop <= 21,
        forall|j: int| i <= j < stop ==> present[j],
        stop == 21 || !present[stop],
    ensures
        spec_listed_count(present, i) == stop - i,
    decreases stop - i,
{
    if i < stop {
        lemma_listed_count_run(present, i + 1, stop);
    }
}

/// A target whose backup and temporary siblings are distinct from the
/// target itself.  A path that already ends in `.bak` or `.tmp` is its own
/// sibling and cannot be rotated safely.
pub open spec fn rotation_safe(p: Seq<char>) -> bool {
    spec_bak_path(p) != p && spec_tmp_path(p) != p
}

/// The content stored under one name, or nothing.
pub open spec fn file_state(m: Map<Seq<char>, Seq<char>>, key: Seq<char>) -> Option<Seq<char>> {
    if m.dom().contains(key) {
        Some(m[key])
    } else {
        None
    }
}

/// The content of one backup slot, or nothing.
pub open spec fn slot_state(m: Map<Seq<char>, Seq<char>>, p: Seq<char>, j: int) -> Option<
    Seq<char>,
> {
    file_state(m, spec_slot_path(p, j))
}

/// All names the rotation of one file touches are pairwise distinct.
pub proof fn lemma_rotation_names(p: Seq<char>)
    ensures
        forall|i: int, j: int|
            1 <= i < j <= 20 ==> #[trigger] spec_numbered_bak(p, i as nat)
                != #[trigger] spec_numbered_bak(p, j as nat),
        forall|k: int|
            1 <= k <= 20 ==> #[trigger] spec_numbered_bak(p, k as nat) != p && spec_numbered_bak(
                p,
                k as nat,
            ) != spec_bak_path(p) && spec_numbered_bak(p, k as nat) != spec_tmp_path(p),
        spec_bak_path(p) != spec_tmp_path(p),
{
    reveal_strlit(".");
    reveal_strlit("bak");
    reveal_strlit("tmp");
    reveal_strlit(".bak.");
    lemma_rindex_of(p, '.');
    lemma_rindex_sep(p);
    assert(".bak."@.len() == 5);
    assert("."@.len() == 1);
    assert("bak"@.len() == 3);
    assert("tmp"@.len() == 3);
    let stem_len = if spec_ext_dot(p) >= 0 {
        spec_ext_dot(p)
    } else {
        p.len() as int
    };
    assert(spec_bak_path(p).len() == stem_len + 4);
    assert(spec_tmp_path(p).len() == stem_len + 4);
    assert(stem_len <= p.len());
    assert forall|k: int| 1 <= k <= 20 implies #[trigger] spec_numbered_bak(p, k as nat) != p
        && spec_numbered_bak(p, k as nat) != spec_bak_path(p) && spec_numbered_bak(p, k as nat)
        != spec_tmp_path(p) by {
        crate::text::lemma_dec_round_trip(k as nat);
        assert(spec_numbered_bak(p, k as nat).len() >= p.len() + 6);
    }
    assert forall|i: int, j: int| 1 <= i < j <= 20 implies #[trigger] spec_numbered_bak(
        p,
        i as nat,
    ) != #[trigger] spec_numbered_bak(p, j as nat) by {
        crate::text::lemma_dec_round_trip(i as nat);
        crate::text::lemma_dec_round_trip(j as nat);
        let ni = spec_numbered_bak(p, i as nat);
        let nj = spec_numbered_bak(p, j as nat);
        if ni == nj {
            let di = spec_dec(i as nat);
            let dj = spec_dec(j as nat);
            assert(ni.len() == p.len() + 5 + di.len());
            assert(nj.len() == p.len() + 5 + dj.len());
            assert(di.len() == dj.len());
            assert forall|t: int| 0 <= t < di.len() implies di[t] == dj[t] by {
                assert(ni[p.len() + 5 + t] == di[t]);
                assert(nj[p.len() + 5 + t] == dj[t]);
            }
            assert(di =~= dj);
            assert(crate::text::dec_val(di) == crate::text::dec_val(dj));
        }
    }
    assert(spec_bak_path(p)[stem_len + 1] == 'b');
    assert(spec_tmp_path(p)[stem_len + 1] == 't');
}

/// The effect of shifting slots `hi` down to `1` one slot up, highest
/// first: each slot up to `hi` takes what the slot below held, the lowest
/// slot empties, the slot above the range fills from `hi` only when `hi`
/// held something, and every other name is untouched.
proof fn lemma_shift_effect(m: Map<Seq<char>, Seq<char>>, p: Seq<char>, hi: int)
    requires
        1 <= hi <= 19,
    ensures
        ({
            let r = shift_down(m, p, hi, 1);
            &&& #[trigger] slot_state(r, p, 1) is None
            &&& forall|j: int| 2 <= j <= hi ==> #[trigger] slot_state(r, p, j) == slot_state(
                m,
                p,
                j - 1,
            )
            &&& slot_state(r, p, hi + 1) == (if slot_state(m, p, hi) is Some {
                slot_state(m, p, hi)
            } else {
                slot_state(m, p, hi + 1)
            })
            &&& forall|j: int| hi + 1 < j <= 20 ==> #[trigger] slot_state(r, p, j) == slot_state(
                m,
                p,
                j,
            )
            &&& slot_state(r, p, 0) == slot_state(m, p, 0)
            &&& file_state(r, p) == file_state(m, p)
            &&& file_state(r, spec_tmp_path(p)) == file_state(m, spec_tmp_path(p))
        }),
    decreases hi,
{
    lemma_rotation_names(p);
    let m1 = rename_slot(m, p, hi);
    let shi = spec_slot_path(p, hi);
    let shi1 = spec_slot_path(p, hi + 1);
    // what the single top rename does to each name
    assert(slot_state(m1, p, hi) is None);
    assert(slot_state(m1, p, hi + 1) == (if slot_state(m, p, hi) is Some {
        slot_state(m, p, hi)
    } else {
        slot_state(m, p, hi + 1)
    }));
    assert forall|j: int| 0 <= j <= 20 && j != hi && j != hi + 1 implies #[trigger] slot_state(
        m1,
        p,
        j,
    ) == slot_state(m, p, j) by {
        assert(spec_slot_path(p, j) != shi);
        assert(spec_slot_path(p, j) != shi1);
    }
    assert(file_state(m1, p) == file_state(m, p));
    assert(file_state(m1, spec_tmp_path(p)) == file_state(m, spec_tmp_path(p)));
    if hi == 1 {
        assert(shift_down(m, p, 1, 1) == shift_down(m1, p, 0, 1));
        assert(shift_down(m1, p, 0, 1) == m1);
    } else {
        lemma_shift_effect(m1, p, hi - 1);
        assert(shift_down(m, p, hi, 1) == shift_down(m1, p, hi - 1, 1));
        let r = shift_down(m, p, hi, 1);
        assert forall|j: int| 2 <= j <= hi implies #[trigger] slot_state(r, p, j) == slot_state(
            m,
            p,
            j - 1,
        ) by {
            if j <= hi - 1 {
                assert(slot_state(r, p, j) == slot_state(m1, p, j - 1));
                assert(slot_state(m1, p, j - 1) == slot_state(m, p, j - 1));
            } else {
                // j == hi: the inner shift's top clause, translated back to m
                assert(slot_state(r, p, hi) == (if slot_state(m1, p, hi - 1) is Some {
                    slot_state(m1, p, hi - 1)
                } else {
                    slot_state(m1, p, hi)
                }));
                assert(slot_state(m1, p, hi - 1) == slot_state(m, p, hi - 1));
                assert(slot_state(m1, p, hi) is None);
            }
        }
        assert forall|j: int| hi + 1 < j <= 20 implies #[trigger] slot_state(r, p, j)
            == slot_state(m, p, j) by {
            assert(slot_state(r, p, j) == slot_state(m1, p, j));
        }
        assert(slot_state(r, p, hi + 1) == slot_state(m1, p, hi + 1));
        assert(slot_state(r, p, 0) == slot_state(m1, p, 0));
    }
}

/// What one rotation does to each name it owns, for a safely named target
/// that exists: the fresh `.bak` holds the target's content, every
/// numbered slot up to the next-to-last takes what the slot below held,
/// the last slot fills from the one below it only when that held
/// something, and everything else is untouched.
pub proof fn lemma_rotate_effect(m: Map<Seq<char>, Seq<char>>, p: Seq<char>, max: int)
    requires
        1 <= max <= 20,
        rotation_safe(p),
        m.dom().contains(p),
    ensures
        ({
            let r = model_rotate(m, p, max as nat);
            &&& slot_state(r, p, 0) == Some(m[p])
            &&& file_state(r, p) == file_state(m, p)
            &&& file_state(r, spec_tmp_path(p)) == file_state(m, spec_tmp_path(p))
            &&& max == 1 ==> forall|j: int| 1 <= j <= 20 ==> #[trigger] slot_state(r, p, j)
                == slot_state(m, p, j)
            &&& max >= 2 ==> forall|j: int| 1 <= j <= max - 1 ==> #[trigger] slot_state(r, p, j)
                == slot_state(m, p, j - 1)
            &&& max >= 2 ==> slot_state(r, p, max) == (if slot_state(m, p, max - 1) is Some {
                slot_state(m, p, max - 1)
            } else {
                slot_state(m, p, max)
            })
            &&& max >= 2 ==> forall|j: int| max < j <= 20 ==> #[trigger] slot_state(r, p, j)
                == slot_state(m, p, j)
        }),
{
    lemma_rotation_names(p);
    if max == 1 {
        let r = model_rotate(m, p, 1);
        assert(r == m.insert(spec_bak_path(p), m[p]));
        assert forall|j: int| 1 <= j <= 20 implies #[trigger] slot_state(r, p, j) == slot_state(
            m,
            p,
            j,
        ) by {
            assert(spec_slot_path(p, j) != spec_bak_path(p));
        }
    } else {
        lemma_shift_effect(m, p, max - 1);
        let m1 = shift_down(m, p, max - 1, 1);
        let m2 = rename_slot(m1, p, 0);
        let r = model_rotate(m, p, max as nat);
        // the bare backup moves into the first slot
        assert(slot_state(m2, p, 0) is None);
        assert(slot_state(m2, p, 1) == (if slot_state(m1, p, 0) is Some {
            slot_state(m1, p, 0)
        } else {
            slot_state(m1, p, 1)
        }));
        assert(slot_state(m1, p, 1) is None);
        assert(slot_state(m1, p, 0) == slot_state(m, p, 0));
        assert forall|j: int| 2 <= j <= 20 implies #[trigger] slot_state(m2, p, j) == slot_state(
            m1,
            p,
            j,
        ) by {
            assert(spec_slot_path(p, j) != spec_slot_path(p, 0));
            assert(spec_slot_path(p, j) != spec_slot_path(p, 1));
        }
        assert(file_state(m2, p) == file_state(m, p));
        assert(m2.dom().contains(p));
        assert(r == m2.insert(spec_bak_path(p), m2[p]));
        assert(m2[p] == m[p]);
        assert forall|j: int| 1 <= j <= 20 implies #[trigger] slot_state(r, p, j) == slot_state(
            m2,
            p,
            j,
        ) by {
            assert(spec_slot_path(p, j) != spec_bak_path(p));
        }
        assert(file_state(r, p) == file_state(m2, p));
        assert(file_state(r, spec_tmp_path(p)) == file_state(m2, spec_tmp_path(p)));
        assert(file_state(m2, spec_tmp_path(p)) == file_state(m1, spec_tmp_path(p)));
    }
}

/// What one durable write does to each name it owns: the target takes the
/// new content, the fresh `.bak` holds what the target held before, the
/// temporary sibling is gone, and the numbered slots rotate.
pub proof fn lemma_write_effect(
    m: Map<Seq<char>, Seq<char>>,
    p: Seq<char>,
    c: Seq<char>,
    max: int,
)
    requires
        1 <= max <= 20,
        rotation_safe(p),
        m.dom().contains(p),
    ensures
        ({
            let r = model_write(m, p, c, true, max as nat);
            &&& file_state(r, p) == Some(c)
            &&& slot_state(r, p, 0) == Some(m[p])
            &&& file_state(r, spec_tmp_path(p)) is None
            &&& max == 1 ==> forall|j: int| 1 <= j <= 20 ==> #[trigger] slot_state(r, p, j)
                == slot_state(m, p, j)
            &&& max >= 2 ==> forall|j: int| 1 <= j <= max - 1 ==> #[trigger] slot_state(r, p, j)
                == slot_state(m, p, j - 1)
            &&& max >= 2 ==> slot_state(r, p, max) == (if slot_state(m, p, max - 1) is Some {
                slot_state(m, p, max - 1)
            } else {
                slot_state(m, p, max)
            })
            &&& max >= 2 ==> forall|j: int| max < j <= 20 ==> #[trigger] slot_state(r, p, j)
                == slot_state(m, p, j)
        }),
{
    lemma_rotation_names(p);
    lemma_rotate_effect(m, p, max);
    let m1 = model_rotate(m, p, max as nat);
    let r = model_write(m, p, c, true, max as nat);
    let tmp = spec_tmp_path(p);
    assert(r == m1.insert(tmp, c).insert(p, c).remove(tmp));
    assert forall|j: int| 0 <= j <= 20 implies #[trigger] slot_state(r, p, j) == slot_state(
        m1,
        p,
        j,
    ) by {
        assert(spec_slot_path(p, j) != tmp);
        assert(spec_slot_path(p, j) != p);
    }
}

/// A backed-up write keeps the previous content: after writing over an
/// existing file with a single-slot backup policy, the `.bak` sibling
/// holds exactly what the file held before the write.
pub proof fn lemma_write_keeps_previous(m: Map<Seq<char>, Seq<char>>, p: Seq<char>, c: Seq<char>)
    requires
        rotation_safe(p),
        m.dom().contains(p),
    ensures
        file_state(model_write(m, p, c, true, 1), p) == Some(c),
        file_state(model_write(m, p, c, true, 1), spec_bak_path(p)) == Some(m[p]),
{
    lemma_write_effect(m, p, c, 1);
}

/// The store after writing each of `contents` in turn, backups on.
pub open spec fn iter_writes(
    m: Map<Seq<char>, Seq<char>>,
    p: Seq<char>,
    contents: Seq<Seq<char>>,
    max: nat,
) -> Map<Seq<char>, Seq<char>>
    decreases contents.len(),
{
    if contents.len() == 0 {
        m
    } else {
        model_write(iter_writes(m, p, contents.drop_last(), max), p, contents.last(), true, max)
    }
}

/// A store holding nothing that a rotation of `p` could touch.
pub open spec fn fresh_for(m: Map<Seq<char>, Seq<char>>, p: Seq<char>) -> bool {
    &&& !m.dom().contains(p)
    &&& !m.dom().contains(spec_tmp_path(p))
    &&& forall|k: int| 0 <= k <= 20 ==> #[trigger] slot_state(m, p, k) is None
}

/// The backup rotation bound: starting from a store with no trace of the
/// target, after `n` writes the backups present are exactly `.bak` and
/// the first `min(n - 2, max)` numbered slots, and each holds the content
/// that many writes back.  The backup count therefore never exceeds
/// `max + 1`, and the newest backup always holds the next-to-last write.
pub proof fn lemma_backup_rotation_bound(
    m: Map<Seq<char>, Seq<char>>,
    p: Seq<char>,
    contents: Seq<Seq<char>>,
    max: int,
)
    requires
        rotation_safe(p),
        fresh_for(m, p),
        2 <= max <= 20,
        contents.len() >= 1,
    ensures
        ({
            let r = iter_writes(m, p, contents, max as nat);
            let n = contents.len() as int;
            &&& file_state(r, p) == Some(contents.last())
            &&& file_state(r, spec_tmp_path(p)) is None
            &&& forall|j: int|
                0 <= j <= max ==> #[trigger] slot_state(r, p, j) == (if n >= j + 2 {
                    Some(contents[n - 2 - j])
                } else {
                    None
                })
            &&& forall|j: int| max < j <= 20 ==> #[trigger] slot_state(r, p, j) is None
        }),
    decreases contents.len(),
{
    lemma_rotation_names(p);
    let n = contents.len() as int;
    let r = iter_writes(m, p, contents, max as nat);
    if n == 1 {
        assert(iter_writes(m, p, contents.drop_last(), max as nat) == m);
        // the first write finds no target, so no rotation happens
        assert(r == m.insert(spec_tmp_path(p), contents.last()).insert(p, contents.last()).remove(
            spec_tmp_path(p),
        ));
        assert forall|j: int| 0 <= j <= 20 implies #[trigger] slot_state(r, p, j) == slot_state(
            m,
            p,
            j,
        ) by {
            assert(spec_slot_path(p, j) != spec_tmp_path(p));
            assert(spec_slot_path(p, j) != p);
        }
    } else {
        lemma_backup_rotation_bound(m, p, contents.drop_last(), max);
        let prev = iter_writes(m, p, contents.drop_last(), max as nat);
        assert(file_state(prev, p) == Some(contents.drop_last().last()));
        lemma_write_effect(prev, p, contents.last(), max);
        assert(r == model_write(prev, p, contents.last(), true, max as nat));
        assert(contents.drop_last().last() == contents[n - 2]);
        assert forall|j: int| 0 <= j <= max implies #[trigger] slot_state(r, p, j) == (if n >= j
            + 2 {
            Some(contents[n - 2 - j])
        } else {
            None
        }) by {
            if j == 0 {
                assert(slot_state(r, p, 0) == Some(prev[p]));
            } else if j <= max - 1 {
                assert(slot_state(r, p, j) == slot_state(prev, p, j - 1));
                if n - 1 >= j + 1 {
                    assert(contents.drop_last()[(n - 1) - 2 - (j - 1)] == contents[n - 2 - j]);
                }
            } else {
                // the last slot fills only from the one below it
                assert(slot_state(r, p, max) == (if slot_state(prev, p, max - 1) is Some {
                    slot_state(prev, p, max - 1)
                } else {
                    slot_state(prev, p, max)
                }));
                if n - 1 >= max + 1 {
                    assert(contents.drop_last()[(n - 1) - 2 - (max - 1)] == contents[n - 2 - max]);
                } else {
                    assert(slot_state(prev, p, max - 1) is None);
                    assert(slot_state(prev, p, max) is None);
                }
            }
        }
        assert forall|j: int| max < j <= 20 implies #[trigger] slot_state(r, p, j) is None by {
            assert(slot_state(r, p, j) == slot_state(prev, p, j));
        }
    }
}

/// Three slots of history: after the fourth consecutive write exactly
/// three backups exist, and the newest holds the third write.
pub proof fn lemma_three_backups_after_four_writes(
    m: Map<Seq<char>, Seq<char>>,
    p: Seq<char>,
    contents: Seq<Seq<char>>,
)
    requires
        rotation_safe(p),
        fresh_for(m, p),
        contents.len() == 4,
    ensures
        ({
            let r = iter_writes(m, p, contents, 3);
            &&& slot_state(r, p, 0) == Some(contents[2])
            &&& slot_state(r, p, 1) == Some(contents[1])
            &&& slot_state(r, p, 2) == Some(contents[0])
            &&& forall|j: int| 3 <= j <= 20 ==> #[trigger] slot_state(r, p, j) is None
            &&& file_state(r, p) == Some(contents[3])
        }),
{
    lemma_backup_rotation_bound(m, p, contents, 3);
    let r = iter_writes(m, p, contents, 3);
    assert(slot_state(r, p, 0) == Some(contents[2]));
    assert(slot_state(r, p, 1) == Some(contents[1]));
    assert(slot_state(r, p, 2) == Some(contents[0]));
    assert forall|j: int| 3 <= j <= 20 implies #[trigger] slot_state(r, p, j) is None by {
        if j == 3 {
            assert(slot_state(r, p, 3) == (if 4int >= 3 + 2 {
                Some(contents[4 - 2 - 3])
            } else {
                None
            }));
        }
    }
}

} // verus!
