//! Snapshot differ: compares two record lists and reports added, removed,
//! modified, and renamed paths plus an unchanged count, all in a fixed order.
//!
//! A rename is recognised only when a content hash has exactly one old path
//! that disappeared and exactly one new path that appeared; anything more
//! ambiguous stays an independent add and remove.
use vstd::prelude::*;

use crate::record::FileIntentEntry;
use crate::text::{copy_bytes, eq_bytes, lemma_lex_trichotomy, lex_lt, spec_lex_lt};

verus! {

/// Minimal payload describing one file in the added or removed lists.
#[derive(Clone, Debug)]
pub struct FileBrief {
    pub path: Vec<u8>,
    pub sha1: Vec<u8>,
    pub size: usize,
    pub lang: Vec<u8>,
    pub role: Vec<u8>,
}

/// One side (before or after) of a modified entry.
#[derive(Clone, Debug)]
pub struct DeltaSide {
    pub sha1: Vec<u8>,
    pub size: usize,
    pub token_estimate: usize,
    pub lang: Vec<u8>,
    pub role: Vec<u8>,
    pub module: Vec<u8>,
    pub lines_total: usize,
    pub lines_nonblank: usize,
    pub tags: Vec<Vec<u8>>,
}

/// A modified path with both sides and the focused deltas.
#[derive(Clone, Debug)]
pub struct DeltaEntry {
    pub path: Vec<u8>,
    pub before: DeltaSide,
    pub after: DeltaSide,
    pub size_delta: i128,
    pub token_delta: i128,
    pub lang_changed: bool,
    pub role_changed: bool,
    pub module_changed: bool,
    pub lines_total_delta: i128,
    pub lines_nonblank_delta: i128,
    pub tags_added: Vec<Vec<u8>>,
    pub tags_removed: Vec<Vec<u8>>,
}

/// A one-to-one rename detected by content hash.
#[derive(Clone, Debug)]
pub struct RenamePair {
    pub from: Vec<u8>,
    pub to: Vec<u8>,
    pub sha1: Vec<u8>,
    pub size: usize,
}

/// Totals of one diff run.
#[derive(Clone, Debug)]
pub struct DiffSummary {
    pub total_old: usize,
    pub total_new: usize,
    pub added: usize,
    pub removed: usize,
    pub modified: usize,
    pub renamed: usize,
    pub unchanged: usize,
}

/// The full structured change report.
#[derive(Clone, Debug)]
pub struct DiffReport {
    pub version: usize,
    pub summary: DiffSummary,
    pub added: Vec<FileBrief>,
    pub removed: Vec<FileBrief>,
    pub modified: Vec<DeltaEntry>,
    pub renamed: Vec<RenamePair>,
}

/// No two entries share a path.
pub open spec fn spec_unique_paths(s: Seq<FileIntentEntry>) -> bool {
    forall|i: int, j: int|
        0 <= i < j < s.len() ==> (#[trigger] s[i]).path@ != (#[trigger] s[j]).path@
}

pub open spec fn spec_has_path(s: Seq<FileIntentEntry>, p: Seq<u8>) -> bool {
    exists|i: int| 0 <= i < s.len() && (#[trigger] s[i]).path@ == p
}

/// An old entry with hash `h` whose path no longer exists in `new`.
pub open spec fn spec_lost(e: FileIntentEntry, new: Seq<FileIntentEntry>, h: Seq<u8>) -> bool {
    e.sha1@ == h && !spec_has_path(new, e.path@)
}

/// A new entry with hash `h` whose path did not exist in `old`.
pub open spec fn spec_gained(e: FileIntentEntry, old: Seq<FileIntentEntry>, h: Seq<u8>) -> bool {
    e.sha1@ == h && !spec_has_path(old, e.path@)
}

/// How many of the first `k` old entries lost hash `h` from their path.
pub open spec fn spec_cnt_lost(
    old: Seq<FileIntentEntry>,
    new: Seq<FileIntentEntry>,
    h: Seq<u8>,
    k: int,
) -> int
    decreases k,
{
    if k <= 0 || k > old.len() {
        0
    } else {
        spec_cnt_lost(old, new, h, k - 1) + if spec_lost(old[k - 1], new, h) {
            1int
        } else {
            0int
        }
    }
}

/// How many of the first `k` new entries gained hash `h` at a fresh path.
pub open spec fn spec_cnt_gained(
    new: Seq<FileIntentEntry>,
    old: Seq<FileIntentEntry>,
    h: Seq<u8>,
    k: int,
) -> int
    decreases k,
{
    if k <= 0 || k > new.len() {
        0
    } else {
        spec_cnt_gained(new, old, h, k - 1) + if spec_gained(new[k - 1], old, h) {
            1int
        } else {
            0int
        }
    }
}

/// Hash `h` moved one-to-one: exactly one old path lost it and exactly one
/// new path gained it.
pub open spec fn spec_rename_sha(
    old: Seq<FileIntentEntry>,
    new: Seq<FileIntentEntry>,
    h: Seq<u8>,
) -> bool {
    spec_cnt_lost(old, new, h, old.len() as int) == 1 && spec_cnt_gained(
        new,
        old,
        h,
        new.len() as int,
    ) == 1
}

/// Tag sets differ in some direction.
pub open spec fn spec_tags_differ(a: Seq<Seq<u8>>, b: Seq<Seq<u8>>) -> bool {
    (exists|i: int| 0 <= i < b.len() && !crate::record::spec_has(a, #[trigger] b[i])) || (exists|
        i: int,
    |
        0 <= i < a.len() && !crate::record::spec_has(b, #[trigger] a[i]))
}

/// Non-content signals differ: language, role, module, line counts, or tags.
pub open spec fn spec_signals_changed(a: FileIntentEntry, b: FileIntentEntry) -> bool {
    ||| a.lang@ != b.lang@
    ||| a.role@ != b.role@
    ||| a.module@ != b.module@
    ||| a.lines_total != b.lines_total
    ||| a.lines_nonblank != b.lines_nonblank
    ||| spec_tags_differ(a.tags.deep_view(), b.tags.deep_view())
}

/// A path present in both generations counts as modified when its hash
/// changed, or when the hash is stable but the signals moved.
pub open spec fn spec_modified_pair(a: FileIntentEntry, b: FileIntentEntry) -> bool {
    a.sha1@ != b.sha1@ || spec_signals_changed(a, b)
}

/// A new entry is added when its path is fresh and its hash is not part of a
/// one-to-one rename.
pub open spec fn spec_is_added(
    old: Seq<FileIntentEntry>,
    new: Seq<FileIntentEntry>,
    e: FileIntentEntry,
) -> bool {
    !spec_has_path(old, e.path@) && !spec_rename_sha(old, new, e.sha1@)
}

/// An old entry is removed when its path is gone and its hash is not part of
/// a one-to-one rename.
pub open spec fn spec_is_removed(
    old: Seq<FileIntentEntry>,
    new: Seq<FileIntentEntry>,
    e: FileIntentEntry,
) -> bool {
    !spec_has_path(new, e.path@) && !spec_rename_sha(old, new, e.sha1@)
}

/// The brief fields match the entry.
pub open spec fn spec_brief_matches(b: FileBrief, e: FileIntentEntry) -> bool {
    &&& b.path@ == e.path@
    &&& b.sha1@ == e.sha1@
    &&& b.size == e.size
    &&& b.lang@ == e.lang@
    &&& b.role@ == e.role@
}

pub open spec fn spec_side_matches(s: DeltaSide, e: FileIntentEntry) -> bool {
    &&& s.sha1@ == e.sha1@
    &&& s.size == e.size
    &&& s.token_estimate == e.token_estimate
    &&& s.lang@ == e.lang@
    &&& s.role@ == e.role@
    &&& s.module@ == e.module@
    &&& s.lines_total == e.lines_total
    &&& s.lines_nonblank == e.lines_nonblank
    &&& s.tags.deep_view() == e.tags.deep_view()
}

/// The delta entry faithfully reports the modified pair `(a, b)`.
pub open spec fn spec_delta_matches(d: DeltaEntry, a: FileIntentEntry, b: FileIntentEntry) -> bool {
    &&& d.path@ == b.path@
    &&& spec_side_matches(d.before, a)
    &&& spec_side_matches(d.after, b)
    &&& d.size_delta == b.size - a.size
    &&& d.token_delta == b.token_estimate - a.token_estimate
    &&& d.lang_changed == (a.lang@ != b.lang@)
    &&& d.role_changed == (a.role@ != b.role@)
    &&& d.module_changed == (a.module@ != b.module@)
    &&& d.lines_total_delta == b.lines_total - a.lines_total
    &&& d.lines_nonblank_delta == b.lines_nonblank - a.lines_nonblank
    &&& spec_set_diff_ok(d.tags_added@.len() as int, d.tags_added.deep_view(), b.tags.deep_view(), a.tags.deep_view())
    &&& spec_set_diff_ok(d.tags_removed@.len() as int, d.tags_removed.deep_view(), a.tags.deep_view(), b.tags.deep_view())
}

/// `r` is a strictly sorted list holding exactly the strings of `from` that
/// are not in `minus`.
pub open spec fn spec_set_diff_ok(
    _len: int,
    r: Seq<Seq<u8>>,
    from: Seq<Seq<u8>>,
    minus: Seq<Seq<u8>>,
) -> bool {
    &&& (forall|i: int, j: int| 0 <= i < j < r.len() ==> spec_lex_lt(#[trigger] r[i], #[trigger] r[j]))
    &&& (forall|i: int|
        0 <= i < r.len() ==> crate::record::spec_has(from, #[trigger] r[i])
            && !crate::record::spec_has(minus, r[i]))
    &&& (forall|i: int|
        0 <= i < from.len() ==> (crate::record::spec_has(minus, #[trigger] from[i])
            || crate::record::spec_has(r, from[i])))
}

/// Number of the first `k` new entries whose path also exists in `old` with
/// no modification.
pub open spec fn spec_cnt_unchanged(
    old: Seq<FileIntentEntry>,
    new: Seq<FileIntentEntry>,
    k: int,
) -> int
    decreases k,
{
    if k <= 0 || k > new.len() {
        0
    } else {
        spec_cnt_unchanged(old, new, k - 1) + if exists|oi: int|
            0 <= oi < old.len() && (#[trigger] old[oi]).path@ == new[k - 1].path@
                && !spec_modified_pair(old[oi], new[k - 1]) {
            1int
        } else {
            0int
        }
    }
}

/// Index of the first entry with path `p`.
pub fn find_by_path(s: &Vec<FileIntentEntry>, p: &[u8]) -> (r: Option<usize>)
    ensures
        match r {
            Some(i) => i < s@.len() && s@[i as int].path@ == p@,
            None => !spec_has_path(s@, p@),
        },
{
    let mut i: usize = 0;
    while i < s.len()
        invariant
            i <= s@.len(),
            forall|j: int| 0 <= j < i ==> (#[trigger] s@[j]).path@ != p@,
        decreases s@.len() - i,
    {
        if eq_bytes(s[i].path.as_slice(), p) {
            return Some(i);
        }
        i = i + 1;
    }
    None
}

/// Count the old entries that lost hash `h`; also return one such index.
fn count_lost(old: &Vec<FileIntentEntry>, new: &Vec<FileIntentEntry>, h: &[u8]) -> (r: (
    usize,
    usize,
))
    ensures
        r.0 == spec_cnt_lost(old@, new@, h@, old@.len() as int),
        r.0 > 0 ==> r.1 < old@.len() && spec_lost(old@[r.1 as int], new@, h@),
{
    let mut cnt: usize = 0;
    let mut ix: usize = 0;
    let mut k: usize = 0;
    while k < old.len()
        invariant
            k <= old@.len(),
            cnt == spec_cnt_lost(old@, new@, h@, k as int),
            cnt <= k,
            cnt > 0 ==> ix < k && spec_lost(old@[ix as int], new@, h@),
        decreases old@.len() - k,
    {
        if eq_bytes(old[k].sha1.as_slice(), h) {
            match find_by_path(new, old[k].path.as_slice()) {
                Some(_) => (),
                None => {
                    cnt = cnt + 1;
                    ix = k;
                },
            }
        }
        k = k + 1;
    }
    (cnt, ix)
}

/// Count the new entries that gained hash `h`; also return one such index.
fn count_gained(new: &Vec<FileIntentEntry>, old: &Vec<FileIntentEntry>, h: &[u8]) -> (r: (
    usize,
    usize,
))
    ensures
        r.0 == spec_cnt_gained(new@, old@, h@, new@.len() as int),
        r.0 > 0 ==> r.1 < new@.len() && spec_gained(new@[r.1 as int], old@, h@),
{
    let mut cnt: usize = 0;
    let mut ix: usize = 0;
    let mut k: usize = 0;
    while k < new.len()
        invariant
            k <= new@.len(),
            cnt == spec_cnt_gained(new@, old@, h@, k as int),
            cnt <= k,
            cnt > 0 ==> ix < k && spec_gained(new@[ix as int], old@, h@),
        decreases new@.len() - k,
    {
        if eq_bytes(new[k].sha1.as_slice(), h) {
            match find_by_path(old, new[k].path.as_slice()) {
                Some(_) => (),
                None => {
                    cnt = cnt + 1;
                    ix = k;
                },
            }
        }
        k = k + 1;
    }
    (cnt, ix)
}

/// Copy a tag list.
fn copy_str_list(v: &Vec<Vec<u8>>) -> (r: Vec<Vec<u8>>)
    ensures
        r.deep_view() == v.deep_view(),
{
    let mut out: Vec<Vec<u8>> = Vec::new();
    let mut i: usize = 0;
    while i < v.len()
        invariant
            i <= v@.len(),
            v.deep_view().len() == v@.len(),
            out.deep_view() == v.deep_view().take(i as int),
        decreases v@.len() - i,
    {
        let c = copy_bytes(v[i].as_slice());
        let ghost cv = c@;
        let ghost prev = out.deep_view();
        out.push(c);
        proof {
            assert(v.deep_view()[i as int] == v@[i as int]@);
            assert(out.deep_view() =~~= prev.push(cv));
            assert(prev.push(cv) =~= v.deep_view().take(i + 1));
        }
        i = i + 1;
    }
    proof {
        assert(v.deep_view().take(v@.len() as int) =~= v.deep_view());
    }
    out
}

/// Strictly sorted list of the strings of `from` that are not in `minus`.
pub fn tags_diff(from: &Vec<Vec<u8>>, minus: &Vec<Vec<u8>>) -> (r: Vec<Vec<u8>>)
    ensures
        spec_set_diff_ok(r@.len() as int, r.deep_view(), from.deep_view(), minus.deep_view()),
{
    let mut out: Vec<Vec<u8>> = Vec::new();
    let mut i: usize = 0;
    while i < from.len()
        invariant
            i <= from@.len(),
            from.deep_view().len() == from@.len(),
            forall|a: int, b: int|
                0 <= a < b < out.deep_view().len() ==> spec_lex_lt(
                    #[trigger] out.deep_view()[a],
                    #[trigger] out.deep_view()[b],
                ),
            forall|a: int|
                0 <= a < out.deep_view().len() ==> crate::record::spec_has(
                    from.deep_view(),
                    #[trigger] out.deep_view()[a],
                ) && !crate::record::spec_has(minus.deep_view(), out.deep_view()[a]),
            forall|a: int|
                0 <= a < i ==> (crate::record::spec_has(
                    minus.deep_view(),
                    #[trigger] from.deep_view()[a],
                ) || crate::record::spec_has(out.deep_view(), from.deep_view()[a])),
        decreases from@.len() - i,
    {
        proof {
            assert(from.deep_view()[i as int] == from@[i as int]@);
        }
        let t = from[i].as_slice();
        if !crate::record::has_item(minus, t) && !crate::record::has_item(&out, t) {
            let item = copy_bytes(t);
            let ghost iv = item@;
            let ghost outv = out.deep_view();
            // find the sorted insertion point
            let mut pos: usize = 0;
            while pos < out.len() && lex_lt(out[pos].as_slice(), t)
                invariant
                    pos <= out@.len(),
                    outv == out.deep_view(),
                    outv.len() == out@.len(),
                    iv == item@,
                    item@ == t@,
                    forall|a: int| 0 <= a < pos ==> spec_lex_lt(#[trigger] outv[a], iv),
                decreases out@.len() - pos,
            {
                proof {
                    assert(outv[pos as int] == out@[pos as int]@);
                }
                pos = pos + 1;
            }
            proof {
                if pos < out@.len() {
                    assert(outv[pos as int] == out@[pos as int]@);
                    lemma_lex_trichotomy(outv[pos as int], iv);
                    assert(!crate::record::spec_has(outv, iv));
                    assert(outv[pos as int] != iv);
                    assert(spec_lex_lt(iv, outv[pos as int]));
                }
            }
            out.insert(pos, item);
            proof {
                assert(out.deep_view() =~~= outv.insert(pos as int, iv));
                let nv = out.deep_view();
                assert forall|b: int| pos < b < nv.len() implies spec_lex_lt(
                    iv,
                    #[trigger] nv[b],
                ) by {
                    assert(nv[b] == outv[b - 1]);
                    if b - 1 > pos {
                        assert(spec_lex_lt(outv[pos as int], outv[b - 1]));
                        crate::text::lemma_lex_transitive(iv, outv[pos as int], outv[b - 1]);
                    }
                }
                assert forall|a: int, b: int| 0 <= a < b < nv.len() implies spec_lex_lt(
                    #[trigger] nv[a],
                    #[trigger] nv[b],
                ) by {
                    if b < pos {
                        assert(nv[a] == outv[a] && nv[b] == outv[b]);
                    } else if b == pos {
                        assert(nv[a] == outv[a]);
                    } else if a == pos {
                        assert(spec_lex_lt(iv, nv[b]));
                    } else if a < pos {
                        assert(nv[a] == outv[a]);
                        assert(spec_lex_lt(iv, nv[b]));
                        crate::text::lemma_lex_transitive(nv[a], iv, nv[b]);
                    } else {
                        assert(nv[a] == outv[a - 1] && nv[b] == outv[b - 1]);
                    }
                }
                assert forall|a: int| 0 <= a < nv.len() implies crate::record::spec_has(
                    from.deep_view(),
                    #[trigger] nv[a],
                ) && !crate::record::spec_has(minus.deep_view(), nv[a]) by {
                    if a == pos {
                        assert(nv[a] == from.deep_view()[i as int]);
                    } else if a < pos {
                        assert(nv[a] == outv[a]);
                    } else {
                        assert(nv[a] == outv[a - 1]);
                    }
                }
                assert forall|a: int|
                    0 <= a < i + 1 implies (crate::record::spec_has(
                    minus.deep_view(),
                    #[trigger] from.deep_view()[a],
                ) || crate::record::spec_has(nv, from.deep_view()[a])) by {
                    if a == i {
                        assert(nv[pos as int] == iv);
                    } else if !crate::record::spec_has(minus.deep_view(), from.deep_view()[a])
                        && crate::record::spec_has(outv, from.deep_view()[a]) {
                        let k = choose|k: int|
                            0 <= k < outv.len() && outv[k] == from.deep_view()[a];
                        if k < pos {
                            assert(nv[k] == outv[k]);
                        } else {
                            assert(nv[k + 1] == outv[k]);
                        }
                    }
                }
            }
        }
        i = i + 1;
    }
    proof {
        assert(from.deep_view().len() == from@.len());
    }
    out
}

/// Whether the non-content signals of `a` and `b` differ.
pub fn signals_changed(a: &FileIntentEntry, b: &FileIntentEntry) -> (r: bool)
    ensures
        r == spec_signals_changed(*a, *b),
{
    if !eq_bytes(a.lang.as_slice(), b.lang.as_slice()) {
        return true;
    }
    if !eq_bytes(a.role.as_slice(), b.role.as_slice()) {
        return true;
    }
    if !eq_bytes(a.module.as_slice(), b.module.as_slice()) {
        return true;
    }
    if a.lines_total != b.lines_total || a.lines_nonblank != b.lines_nonblank {
        return true;
    }
    let mut i: usize = 0;
    while i < b.tags.len()
        invariant
            i <= b.tags@.len(),
            b.tags.deep_view().len() == b.tags@.len(),
            forall|j: int|
                0 <= j < i ==> crate::record::spec_has(
                    a.tags.deep_view(),
                    #[trigger] b.tags.deep_view()[j],
                ),
        decreases b.tags@.len() - i,
    {
        proof {
            assert(b.tags.deep_view()[i as int] == b.tags@[i as int]@);
        }
        if !crate::record::has_item(&a.tags, b.tags[i].as_slice()) {
            return true;
        }
        i = i + 1;
    }
    let mut j: usize = 0;
    while j < a.tags.len()
        invariant
            j <= a.tags@.len(),
            a.tags.deep_view().len() == a.tags@.len(),
            forall|k: int|
                0 <= k < j ==> crate::record::spec_has(
                    b.tags.deep_view(),
                    #[trigger] a.tags.deep_view()[k],
                ),
            forall|k: int|
                0 <= k < b.tags.deep_view().len() ==> crate::record::spec_has(
                    a.tags.deep_view(),
                    #[trigger] b.tags.deep_view()[k],
                ),
            a.lang@ == b.lang@,
            a.role@ == b.role@,
            a.module@ == b.module@,
            a.lines_total == b.lines_total,
            a.lines_nonblank == b.lines_nonblank,
        decreases a.tags@.len() - j,
    {
        proof {
            assert(a.tags.deep_view()[j as int] == a.tags@[j as int]@);
        }
        if !crate::record::has_item(&b.tags, a.tags[j].as_slice()) {
            return true;
        }
        j = j + 1;
    }
    false
}

fn make_brief(e: &FileIntentEntry) -> (r: FileBrief)
    ensures
        spec_brief_matches(r, *e),
{
    FileBrief {
        path: copy_bytes(e.path.as_slice()),
        sha1: copy_bytes(e.sha1.as_slice()),
        size: e.size,
        lang: copy_bytes(e.lang.as_slice()),
        role: copy_bytes(e.role.as_slice()),
    }
}

fn make_side(e: &FileIntentEntry) -> (r: DeltaSide)
    ensures
        spec_side_matches(r, *e),
{
    DeltaSide {
        sha1: copy_bytes(e.sha1.as_slice()),
        size: e.size,
        token_estimate: e.token_estimate,
        lang: copy_bytes(e.lang.as_slice()),
        role: copy_bytes(e.role.as_slice()),
        module: copy_bytes(e.module.as_slice()),
        lines_total: e.lines_total,
        lines_nonblank: e.lines_nonblank,
        tags: copy_str_list(&e.tags),
    }
}

/// Focused payload for one modified path.
fn make_delta(before: &FileIntentEntry, after: &FileIntentEntry) -> (r: DeltaEntry)
    ensures
        spec_delta_matches(r, *before, *after),
{
    let lang_changed = !eq_bytes(before.lang.as_slice(), after.lang.as_slice());
    let role_changed = !eq_bytes(before.role.as_slice(), after.role.as_slice());
    let module_changed = !eq_bytes(before.module.as_slice(), after.module.as_slice());
    DeltaEntry {
        path: copy_bytes(after.path.as_slice()),
        before: make_side(before),
        after: make_side(after),
        size_delta: (after.size as i128) - (before.size as i128),
        token_delta: (after.token_estimate as i128) - (before.token_estimate as i128),
        lang_changed,
        role_changed,
        module_changed,
        lines_total_delta: (after.lines_total as i128) - (before.lines_total as i128),
        lines_nonblank_delta: (after.lines_nonblank as i128) - (before.lines_nonblank as i128),
        tags_added: tags_diff(&after.tags, &before.tags),
        tags_removed: tags_diff(&before.tags, &after.tags),
    }
}

/// Some old entry lost the pair's hash at `from` and some new entry gained it
/// at `to`, and the hash moved one-to-one.
pub open spec fn spec_pair_witness(
    old: Seq<FileIntentEntry>,
    new: Seq<FileIntentEntry>,
    p: RenamePair,
) -> bool {
    exists|oi: int, ni: int|
        {
            &&& 0 <= oi < old.len()
            &&& 0 <= ni < new.len()
            &&& spec_lost(#[trigger] old[oi], new, p.sha1@)
            &&& spec_gained(#[trigger] new[ni], old, p.sha1@)
            &&& p.from@ == old[oi].path@
            &&& p.to@ == new[ni].path@
            &&& p.size == new[ni].size
            &&& spec_rename_sha(old, new, p.sha1@)
        }
}

/// Insert a brief into a path-sorted list, keeping the order strict.
fn insert_brief_sorted(v: &mut Vec<FileBrief>, b: FileBrief)
    requires
        forall|x: int, y: int|
            0 <= x < y < old(v)@.len() ==> spec_lex_lt(
                (#[trigger] old(v)@[x]).path@,
                (#[trigger] old(v)@[y]).path@,
            ),
        forall|x: int| 0 <= x < old(v)@.len() ==> (#[trigger] old(v)@[x]).path@ != b.path@,
    ensures
        final(v)@.len() == old(v)@.len() + 1,
        forall|x: int, y: int|
            0 <= x < y < final(v)@.len() ==> spec_lex_lt(
                (#[trigger] final(v)@[x]).path@,
                (#[trigger] final(v)@[y]).path@,
            ),
        forall|k: int|
            0 <= k < old(v)@.len() ==> exists|k2: int|
                0 <= k2 < final(v)@.len() && (#[trigger] final(v)@[k2]) == (#[trigger] old(v)@[k]),
        exists|k2: int| 0 <= k2 < final(v)@.len() && (#[trigger] final(v)@[k2]) == b,
        forall|k2: int|
            0 <= k2 < final(v)@.len() ==> (#[trigger] final(v)@[k2]) == b || exists|k: int|
                0 <= k < old(v)@.len() && (#[trigger] old(v)@[k]) == final(v)@[k2],
{
    let ghost outv = old(v)@;
    let mut pos: usize = 0;
    while pos < v.len() && lex_lt(v[pos].path.as_slice(), b.path.as_slice())
        invariant
            pos <= v@.len(),
            v@ == outv,
            forall|x: int| 0 <= x < pos ==> spec_lex_lt((#[trigger] outv[x]).path@, b.path@),
        decreases v@.len() - pos,
    {
        pos = pos + 1;
    }
    proof {
        if pos < outv.len() {
            lemma_lex_trichotomy(outv[pos as int].path@, b.path@);
        }
    }
    v.insert(pos, b);
    proof {
        let nv = v@;
        assert(nv =~= outv.insert(pos as int, b));
        assert forall|y: int| pos < y < nv.len() implies spec_lex_lt(
            b.path@,
            (#[trigger] nv[y]).path@,
        ) by {
            assert(nv[y] == outv[y - 1]);
            if y - 1 > pos {
                assert(spec_lex_lt(outv[pos as int].path@, outv[y - 1].path@));
                crate::text::lemma_lex_transitive(
                    b.path@,
                    outv[pos as int].path@,
                    outv[y - 1].path@,
                );
            }
        }
        assert forall|x: int, y: int| 0 <= x < y < nv.len() implies spec_lex_lt(
            (#[trigger] nv[x]).path@,
            (#[trigger] nv[y]).path@,
        ) by {
            if y < pos {
                assert(nv[x] == outv[x] && nv[y] == outv[y]);
            } else if y == pos {
                assert(nv[x] == outv[x]);
            } else if x == pos {
                assert(spec_lex_lt(b.path@, nv[y].path@));
            } else if x < pos {
                assert(nv[x] == outv[x]);
                assert(spec_lex_lt(nv[x].path@, b.path@));
                assert(spec_lex_lt(b.path@, nv[y].path@));
                crate::text::lemma_lex_transitive(nv[x].path@, b.path@, nv[y].path@);
            } else {
                assert(nv[x] == outv[x - 1] && nv[y] == outv[y - 1]);
            }
        }
        assert forall|k: int| 0 <= k < outv.len() implies exists|k2: int|
            0 <= k2 < nv.len() && (#[trigger] nv[k2]) == (#[trigger] outv[k]) by {
            if k < pos {
                assert(nv[k] == outv[k]);
            } else {
                assert(nv[k + 1] == outv[k]);
            }
        }
        assert(nv[pos as int] == b);
    }
}

/// Insert a delta entry into a path-sorted list, keeping the order strict.
fn insert_delta_sorted(v: &mut Vec<DeltaEntry>, b: DeltaEntry)
    requires
        forall|x: int, y: int|
            0 <= x < y < old(v)@.len() ==> spec_lex_lt(
                (#[trigger] old(v)@[x]).path@,
                (#[trigger] old(v)@[y]).path@,
            ),
        forall|x: int| 0 <= x < old(v)@.len() ==> (#[trigger] old(v)@[x]).path@ != b.path@,
    ensures
        final(v)@.len() == old(v)@.len() + 1,
        forall|x: int, y: int|
            0 <= x < y < final(v)@.len() ==> spec_lex_lt(
                (#[trigger] final(v)@[x]).path@,
                (#[trigger] final(v)@[y]).path@,
            ),
        forall|k: int|
            0 <= k < old(v)@.len() ==> exists|k2: int|
                0 <= k2 < final(v)@.len() && (#[trigger] final(v)@[k2]) == (#[trigger] old(v)@[k]),
        exists|k2: int| 0 <= k2 < final(v)@.len() && (#[trigger] final(v)@[k2]) == b,
        forall|k2: int|
            0 <= k2 < final(v)@.len() ==> (#[trigger] final(v)@[k2]) == b || exists|k: int|
                0 <= k < old(v)@.len() && (#[trigger] old(v)@[k]) == final(v)@[k2],
{
    let ghost outv = old(v)@;
    let mut pos: usize = 0;
    while pos < v.len() && lex_lt(v[pos].path.as_slice(), b.path.as_slice())
        invariant
            pos <= v@.len(),
            v@ == outv,
            forall|x: int| 0 <= x < pos ==> spec_lex_lt((#[trigger] outv[x]).path@, b.path@),
        decreases v@.len() - pos,
    {
        pos = pos + 1;
    }
    proof {
        if pos < outv.len() {
            lemma_lex_trichotomy(outv[pos as int].path@, b.path@);
        }
    }
    v.insert(pos, b);
    proof {
        let nv = v@;
        assert(nv =~= outv.insert(pos as int, b));
        assert forall|y: int| pos < y < nv.len() implies spec_lex_lt(
            b.path@,
            (#[trigger] nv[y]).path@,
        ) by {
            assert(nv[y] == outv[y - 1]);
            if y - 1 > pos {
                assert(spec_lex_lt(outv[pos as int].path@, outv[y - 1].path@));
                crate::text::lemma_lex_transitive(
                    b.path@,
                    outv[pos as int].path@,
                    outv[y - 1].path@,
                );
            }
        }
        assert forall|x: int, y: int| 0 <= x < y < nv.len() implies spec_lex_lt(
            (#[trigger] nv[x]).path@,
            (#[trigger] nv[y]).path@,
        ) by {
            if y < pos {
                assert(nv[x] == outv[x] && nv[y] == outv[y]);
            } else if y == pos {
                assert(nv[x] == outv[x]);
            } else if x == pos {
                assert(spec_lex_lt(b.path@, nv[y].path@));
            } else if x < pos {
                assert(nv[x] == outv[x]);
                assert(spec_lex_lt(nv[x].path@, b.path@));
                assert(spec_lex_lt(b.path@, nv[y].path@));
                crate::text::lemma_lex_transitive(nv[x].path@, b.path@, nv[y].path@);
            } else {
                assert(nv[x] == outv[x - 1] && nv[y] == outv[y - 1]);
            }
        }
        assert forall|k: int| 0 <= k < outv.len() implies exists|k2: int|
            0 <= k2 < nv.len() && (#[trigger] nv[k2]) == (#[trigger] outv[k]) by {
            if k < pos {
                assert(nv[k] == outv[k]);
            } else {
                assert(nv[k + 1] == outv[k]);
            }
        }
        assert(nv[pos as int] == b);
    }
}

/// Insert a rename pair into a list sorted by source path.
fn insert_pair_sorted(v: &mut Vec<RenamePair>, b: RenamePair)
    requires
        forall|x: int, y: int|
            0 <= x < y < old(v)@.len() ==> spec_lex_lt(
                (#[trigger] old(v)@[x]).from@,
                (#[trigger] old(v)@[y]).from@,
            ),
        forall|x: int| 0 <= x < old(v)@.len() ==> (#[trigger] old(v)@[x]).from@ != b.from@,
    ensures
        final(v)@.len() == old(v)@.len() + 1,
        forall|x: int, y: int|
            0 <= x < y < final(v)@.len() ==> spec_lex_lt(
                (#[trigger] final(v)@[x]).from@,
                (#[trigger] final(v)@[y]).from@,
            ),
        forall|k: int|
            0 <= k < old(v)@.len() ==> exists|k2: int|
                0 <= k2 < final(v)@.len() && (#[trigger] final(v)@[k2]) == (#[trigger] old(v)@[k]),
        exists|k2: int| 0 <= k2 < final(v)@.len() && (#[trigger] final(v)@[k2]) == b,
        forall|k2: int|
            0 <= k2 < final(v)@.len() ==> (#[trigger] final(v)@[k2]) == b || exists|k: int|
                0 <= k < old(v)@.len() && (#[trigger] old(v)@[k]) == final(v)@[k2],
{
    let ghost outv = old(v)@;
    let mut pos: usize = 0;
    while pos < v.len() && lex_lt(v[pos].from.as_slice(), b.from.as_slice())
        invariant
            pos <= v@.len(),
            v@ == outv,
            forall|x: int| 0 <= x < pos ==> spec_lex_lt((#[trigger] outv[x]).from@, b.from@),
        decreases v@.len() - pos,
    {
        pos = pos + 1;
    }
    proof {
        if pos < outv.len() {
            lemma_lex_trichotomy(outv[pos as int].from@, b.from@);
        }
    }
    v.insert(pos, b);
    proof {
        let nv = v@;
        assert(nv =~= outv.insert(pos as int, b));
        assert forall|y: int| pos < y < nv.len() implies spec_lex_lt(
            b.from@,
            (#[trigger] nv[y]).from@,
        ) by {
            assert(nv[y] == outv[y - 1]);
            if y - 1 > pos {
                assert(spec_lex_lt(outv[pos as int].from@, outv[y - 1].from@));
                crate::text::lemma_lex_transitive(
                    b.from@,
                    outv[pos as int].from@,
                    outv[y - 1].from@,
                );
            }
        }
        assert forall|x: int, y: int| 0 <= x < y < nv.len() implies spec_lex_lt(
            (#[trigger] nv[x]).from@,
            (#[trigger] nv[y]).from@,
        ) by {
            if y < pos {
                assert(nv[x] == outv[x] && nv[y] == outv[y]);
            } else if y == pos {
                assert(nv[x] == outv[x]);
            } else if x == pos {
                assert(spec_lex_lt(b.from@, nv[y].from@));
            } else if x < pos {
                assert(nv[x] == outv[x]);
                assert(spec_lex_lt(nv[x].from@, b.from@));
                assert(spec_lex_lt(b.from@, nv[y].from@));
                crate::text::lemma_lex_transitive(nv[x].from@, b.from@, nv[y].from@);
            } else {
                assert(nv[x] == outv[x - 1] && nv[y] == outv[y - 1]);
            }
        }
        assert forall|k: int| 0 <= k < outv.len() implies exists|k2: int|
            0 <= k2 < nv.len() && (#[trigger] nv[k2]) == (#[trigger] outv[k]) by {
            if k < pos {
                assert(nv[k] == outv[k]);
            } else {
                assert(nv[k + 1] == outv[k]);
            }
        }
        assert(nv[pos as int] == b);
    }
}

} // verus!

verus! {

/// The added/removed brief lists are strictly path-sorted.
pub open spec fn spec_briefs_sorted(s: Seq<FileBrief>) -> bool {
    forall|x: int, y: int|
        0 <= x < y < s.len() ==> spec_lex_lt((#[trigger] s[x]).path@, (#[trigger] s[y]).path@)
}

pub open spec fn spec_deltas_sorted(s: Seq<DeltaEntry>) -> bool {
    forall|x: int, y: int|
        0 <= x < y < s.len() ==> spec_lex_lt((#[trigger] s[x]).path@, (#[trigger] s[y]).path@)
}

pub open spec fn spec_pairs_sorted(s: Seq<RenamePair>) -> bool {
    forall|x: int, y: int|
        0 <= x < y < s.len() ==> spec_lex_lt((#[trigger] s[x]).from@, (#[trigger] s[y]).from@)
}

/// The pair's hash occurs among the first `ni` new entries.
pub open spec fn spec_pair_sha_seen(nv: Seq<FileIntentEntry>, p: RenamePair, ni: int) -> bool {
    exists|k: int| 0 <= k < ni && (#[trigger] nv[k]).sha1@ == p.sha1@
}

/// Every collected pair's hash occurs among the first `ni` new entries.
pub open spec fn spec_sha_seen(
    nv: Seq<FileIntentEntry>,
    rs: Seq<RenamePair>,
    ni: int,
) -> bool {
    forall|x: int| 0 <= x < rs.len() ==> spec_pair_sha_seen(nv, #[trigger] rs[x], ni)
}

/// Some collected pair references the hash `h`.
pub open spec fn spec_some_pair_sha(rs: Seq<RenamePair>, h: Seq<u8>) -> bool {
    exists|x: int| 0 <= x < rs.len() && (#[trigger] rs[x]).sha1@ == h
}

/// Every one-to-one hash among the first `ni` new entries has a pair.
pub open spec fn spec_renames_complete(
    ov: Seq<FileIntentEntry>,
    nv: Seq<FileIntentEntry>,
    rs: Seq<RenamePair>,
    ni: int,
) -> bool {
    forall|k: int|
        0 <= k < ni && spec_rename_sha(ov, nv, (#[trigger] nv[k]).sha1@) ==> spec_some_pair_sha(
            rs,
            nv[k].sha1@,
        )
}

pub open spec fn spec_pairs_witnessed(
    ov: Seq<FileIntentEntry>,
    nv: Seq<FileIntentEntry>,
    rs: Seq<RenamePair>,
) -> bool {
    forall|x: int| 0 <= x < rs.len() ==> spec_pair_witness(ov, nv, #[trigger] rs[x])
}

/// The brief reports one of the first `k` new entries as added.
pub open spec fn spec_brief_added_of(
    ov: Seq<FileIntentEntry>,
    nv: Seq<FileIntentEntry>,
    b: FileBrief,
    k: int,
) -> bool {
    exists|k2: int|
        0 <= k2 < k && spec_is_added(ov, nv, #[trigger] nv[k2]) && spec_brief_matches(b, nv[k2])
}

/// Every collected brief reports one of the first `k` new entries as added.
pub open spec fn spec_added_sound(
    ov: Seq<FileIntentEntry>,
    nv: Seq<FileIntentEntry>,
    s: Seq<FileBrief>,
    k: int,
) -> bool {
    forall|x: int| 0 <= x < s.len() ==> spec_brief_added_of(ov, nv, #[trigger] s[x], k)
}

/// Some collected brief matches the entry.
pub open spec fn spec_some_brief_matches(s: Seq<FileBrief>, e: FileIntentEntry) -> bool {
    exists|x: int| 0 <= x < s.len() && spec_brief_matches(#[trigger] s[x], e)
}

/// Every added entry among the first `k` new entries has a brief.
pub open spec fn spec_added_complete(
    ov: Seq<FileIntentEntry>,
    nv: Seq<FileIntentEntry>,
    s: Seq<FileBrief>,
    k: int,
) -> bool {
    forall|k2: int|
        0 <= k2 < k && spec_is_added(ov, nv, #[trigger] nv[k2]) ==> spec_some_brief_matches(
            s,
            nv[k2],
        )
}

/// The brief reports one of the first `o` old entries as removed.
pub open spec fn spec_brief_removed_of(
    ov: Seq<FileIntentEntry>,
    nv: Seq<FileIntentEntry>,
    b: FileBrief,
    o: int,
) -> bool {
    exists|k2: int|
        0 <= k2 < o && spec_is_removed(ov, nv, #[trigger] ov[k2]) && spec_brief_matches(b, ov[k2])
}

/// Every collected brief reports one of the first `o` old entries as removed.
pub open spec fn spec_removed_sound(
    ov: Seq<FileIntentEntry>,
    nv: Seq<FileIntentEntry>,
    s: Seq<FileBrief>,
    o: int,
) -> bool {
    forall|x: int| 0 <= x < s.len() ==> spec_brief_removed_of(ov, nv, #[trigger] s[x], o)
}

/// Every removed entry among the first `o` old entries has a brief.
pub open spec fn spec_removed_complete(
    ov: Seq<FileIntentEntry>,
    nv: Seq<FileIntentEntry>,
    s: Seq<FileBrief>,
    o: int,
) -> bool {
    forall|k2: int|
        0 <= k2 < o && spec_is_removed(ov, nv, #[trigger] ov[k2]) ==> spec_some_brief_matches(
            s,
            ov[k2],
        )
}

/// The delta reports a genuinely modified common path among the first `k`
/// new entries.
pub open spec fn spec_delta_of(
    ov: Seq<FileIntentEntry>,
    nv: Seq<FileIntentEntry>,
    d: DeltaEntry,
    k: int,
) -> bool {
    exists|oi: int, ni: int|
        0 <= oi < ov.len() && 0 <= ni < k && (#[trigger] ov[oi]).path@ == (#[trigger] nv[ni]).path@
            && spec_modified_pair(ov[oi], nv[ni]) && spec_delta_matches(d, ov[oi], nv[ni])
}

/// Every collected delta reports a genuinely modified common path among the
/// first `k` new entries.
pub open spec fn spec_modified_sound(
    ov: Seq<FileIntentEntry>,
    nv: Seq<FileIntentEntry>,
    s: Seq<DeltaEntry>,
    k: int,
) -> bool {
    forall|x: int| 0 <= x < s.len() ==> spec_delta_of(ov, nv, #[trigger] s[x], k)
}

/// Some collected delta carries the path.
pub open spec fn spec_some_delta_path(s: Seq<DeltaEntry>, p: Seq<u8>) -> bool {
    exists|x: int| 0 <= x < s.len() && (#[trigger] s[x]).path@ == p
}

/// Every modified common path among the first `k` new entries has a delta.
pub open spec fn spec_modified_complete(
    ov: Seq<FileIntentEntry>,
    nv: Seq<FileIntentEntry>,
    s: Seq<DeltaEntry>,
    k: int,
) -> bool {
    forall|oi: int, ni: int|
        0 <= oi < ov.len() && 0 <= ni < k && (#[trigger] ov[oi]).path@ == (#[trigger] nv[ni]).path@
            && spec_modified_pair(ov[oi], nv[ni]) ==> spec_some_delta_path(s, nv[ni].path@)
}

/// Compute the structured diff between an old and a new snapshot.
///
/// Added, removed, and modified entries come out strictly path-sorted; rename
/// pairs come out sorted by source path, one pair at most per content hash.
/// A path present in both snapshots with an unchanged hash and unchanged
/// signals is only counted, in `summary.unchanged`.
#[verifier::rlimit(100)]
pub fn diff_indexes(old: &Vec<FileIntentEntry>, new: &Vec<FileIntentEntry>) -> (r: DiffReport)
    requires
        spec_unique_paths(old@),
        spec_unique_paths(new@),
    ensures
        r.version == 2,
        r.summary.total_old == old@.len(),
        r.summary.total_new == new@.len(),
        r.summary.added == r.added@.len(),
        r.summary.removed == r.removed@.len(),
        r.summary.modified == r.modified@.len(),
        r.summary.renamed == r.renamed@.len(),
        r.summary.unchanged == spec_cnt_unchanged(old@, new@, new@.len() as int),
        spec_pairs_sorted(r.renamed@),
        forall|x: int, y: int|
            0 <= x < y < r.renamed@.len() ==> (#[trigger] r.renamed@[x]).sha1@
                != (#[trigger] r.renamed@[y]).sha1@,
        spec_pairs_witnessed(old@, new@, r.renamed@),
        spec_renames_complete(old@, new@, r.renamed@, new@.len() as int),
        spec_briefs_sorted(r.added@),
        spec_added_sound(old@, new@, r.added@, new@.len() as int),
        spec_added_complete(old@, new@, r.added@, new@.len() as int),
        spec_briefs_sorted(r.removed@),
        spec_removed_sound(old@, new@, r.removed@, old@.len() as int),
        spec_removed_complete(old@, new@, r.removed@, old@.len() as int),
        spec_deltas_sorted(r.modified@),
        spec_modified_sound(old@, new@, r.modified@, new@.len() as int),
        spec_modified_complete(old@, new@, r.modified@, new@.len() as int),
{
    let ghost ov = old@;
    let ghost nv = new@;

    // --- renames: one-to-one hash moves, one pair per hash -----------------
    let mut renamed: Vec<RenamePair> = Vec::new();
    let mut ni: usize = 0;
    while ni < new.len()
        invariant
            ni <= nv.len(),
            old@ == ov,
            new@ == nv,
            spec_unique_paths(ov),
            spec_unique_paths(nv),
            spec_pairs_sorted(renamed@),
            spec_pairs_witnessed(ov, nv, renamed@),
            spec_sha_seen(nv, renamed@, ni as int),
            spec_renames_complete(ov, nv, renamed@, ni as int),
        decreases nv.len() - ni,
    {
        let h = new[ni].sha1.as_slice();
        // handle each hash once: skip entries whose hash occurred earlier
        let mut dup = false;
        let mut j: usize = 0;
        while j < ni
            invariant
                j <= ni < nv.len(),
                new@ == nv,
                h@ == nv[ni as int].sha1@,
                dup ==> exists|k: int| 0 <= k < ni && (#[trigger] nv[k]).sha1@ == h@,
                !dup ==> forall|k: int| 0 <= k < j ==> (#[trigger] nv[k]).sha1@ != h@,
            decreases ni - j,
        {
            if eq_bytes(new[j].sha1.as_slice(), h) {
                dup = true;
                j = ni;
            } else {
                j = j + 1;
            }
        }
        if !dup {
            let (lost_n, lost_ix) = count_lost(old, new, h);
            let (gain_n, gain_ix) = count_gained(new, old, h);
            if lost_n == 1 && gain_n == 1 {
                proof {
                    assert(spec_rename_sha(ov, nv, h@));
                }
                let pair = RenamePair {
                    from: copy_bytes(old[lost_ix].path.as_slice()),
                    to: copy_bytes(new[gain_ix].path.as_slice()),
                    sha1: copy_bytes(h),
                    size: new[gain_ix].size,
                };
                let ghost prev = renamed@;
                proof {
                    assert(spec_pair_witness(ov, nv, pair)) by {
                        assert(spec_lost(ov[lost_ix as int], nv, pair.sha1@));
                        assert(spec_gained(nv[gain_ix as int], ov, pair.sha1@));
                    }
                    lemma_new_from_distinct(ov, nv, prev, pair, ni as int, lost_ix as int);
                }
                insert_pair_sorted(&mut renamed, pair);
                proof {
                    assert forall|x: int| 0 <= x < renamed@.len() implies spec_pair_witness(
                        ov,
                        nv,
                        #[trigger] renamed@[x],
                    ) by {
                        if renamed@[x] != pair {
                            let x0 = choose|x0: int|
                                0 <= x0 < prev.len() && (#[trigger] prev[x0]) == renamed@[x];
                            assert(spec_pair_witness(ov, nv, prev[x0]));
                        }
                    }
                    assert forall|x: int| 0 <= x < renamed@.len() implies spec_pair_sha_seen(
                        nv,
                        #[trigger] renamed@[x],
                        ni + 1,
                    ) by {
                        if renamed@[x] == pair {
                            assert(nv[ni as int].sha1@ == renamed@[x].sha1@);
                        } else {
                            let x0 = choose|x0: int|
                                0 <= x0 < prev.len() && (#[trigger] prev[x0]) == renamed@[x];
                            assert(spec_pair_sha_seen(nv, prev[x0], ni as int));
                            let k0 = choose|k0: int|
                                0 <= k0 < ni && (#[trigger] nv[k0]).sha1@ == prev[x0].sha1@;
                            assert(nv[k0].sha1@ == renamed@[x].sha1@);
                        }
                    }
                    assert forall|k: int|
                        0 <= k < ni + 1 && spec_rename_sha(ov, nv, (#[trigger] nv[k]).sha1@)
                            implies spec_some_pair_sha(renamed@, nv[k].sha1@) by {
                        if k == ni {
                            let x0 = choose|x0: int|
                                0 <= x0 < renamed@.len() && (#[trigger] renamed@[x0]) == pair;
                            assert(renamed@[x0].sha1@ == nv[k].sha1@);
                        } else {
                            assert(spec_some_pair_sha(prev, nv[k].sha1@));
                            let x0 = choose|x0: int|
                                0 <= x0 < prev.len() && (#[trigger] prev[x0]).sha1@ == nv[k].sha1@;
                            let x1 = choose|x1: int|
                                0 <= x1 < renamed@.len() && (#[trigger] renamed@[x1]) == prev[x0];
                            assert(renamed@[x1].sha1@ == nv[k].sha1@);
                        }
                    }
                }
            } else {
                proof {
                    assert forall|k: int|
                        0 <= k < ni + 1 && spec_rename_sha(ov, nv, (#[trigger] nv[k]).sha1@)
                            implies spec_some_pair_sha(renamed@, nv[k].sha1@) by {
                        if k == ni {
                            assert(!spec_rename_sha(ov, nv, nv[k].sha1@));
                        }
                    }
                    assert forall|x: int| 0 <= x < renamed@.len() implies spec_pair_sha_seen(
                        nv,
                        #[trigger] renamed@[x],
                        ni + 1,
                    ) by {
                        assert(spec_pair_sha_seen(nv, renamed@[x], ni as int));
                        let k0 = choose|k0: int|
                            0 <= k0 < ni && (#[trigger] nv[k0]).sha1@ == renamed@[x].sha1@;
                        assert(0 <= k0 < ni + 1 && nv[k0].sha1@ == renamed@[x].sha1@);
                    }
                }
            }
        } else {
            proof {
                let kd = choose|kd: int| 0 <= kd < ni && (#[trigger] nv[kd]).sha1@ == h@;
                assert forall|k: int|
                    0 <= k < ni + 1 && spec_rename_sha(ov, nv, (#[trigger] nv[k]).sha1@)
                        implies spec_some_pair_sha(renamed@, nv[k].sha1@) by {
                    if k == ni {
                        assert(nv[kd].sha1@ == nv[k].sha1@);
                        assert(spec_rename_sha(ov, nv, nv[kd].sha1@));
                        assert(spec_some_pair_sha(renamed@, nv[kd].sha1@));
                    }
                }
                assert forall|x: int| 0 <= x < renamed@.len() implies spec_pair_sha_seen(
                    nv,
                    #[trigger] renamed@[x],
                    ni + 1,
                ) by {
                    assert(spec_pair_sha_seen(nv, renamed@[x], ni as int));
                    let k0 = choose|k0: int|
                        0 <= k0 < ni && (#[trigger] nv[k0]).sha1@ == renamed@[x].sha1@;
                    assert(0 <= k0 < ni + 1 && nv[k0].sha1@ == renamed@[x].sha1@);
                }
            }
        }
        ni = ni + 1;
    }
    proof {
        lemma_pairs_distinct_sha(ov, nv, renamed@);
    }

    // --- walk the new snapshot: added, modified, unchanged ------------------
    let mut added: Vec<FileBrief> = Vec::new();
    let mut modified: Vec<DeltaEntry> = Vec::new();
    let mut unchanged: usize = 0;
    let mut k: usize = 0;
    while k < new.len()
        invariant
            k <= nv.len(),
            old@ == ov,
            new@ == nv,
            spec_unique_paths(ov),
            spec_unique_paths(nv),
            unchanged == spec_cnt_unchanged(ov, nv, k as int),
            unchanged <= k,
            spec_briefs_sorted(added@),
            spec_added_sound(ov, nv, added@, k as int),
            spec_added_complete(ov, nv, added@, k as int),
            spec_deltas_sorted(modified@),
            spec_modified_sound(ov, nv, modified@, k as int),
            spec_modified_complete(ov, nv, modified@, k as int),
        decreases nv.len() - k,
    {
        let ne = &new[k];
        match find_by_path(old, ne.path.as_slice()) {
            None => {
                let (lost_n, _) = count_lost(old, new, ne.sha1.as_slice());
                let (gain_n, _) = count_gained(new, old, ne.sha1.as_slice());
                if !(lost_n == 1 && gain_n == 1) {
                    proof {
                        assert(spec_is_added(ov, nv, nv[k as int]));
                        // paths of collected briefs come from earlier entries
                        assert forall|x: int| 0 <= x < added@.len() implies (
                        #[trigger] added@[x]).path@ != nv[k as int].path@ by {
                            assert(spec_brief_added_of(ov, nv, added@[x], k as int));
                            let k2 = choose|k2: int|
                                0 <= k2 < k && spec_is_added(ov, nv, #[trigger] nv[k2])
                                    && spec_brief_matches(added@[x], nv[k2]);
                            assert(nv[k2].path@ != nv[k as int].path@);
                        }
                    }
                    let brief = make_brief(ne);
                    let ghost bb = brief;
                    let ghost prev = added@;
                    insert_brief_sorted(&mut added, brief);
                    proof {
                        assert forall|x: int| 0 <= x < added@.len() implies spec_brief_added_of(
                            ov,
                            nv,
                            #[trigger] added@[x],
                            k + 1,
                        ) by {
                            if added@[x] == bb {
                                assert(spec_is_added(ov, nv, nv[k as int]));
                                assert(spec_brief_matches(added@[x], nv[k as int]));
                            } else {
                                let x0 = choose|x0: int|
                                    0 <= x0 < prev.len() && (#[trigger] prev[x0]) == added@[x];
                                assert(spec_brief_added_of(ov, nv, prev[x0], k as int));
                                let k2 = choose|k2: int|
                                    0 <= k2 < k && spec_is_added(ov, nv, #[trigger] nv[k2])
                                        && spec_brief_matches(prev[x0], nv[k2]);
                                assert(spec_brief_matches(added@[x], nv[k2]));
                            }
                        }
                        assert forall|k2: int|
                            0 <= k2 < k + 1 && spec_is_added(ov, nv, #[trigger] nv[k2])
                                implies spec_some_brief_matches(added@, nv[k2]) by {
                            if k2 == k {
                                let x0 = choose|x0: int|
                                    0 <= x0 < added@.len() && (#[trigger] added@[x0]) == bb;
                                assert(spec_brief_matches(added@[x0], nv[k as int]));
                            } else {
                                assert(spec_some_brief_matches(prev, nv[k2]));
                                let x0 = choose|x0: int|
                                    0 <= x0 < prev.len() && spec_brief_matches(
                                        #[trigger] prev[x0],
                                        nv[k2],
                                    );
                                let x1 = choose|x1: int|
                                    0 <= x1 < added@.len() && (#[trigger] added@[x1]) == prev[x0];
                                assert(spec_brief_matches(added@[x1], nv[k2]));
                            }
                        }
                    }
                } else {
                    proof {
                        assert(spec_rename_sha(ov, nv, nv[k as int].sha1@));
                        assert(!spec_is_added(ov, nv, nv[k as int]));
                        lemma_added_sound_mono(ov, nv, added@, k as int, k + 1);
                        assert(spec_added_complete(ov, nv, added@, k + 1));
                    }
                }
                proof {
                    assert(!spec_has_path(ov, nv[k as int].path@));
                    assert(spec_cnt_unchanged(ov, nv, k + 1) == spec_cnt_unchanged(
                        ov,
                        nv,
                        k as int,
                    ));
                    lemma_modified_sound_mono(ov, nv, modified@, k as int, k + 1);
                    assert forall|o2: int, n2: int|
                        0 <= o2 < ov.len() && 0 <= n2 < k + 1 && (#[trigger] ov[o2]).path@ == (
                        #[trigger] nv[n2]).path@ && spec_modified_pair(ov[o2], nv[n2])
                            implies spec_some_delta_path(modified@, nv[n2].path@) by {
                        if n2 == k {
                            assert(spec_has_path(ov, nv[n2].path@));
                        }
                    }
                }
            },
            Some(oi) => {
                let same_sha = eq_bytes(old[oi].sha1.as_slice(), ne.sha1.as_slice());
                let sig = signals_changed(&old[oi], ne);
                proof {
                    // the matching old entry is unique, so the unchanged
                    // census is decided by this one pair
                    assert forall|o2: int|
                        0 <= o2 < ov.len() && (#[trigger] ov[o2]).path@ == nv[k as int].path@
                            implies o2 == oi as int by {
                        if o2 < oi as int {
                            assert(ov[o2].path@ != ov[oi as int].path@);
                        } else if o2 > oi as int {
                            assert(ov[oi as int].path@ != ov[o2].path@);
                        }
                    }
                    lemma_added_sound_mono(ov, nv, added@, k as int, k + 1);
                    assert forall|k2: int|
                        0 <= k2 < k + 1 && spec_is_added(ov, nv, #[trigger] nv[k2])
                            implies spec_some_brief_matches(added@, nv[k2]) by {
                        if k2 == k {
                            assert(spec_has_path(ov, nv[k as int].path@));
                            assert(!spec_is_added(ov, nv, nv[k2]));
                        }
                    }
                }
                if !same_sha || sig {
                    proof {
                        assert(spec_modified_pair(ov[oi as int], nv[k as int]));
                        assert forall|x: int| 0 <= x < modified@.len() implies (
                        #[trigger] modified@[x]).path@ != nv[k as int].path@ by {
                            assert(spec_delta_of(ov, nv, modified@[x], k as int));
                            let (o2, n2) = choose|o2: int, n2: int|
                                0 <= o2 < ov.len() && 0 <= n2 < k && (#[trigger] ov[o2]).path@ == (
                                #[trigger] nv[n2]).path@ && spec_modified_pair(ov[o2], nv[n2])
                                    && spec_delta_matches(modified@[x], ov[o2], nv[n2]);
                            assert(nv[n2].path@ != nv[k as int].path@);
                        }
                        assert(spec_cnt_unchanged(ov, nv, k + 1) == spec_cnt_unchanged(
                            ov,
                            nv,
                            k as int,
                        ));
                    }
                    let delta = make_delta(&old[oi], ne);
                    let ghost dd = delta;
                    let ghost prev = modified@;
                    insert_delta_sorted(&mut modified, delta);
                    proof {
                        assert forall|x: int| 0 <= x < modified@.len() implies spec_delta_of(
                            ov,
                            nv,
                            #[trigger] modified@[x],
                            k + 1,
                        ) by {
                            if modified@[x] == dd {
                                assert(spec_delta_matches(
                                    modified@[x],
                                    ov[oi as int],
                                    nv[k as int],
                                ));
                            } else {
                                let x0 = choose|x0: int|
                                    0 <= x0 < prev.len() && (#[trigger] prev[x0]) == modified@[x];
                                assert(spec_delta_of(ov, nv, prev[x0], k as int));
                                let (o2, n2) = choose|o2: int, n2: int|
                                    0 <= o2 < ov.len() && 0 <= n2 < k && (
                                    #[trigger] ov[o2]).path@ == (#[trigger] nv[n2]).path@
                                        && spec_modified_pair(ov[o2], nv[n2])
                                        && spec_delta_matches(prev[x0], ov[o2], nv[n2]);
                                assert(spec_delta_matches(modified@[x], ov[o2], nv[n2]));
                            }
                        }
                        assert forall|o2: int, n2: int|
                            0 <= o2 < ov.len() && 0 <= n2 < k + 1 && (#[trigger] ov[o2]).path@ == (
                            #[trigger] nv[n2]).path@ && spec_modified_pair(ov[o2], nv[n2])
                                implies spec_some_delta_path(modified@, nv[n2].path@) by {
                            if n2 == k {
                                let x0 = choose|x0: int|
                                    0 <= x0 < modified@.len() && (#[trigger] modified@[x0]) == dd;
                                assert(modified@[x0].path@ == nv[n2].path@);
                            } else {
                                assert(spec_some_delta_path(prev, nv[n2].path@));
                                let x0 = choose|x0: int|
                                    0 <= x0 < prev.len() && (#[trigger] prev[x0]).path@
                                        == nv[n2].path@;
                                let x1 = choose|x1: int|
                                    0 <= x1 < modified@.len() && (#[trigger] modified@[x1])
                                        == prev[x0];
                                assert(modified@[x1].path@ == nv[n2].path@);
                            }
                        }
                    }
                } else {
                    proof {
                        assert(!spec_modified_pair(ov[oi as int], nv[k as int]));
                        assert(spec_cnt_unchanged(ov, nv, k + 1) == spec_cnt_unchanged(
                            ov,
                            nv,
                            k as int,
                        ) + 1);
                        lemma_modified_sound_mono(ov, nv, modified@, k as int, k + 1);
                        assert forall|o2: int, n2: int|
                            0 <= o2 < ov.len() && 0 <= n2 < k + 1 && (#[trigger] ov[o2]).path@ == (
                            #[trigger] nv[n2]).path@ && spec_modified_pair(ov[o2], nv[n2])
                                implies spec_some_delta_path(modified@, nv[n2].path@) by {
                            if n2 == k {
                                assert(o2 == oi as int);
                                assert(false);
                            }
                        }
                    }
                    unchanged = unchanged + 1;
                }
            },
        }
        k = k + 1;
    }

    // --- walk the old snapshot: removals ------------------------------------
    let mut removed: Vec<FileBrief> = Vec::new();
    let mut o: usize = 0;
    while o < old.len()
        invariant
            o <= ov.len(),
            old@ == ov,
            new@ == nv,
            spec_unique_paths(ov),
            spec_unique_paths(nv),
            spec_briefs_sorted(removed@),
            spec_removed_sound(ov, nv, removed@, o as int),
            spec_removed_complete(ov, nv, removed@, o as int),
        decreases ov.len() - o,
    {
        let oe = &old[o];
        match find_by_path(new, oe.path.as_slice()) {
            Some(_) => {
                proof {
                    assert(!spec_is_removed(ov, nv, ov[o as int]));
                    lemma_removed_sound_mono(ov, nv, removed@, o as int, o + 1);
                    assert(spec_removed_complete(ov, nv, removed@, o + 1));
                }
            },
            None => {
                let (lost_n, _) = count_lost(old, new, oe.sha1.as_slice());
                let (gain_n, _) = count_gained(new, old, oe.sha1.as_slice());
                if !(lost_n == 1 && gain_n == 1) {
                    proof {
                        assert(spec_is_removed(ov, nv, ov[o as int]));
                        assert forall|x: int| 0 <= x < removed@.len() implies (
                        #[trigger] removed@[x]).path@ != ov[o as int].path@ by {
                            assert(spec_brief_removed_of(ov, nv, removed@[x], o as int));
                            let k2 = choose|k2: int|
                                0 <= k2 < o && spec_is_removed(ov, nv, #[trigger] ov[k2])
                                    && spec_brief_matches(removed@[x], ov[k2]);
                            assert(ov[k2].path@ != ov[o as int].path@);
                        }
                    }
                    let brief = make_brief(oe);
                    let ghost bb = brief;
                    let ghost prev = removed@;
                    insert_brief_sorted(&mut removed, brief);
                    proof {
                        assert forall|x: int| 0 <= x < removed@.len() implies spec_brief_removed_of(
                            ov,
                            nv,
                            #[trigger] removed@[x],
                            o + 1,
                        ) by {
                            if removed@[x] == bb {
                                assert(spec_is_removed(ov, nv, ov[o as int]));
                                assert(spec_brief_matches(removed@[x], ov[o as int]));
                            } else {
                                let x0 = choose|x0: int|
                                    0 <= x0 < prev.len() && (#[trigger] prev[x0]) == removed@[x];
                                assert(spec_brief_removed_of(ov, nv, prev[x0], o as int));
                                let k2 = choose|k2: int|
                                    0 <= k2 < o && spec_is_removed(ov, nv, #[trigger] ov[k2])
                                        && spec_brief_matches(prev[x0], ov[k2]);
                                assert(spec_brief_matches(removed@[x], ov[k2]));
                            }
                        }
                        assert forall|k2: int|
                            0 <= k2 < o + 1 && spec_is_removed(ov, nv, #[trigger] ov[k2])
                                implies spec_some_brief_matches(removed@, ov[k2]) by {
                            if k2 == o {
                                let x0 = choose|x0: int|
                                    0 <= x0 < removed@.len() && (#[trigger] removed@[x0]) == bb;
                                assert(spec_brief_matches(removed@[x0], ov[o as int]));
                            } else {
                                assert(spec_some_brief_matches(prev, ov[k2]));
                                let x0 = choose|x0: int|
                                    0 <= x0 < prev.len() && spec_brief_matches(
                                        #[trigger] prev[x0],
                                        ov[k2],
                                    );
                                let x1 = choose|x1: int|
                                    0 <= x1 < removed@.len() && (#[trigger] removed@[x1])
                                        == prev[x0];
                                assert(spec_brief_matches(removed@[x1], ov[k2]));
                            }
                        }
                    }
                } else {
                    proof {
                        assert(spec_rename_sha(ov, nv, ov[o as int].sha1@));
                        assert(!spec_is_removed(ov, nv, ov[o as int]));
                        lemma_removed_sound_mono(ov, nv, removed@, o as int, o + 1);
                        assert(spec_removed_complete(ov, nv, removed@, o + 1));
                    }
                }
            },
        }
        o = o + 1;
    }

    let summary = DiffSummary {
        total_old: old.len(),
        total_new: new.len(),
        added: added.len(),
        removed: removed.len(),
        modified: modified.len(),
        renamed: renamed.len(),
        unchanged,
    };
    DiffReport { version: 2, summary, added, removed, modified, renamed }
}

/// Collected-brief soundness is monotone in the processed prefix length.
proof fn lemma_added_sound_mono(
    ov: Seq<FileIntentEntry>,
    nv: Seq<FileIntentEntry>,
    s: Seq<FileBrief>,
    a: int,
    b: int,
)
    requires
        spec_added_sound(ov, nv, s, a),
        a <= b,
    ensures
        spec_added_sound(ov, nv, s, b),
{
    assert forall|x: int| 0 <= x < s.len() implies spec_brief_added_of(
        ov,
        nv,
        #[trigger] s[x],
        b,
    ) by {
        assert(spec_brief_added_of(ov, nv, s[x], a));
        let k2 = choose|k2: int|
            0 <= k2 < a && spec_is_added(ov, nv, #[trigger] nv[k2]) && spec_brief_matches(
                s[x],
                nv[k2],
            );
        assert(0 <= k2 < b && spec_is_added(ov, nv, nv[k2]) && spec_brief_matches(s[x], nv[k2]));
    }
}

proof fn lemma_removed_sound_mono(
    ov: Seq<FileIntentEntry>,
    nv: Seq<FileIntentEntry>,
    s: Seq<FileBrief>,
    a: int,
    b: int,
)
    requires
        spec_removed_sound(ov, nv, s, a),
        a <= b,
    ensures
        spec_removed_sound(ov, nv, s, b),
{
    assert forall|x: int| 0 <= x < s.len() implies spec_brief_removed_of(
        ov,
        nv,
        #[trigger] s[x],
        b,
    ) by {
        assert(spec_brief_removed_of(ov, nv, s[x], a));
        let k2 = choose|k2: int|
            0 <= k2 < a && spec_is_removed(ov, nv, #[trigger] ov[k2]) && spec_brief_matches(
                s[x],
                ov[k2],
            );
        assert(0 <= k2 < b && spec_is_removed(ov, nv, ov[k2]) && spec_brief_matches(s[x], ov[k2]));
    }
}

proof fn lemma_modified_sound_mono(
    ov: Seq<FileIntentEntry>,
    nv: Seq<FileIntentEntry>,
    s: Seq<DeltaEntry>,
    a: int,
    b: int,
)
    requires
        spec_modified_sound(ov, nv, s, a),
        a <= b,
    ensures
        spec_modified_sound(ov, nv, s, b),
{
    assert forall|x: int| 0 <= x < s.len() implies spec_delta_of(ov, nv, #[trigger] s[x], b) by {
        assert(spec_delta_of(ov, nv, s[x], a));
        let (oi, ni) = choose|oi: int, ni: int|
            0 <= oi < ov.len() && 0 <= ni < a && (#[trigger] ov[oi]).path@ == (
            #[trigger] nv[ni]).path@ && spec_modified_pair(ov[oi], nv[ni]) && spec_delta_matches(
                s[x],
                ov[oi],
                nv[ni],
            );
        assert(0 <= oi < ov.len() && 0 <= ni < b && ov[oi].path@ == nv[ni].path@
            && spec_modified_pair(ov[oi], nv[ni]) && spec_delta_matches(s[x], ov[oi], nv[ni]));
    }
}

/// A new rename source path cannot collide with the already collected ones.
proof fn lemma_new_from_distinct(
    ov: Seq<FileIntentEntry>,
    nv: Seq<FileIntentEntry>,
    prev: Seq<RenamePair>,
    pair: RenamePair,
    ni: int,
    lost_ix: int,
)
    requires
        spec_unique_paths(ov),
        spec_pairs_witnessed(ov, nv, prev),
        spec_sha_seen(nv, prev, ni),
        forall|k: int| 0 <= k < ni ==> (#[trigger] nv[k]).sha1@ != pair.sha1@,
        0 <= lost_ix < ov.len(),
        ov[lost_ix].sha1@ == pair.sha1@,
        pair.from@ == ov[lost_ix].path@,
    ensures
        forall|x: int| 0 <= x < prev.len() ==> (#[trigger] prev[x]).from@ != pair.from@,
{
    assert forall|x: int| 0 <= x < prev.len() implies (#[trigger] prev[x]).from@
        != pair.from@ by {
        let p = prev[x];
        assert(spec_pair_witness(ov, nv, p));
        let (poi, pni) = choose|poi: int, pni: int|
            {
                &&& 0 <= poi < ov.len()
                &&& 0 <= pni < nv.len()
                &&& spec_lost(#[trigger] ov[poi], nv, p.sha1@)
                &&& spec_gained(#[trigger] nv[pni], ov, p.sha1@)
                &&& p.from@ == ov[poi].path@
                &&& p.to@ == nv[pni].path@
                &&& p.size == nv[pni].size
                &&& spec_rename_sha(ov, nv, p.sha1@)
            };
        if p.from@ == pair.from@ {
            assert(ov[poi].path@ == ov[lost_ix].path@);
            if poi < lost_ix {
                assert(ov[poi].path@ != ov[lost_ix].path@);
            } else if poi > lost_ix {
                assert(ov[lost_ix].path@ != ov[poi].path@);
            }
            assert(poi == lost_ix);
            assert(p.sha1@ == pair.sha1@);
            assert(spec_pair_sha_seen(nv, p, ni));
            let k0 = choose|k0: int| 0 <= k0 < ni && (#[trigger] nv[k0]).sha1@ == p.sha1@;
            assert(nv[k0].sha1@ != pair.sha1@);
            assert(false);
        }
    }
}

/// Sorted, witnessed rename pairs reference pairwise distinct hashes.
proof fn lemma_pairs_distinct_sha(
    ov: Seq<FileIntentEntry>,
    nv: Seq<FileIntentEntry>,
    rs: Seq<RenamePair>,
)
    requires
        spec_unique_paths(ov),
        spec_pairs_sorted(rs),
        spec_pairs_witnessed(ov, nv, rs),
    ensures
        forall|x: int, y: int|
            0 <= x < y < rs.len() ==> (#[trigger] rs[x]).sha1@ != (#[trigger] rs[y]).sha1@,
{
    assert forall|x: int, y: int| 0 <= x < y < rs.len() implies (#[trigger] rs[x]).sha1@ != (
    #[trigger] rs[y]).sha1@ by {
        let a = rs[x];
        let b = rs[y];
        assert(spec_lex_lt(a.from@, b.from@));
        lemma_lex_trichotomy(a.from@, b.from@);
        if a.sha1@ == b.sha1@ {
            assert(spec_pair_witness(ov, nv, a));
            assert(spec_pair_witness(ov, nv, b));
            let (aoi, ani) = choose|aoi: int, ani: int|
                {
                    &&& 0 <= aoi < ov.len()
                    &&& 0 <= ani < nv.len()
                    &&& spec_lost(#[trigger] ov[aoi], nv, a.sha1@)
                    &&& spec_gained(#[trigger] nv[ani], ov, a.sha1@)
                    &&& a.from@ == ov[aoi].path@
                    &&& a.to@ == nv[ani].path@
                    &&& a.size == nv[ani].size
                    &&& spec_rename_sha(ov, nv, a.sha1@)
                };
            let (boi, bni) = choose|boi: int, bni: int|
                {
                    &&& 0 <= boi < ov.len()
                    &&& 0 <= bni < nv.len()
                    &&& spec_lost(#[trigger] ov[boi], nv, b.sha1@)
                    &&& spec_gained(#[trigger] nv[bni], ov, b.sha1@)
                    &&& b.from@ == ov[boi].path@
                    &&& b.to@ == nv[bni].path@
                    &&& b.size == nv[bni].size
                    &&& spec_rename_sha(ov, nv, b.sha1@)
                };
            if aoi != boi {
                lemma_cnt_lost_two(ov, nv, a.sha1@, aoi, boi);
            }
            assert(a.from@ == b.from@);
            assert(false);
        }
    }
}

/// Two distinct lost entries push the lost count to at least two.
proof fn lemma_cnt_lost_two(
    old: Seq<FileIntentEntry>,
    new: Seq<FileIntentEntry>,
    h: Seq<u8>,
    i: int,
    j: int,
)
    requires
        0 <= i < old.len(),
        0 <= j < old.len(),
        i != j,
        spec_lost(old[i], new, h),
        spec_lost(old[j], new, h),
    ensures
        spec_cnt_lost(old, new, h, old.len() as int) >= 2,
{
    let lo = if i < j {
        i
    } else {
        j
    };
    let hi = if i < j {
        j
    } else {
        i
    };
    lemma_cnt_lost_ge(old, new, h, lo, hi, old.len() as int);
}

/// Counting past two distinct lost indices yields at least two.
proof fn lemma_cnt_lost_ge(
    old: Seq<FileIntentEntry>,
    new: Seq<FileIntentEntry>,
    h: Seq<u8>,
    lo: int,
    hi: int,
    k: int,
)
    requires
        0 <= lo < hi < old.len(),
        spec_lost(old[lo], new, h),
        spec_lost(old[hi], new, h),
        hi < k <= old.len(),
    ensures
        spec_cnt_lost(old, new, h, k) >= 2,
    decreases k,
{
    if k - 1 > hi {
        lemma_cnt_lost_ge(old, new, h, lo, hi, k - 1);
    } else {
        // the prefix up to the high index already counts the low one
        lemma_cnt_lost_one(old, new, h, lo, k - 1);
    }
}

/// A single lost index below `k` makes the count at least one.
proof fn lemma_cnt_lost_one(
    old: Seq<FileIntentEntry>,
    new: Seq<FileIntentEntry>,
    h: Seq<u8>,
    lo: int,
    k: int,
)
    requires
        0 <= lo < k <= old.len(),
        spec_lost(old[lo], new, h),
    ensures
        spec_cnt_lost(old, new, h, k) >= 1,
    decreases k,
{
    if k - 1 > lo {
        lemma_cnt_lost_one(old, new, h, lo, k - 1);
    } else {
        lemma_cnt_lost_nonneg(old, new, h, k - 1);
    }
}

proof fn lemma_cnt_lost_nonneg(
    old: Seq<FileIntentEntry>,
    new: Seq<FileIntentEntry>,
    h: Seq<u8>,
    k: int,
)
    ensures
        spec_cnt_lost(old, new, h, k) >= 0,
    decreases k,
{
    if 0 < k <= old.len() {
        lemma_cnt_lost_nonneg(old, new, h, k - 1);
    }
}

} // verus!
