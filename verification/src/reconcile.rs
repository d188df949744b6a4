//! Differential reconciliation of build output.
//!
//! A build records the set of artifacts it produced. Comparing the
//! previous build's set with the current one yields the orphans: files
//! and directories that no longer belong. Orphan files are deleted
//! first; orphan directories only after every file deletion, deepest
//! directory first, so that removing a non-empty directory is never
//! attempted.

use vstd::prelude::*;

use crate::paths::count_char;
use crate::text::str_to_chars;

verus! {

/// One artifact a build produced: an output path, and whether it is a
/// directory rather than a plain file.
#[derive(Debug, Clone, PartialEq, Eq)]
pub struct Artifact {
    /// The artifact's path.
    pub path: String,
    /// Whether the artifact is a directory.
    pub dir: bool,
}

/// Whether some artifact in `s` carries the path `p`.
pub open spec fn spec_has_path(s: Seq<Artifact>, p: Seq<char>) -> bool {
    exists|k: int| 0 <= k < s.len() && (#[trigger] s[k]).path@ == p
}

/// The paths of the plain-file artifacts of `prev` that `cur` no
/// longer holds, in `prev` order.
pub open spec fn spec_orphan_files(prev: Seq<Artifact>, cur: Seq<Artifact>) -> Seq<String>
    decreases prev.len(),
{
    if prev.len() == 0 {
        Seq::empty()
    } else {
        spec_orphan_files(prev.drop_last(), cur) + if !prev.last().dir && !spec_has_path(
            cur,
            prev.last().path@,
        ) {
            seq![prev.last().path]
        } else {
            Seq::empty()
        }
    }
}

/// The paths of the directory artifacts of `prev` that `cur` no longer
/// holds, in `prev` order.
pub open spec fn spec_orphan_dirs(prev: Seq<Artifact>, cur: Seq<Artifact>) -> Seq<String>
    decreases prev.len(),
{
    if prev.len() == 0 {
        Seq::empty()
    } else {
        spec_orphan_dirs(prev.drop_last(), cur) + if prev.last().dir && !spec_has_path(
            cur,
            prev.last().path@,
        ) {
            seq![prev.last().path]
        } else {
            Seq::empty()
        }
    }
}

/// How many directory levels down a path reaches.
pub open spec fn spec_depth_of(p: Seq<char>) -> nat {
    count_char(p, '/')
}

/// Inserting one directory into a deepest-first run: strictly deeper
/// paths move left; an equal depth stays behind the ones already there.
pub open spec fn spec_insert_dir(s: Seq<String>, x: String) -> Seq<String>
    decreases s.len(),
{
    if s.len() == 0 {
        seq![x]
    } else if spec_depth_of(x@) > spec_depth_of(s[0]@) {
        seq![x] + s
    } else {
        seq![s[0]] + spec_insert_dir(s.drop_first(), x)
    }
}

/// Orders directories deepest first, stably.
pub open spec fn spec_sort_dirs(s: Seq<String>) -> Seq<String>
    decreases s.len(),
{
    if s.len() == 0 {
        Seq::empty()
    } else {
        spec_insert_dir(spec_sort_dirs(s.drop_last()), s.last())
    }
}

/// A run is deepest first when no later path is strictly deeper than an
/// earlier one.
pub open spec fn spec_deepest_first(s: Seq<String>) -> bool {
    forall|i: int, j: int|
        0 <= i < j < s.len() ==> spec_depth_of((#[trigger] s[j])@) <= spec_depth_of(
            (#[trigger] s[i])@,
        )
}

/// What a reconciliation pass deletes: every orphan file, then every
/// orphan directory, deepest first.
#[derive(Debug)]
pub struct DeletePlan {
    /// The files to delete, before any directory is touched.
    pub files: Vec<String>,
    /// The directories to delete afterwards, deepest first.
    pub dirs: Vec<String>,
}

/// The index of the first entry of a deepest-first run strictly
/// shallower than `x`, or the length when none is.
pub open spec fn spec_dir_pos(s: Seq<String>, x: String) -> int
    decreases s.len(),
{
    if s.len() == 0 {
        0
    } else if spec_depth_of(x@) > spec_depth_of(s[0]@) {
        0
    } else {
        1 + spec_dir_pos(s.drop_first(), x)
    }
}

/// Inserting at the found position is the insert step.
proof fn lemma_dir_pos(s: Seq<String>, x: String)
    ensures
        0 <= spec_dir_pos(s, x) <= s.len(),
        spec_insert_dir(s, x) == s.insert(spec_dir_pos(s, x), x),
    decreases s.len(),
{
    let p = spec_dir_pos(s, x);
    if s.len() == 0 {
        assert(spec_insert_dir(s, x) =~= s.insert(0, x));
    } else if spec_depth_of(x@) > spec_depth_of(s[0]@) {
        assert(spec_insert_dir(s, x) =~= s.insert(0, x));
    } else {
        let rest = s.drop_first();
        lemma_dir_pos(rest, x);
        assert(forall|k: int| 0 <= k < rest.len() ==> rest[k] == s[k + 1]);
        assert(spec_insert_dir(s, x) =~= s.insert(p, x));
    }
}

/// A scan that stopped at the first strictly shallower path stands at
/// the insert position.
proof fn lemma_dir_pos_unique(s: Seq<String>, x: String, j: int)
    requires
        0 <= j <= s.len(),
        forall|k: int| 0 <= k < j ==> spec_depth_of(x@) <= spec_depth_of((#[trigger] s[k])@),
        j < s.len() ==> spec_depth_of(x@) > spec_depth_of(s[j]@),
    ensures
        spec_dir_pos(s, x) == j,
    decreases s.len(),
{
    if s.len() > 0 && !(spec_depth_of(x@) > spec_depth_of(s[0]@)) {
        let rest = s.drop_first();
        assert(forall|k: int| 0 <= k < rest.len() ==> rest[k] == s[k + 1]);
        lemma_dir_pos_unique(rest, x, j - 1);
    }
}

/// The insert step keeps a deepest-first run deepest first.
pub proof fn lemma_insert_dir_sorted(s: Seq<String>, x: String)
    requires
        spec_deepest_first(s),
    ensures
        spec_deepest_first(spec_insert_dir(s, x)),
        spec_insert_dir(s, x).len() == s.len() + 1,
    decreases s.len(),
{
    let r = spec_insert_dir(s, x);
    if s.len() == 0 {
        assert(r =~= seq![x]);
    } else if spec_depth_of(x@) > spec_depth_of(s[0]@) {
        assert(r == seq![x] + s);
        assert forall|i: int, j: int| 0 <= i < j < r.len() implies spec_depth_of(
            (#[trigger] r[j])@,
        ) <= spec_depth_of((#[trigger] r[i])@) by {
            if i == 0 {
                assert(r[j] == s[j - 1]);
                if j - 1 > 0 {
                    assert(spec_depth_of(s[j - 1]@) <= spec_depth_of(s[0]@));
                }
            } else {
                assert(r[i] == s[i - 1] && r[j] == s[j - 1]);
            }
        }
    } else {
        let rest = s.drop_first();
        assert(spec_deepest_first(rest)) by {
            assert(forall|i: int, j: int|
                0 <= i < j < rest.len() ==> rest[i] == s[i + 1] && rest[j] == s[j + 1]);
        }
        lemma_insert_dir_sorted(rest, x);
        let sub = spec_insert_dir(rest, x);
        assert(r == seq![s[0]] + sub);
        assert forall|i: int, j: int| 0 <= i < j < r.len() implies spec_depth_of(
            (#[trigger] r[j])@,
        ) <= spec_depth_of((#[trigger] r[i])@) by {
            if i == 0 {
                assert(r[j] == sub[j - 1]);
                lemma_insert_dir_bounded(rest, x, s[0], j - 1);
            } else {
                assert(r[i] == sub[i - 1] && r[j] == sub[j - 1]);
            }
        }
    }
}

/// An upper bound on the depths of a run and of an inserted path bounds
/// the insert result.
proof fn lemma_insert_dir_bounded(s: Seq<String>, x: String, top: String, j: int)
    requires
        0 <= j < spec_insert_dir(s, x).len(),
        spec_depth_of(x@) <= spec_depth_of(top@),
        forall|k: int|
            0 <= k < s.len() ==> spec_depth_of((#[trigger] s[k])@) <= spec_depth_of(top@),
    ensures
        spec_depth_of(spec_insert_dir(s, x)[j]@) <= spec_depth_of(top@),
    decreases s.len(),
{
    let r = spec_insert_dir(s, x);
    if s.len() == 0 {
        assert(r[j] == x);
    } else if spec_depth_of(x@) > spec_depth_of(s[0]@) {
        assert(r == seq![x] + s);
        if j > 0 {
            assert(r[j] == s[j - 1]);
        }
    } else {
        let rest = s.drop_first();
        assert(r == seq![s[0]] + spec_insert_dir(rest, x));
        if j > 0 {
            assert(forall|k: int| 0 <= k < rest.len() ==> rest[k] == s[k + 1]);
            lemma_insert_dir_bounded(rest, x, top, j - 1);
            assert(r[j] == spec_insert_dir(rest, x)[j - 1]);
        }
    }
}

/// The deepest-first sort really is deepest first.
pub proof fn lemma_sort_dirs(s: Seq<String>)
    ensures
        spec_deepest_first(spec_sort_dirs(s)),
        spec_sort_dirs(s).len() == s.len(),
    decreases s.len(),
{
    if s.len() > 0 {
        lemma_sort_dirs(s.drop_last());
        lemma_insert_dir_sorted(spec_sort_dirs(s.drop_last()), s.last());
    }
}

/// Decides whether any artifact of `cur` carries the same path.
fn has_path(cur: &Vec<Artifact>, p: &String) -> (r: bool)
    ensures
        r == spec_has_path(cur@, p@),
{
    let mut i: usize = 0;
    while i < cur.len()
        invariant
            i <= cur@.len(),
            forall|k: int| 0 <= k < i ==> (#[trigger] cur@[k]).path@ != p@,
        decreases cur@.len() - i,
    {
        if cur[i].path.eq(p) {
            return true;
        }
        i = i + 1;
    }
    false
}

/// Computes what a reconciliation pass must delete: exactly the
/// artifacts of the previous build that the current build no longer
/// produced, files first, directories afterwards and deepest first.
pub fn reconcile(previous: &Vec<Artifact>, current: &Vec<Artifact>) -> (plan: DeletePlan)
    ensures
        plan.files@ == spec_orphan_files(previous@, current@),
        plan.dirs@ == spec_sort_dirs(spec_orphan_dirs(previous@, current@)),
{
    let mut files: Vec<String> = Vec::new();
    let mut dirs_unsorted: Vec<String> = Vec::new();
    let mut i: usize = 0;
    while i < previous.len()
        invariant
            i <= previous@.len(),
            files@ == spec_orphan_files(previous@.subrange(0, i as int), current@),
            dirs_unsorted@ == spec_orphan_dirs(previous@.subrange(0, i as int), current@),
        decreases previous@.len() - i,
    {
        proof {
            assert(previous@.subrange(0, i + 1).drop_last() =~= previous@.subrange(0, i as int));
            assert(previous@.subrange(0, i + 1).last() == previous@[i as int]);
        }
        let a = &previous[i];
        if !has_path(current, &a.path) {
            if a.dir {
                dirs_unsorted.push(a.path.clone());
            } else {
                files.push(a.path.clone());
            }
        }
        i = i + 1;
        assert(files@ =~= spec_orphan_files(previous@.subrange(0, i as int), current@));
        assert(dirs_unsorted@ =~= spec_orphan_dirs(previous@.subrange(0, i as int), current@));
    }
    proof {
        assert(previous@.subrange(0, previous@.len() as int) =~= previous@);
    }
    let mut dirs: Vec<String> = Vec::new();
    let mut di: usize = 0;
    while di < dirs_unsorted.len()
        invariant
            di <= dirs_unsorted@.len(),
            dirs@ == spec_sort_dirs(dirs_unsorted@.subrange(0, di as int)),
        decreases dirs_unsorted@.len() - di,
    {
        let x = dirs_unsorted[di].clone();
        let ghost pre = dirs@;
        let xv = str_to_chars(x.as_str());
        let xlen = xv.len();
        proof {
            crate::paths::lemma_count_char_le_len(xv@, '/');
            assert(count_char(xv@, '/') <= xlen);
        }
        let xdepth = depth_of_path(&xv);
        let mut j: usize = 0;
        while j < dirs.len()
            invariant_except_break
                dirs@ == pre,
                x == dirs_unsorted@[di as int],
                di < dirs_unsorted@.len(),
                xdepth == spec_depth_of(x@),
                j <= dirs@.len(),
                forall|k: int|
                    0 <= k < j ==> spec_depth_of(x@) <= spec_depth_of((#[trigger] dirs@[k])@),
            ensures
                dirs@ == pre,
                x == dirs_unsorted@[di as int],
                di < dirs_unsorted@.len(),
                j <= dirs@.len(),
                forall|k: int|
                    0 <= k < j ==> spec_depth_of(x@) <= spec_depth_of((#[trigger] dirs@[k])@),
                j < dirs@.len() ==> spec_depth_of(x@) > spec_depth_of(dirs@[j as int]@),
            decreases dirs@.len() - j,
        {
            let ev = str_to_chars(dirs[j].as_str());
            let elen = ev.len();
            proof {
                crate::paths::lemma_count_char_le_len(ev@, '/');
                assert(count_char(ev@, '/') <= elen);
            }
            let edepth = depth_of_path(&ev);
            if xdepth > edepth {
                break ;
            }
            j = j + 1;
        }
        proof {
            lemma_dir_pos(pre, x);
            lemma_dir_pos_unique(pre, x, j as int);
        }
        dirs.insert(j, x);
        di = di + 1;
        proof {
            assert(dirs_unsorted@.subrange(0, di as int).drop_last() =~= dirs_unsorted@.subrange(
                0,
                di - 1,
            ));
            assert(dirs_unsorted@.subrange(0, di as int).last() == dirs_unsorted@[di - 1]);
        }
    }
    proof {
        assert(dirs_unsorted@.subrange(0, dirs_unsorted@.len() as int) =~= dirs_unsorted@);
    }
    DeletePlan { files, dirs }
}

/// Counts how many directory levels down a path reaches.
fn depth_of_path(v: &Vec<char>) -> (r: usize)
    requires
        count_char(v@, '/') <= usize::MAX,
    ensures
        r == spec_depth_of(v@),
{
    let mut n: usize = 0;
    let mut i: usize = 0;
    while i < v.len()
        invariant
            i <= v@.len(),
            n == count_char(v@.subrange(0, i as int), '/'),
            count_char(v@.subrange(0, i as int), '/') <= i,
        decreases v@.len() - i,
    {
        proof {
            assert(v@.subrange(0, i + 1).drop_last() =~= v@.subrange(0, i as int));
        }
        if v[i] == '/' {
            n = n + 1;
        }
        i = i + 1;
    }
    assert(v@.subrange(0, v@.len() as int) =~= v@);
    n
}

/// Reconciliation idempotence: reconciling a build's own artifact set
/// against itself deletes nothing, so a second pass over an unchanged
/// output is a no-op.
pub proof fn lemma_reconcile_idempotent(cur: Seq<Artifact>)
    ensures
        spec_orphan_files(cur, cur) == Seq::<String>::empty(),
        spec_orphan_dirs(cur, cur) == Seq::<String>::empty(),
{
    lemma_no_orphans_of_superset(cur, cur);
}

/// A previous set wholly contained in the current one yields no orphans.
proof fn lemma_no_orphans_of_superset(prev: Seq<Artifact>, cur: Seq<Artifact>)
    requires
        forall|k: int| 0 <= k < prev.len() ==> spec_has_path(cur, (#[trigger] prev[k]).path@),
    ensures
        spec_orphan_files(prev, cur) == Seq::<String>::empty(),
        spec_orphan_dirs(prev, cur) == Seq::<String>::empty(),
    decreases prev.len(),
{
    if prev.len() > 0 {
        assert(forall|k: int|
            0 <= k < prev.drop_last().len() ==> #[trigger] prev.drop_last()[k] == prev[k]);
        lemma_no_orphans_of_superset(prev.drop_last(), cur);
        assert(spec_has_path(cur, prev.last().path@));
        assert(spec_orphan_files(prev, cur) =~= Seq::<String>::empty());
        assert(spec_orphan_dirs(prev, cur) =~= Seq::<String>::empty());
    }
}

/// Orphan deletion safety: nothing the current build produced is ever
/// deleted; every planned path was absent from the current set.
pub proof fn lemma_reconcile_preserves_current(prev: Seq<Artifact>, cur: Seq<Artifact>)
    ensures
        forall|j: int|
            0 <= j < spec_orphan_files(prev, cur).len() ==> !spec_has_path(
                cur,
                (#[trigger] spec_orphan_files(prev, cur)[j])@,
            ),
        forall|j: int|
            0 <= j < spec_orphan_dirs(prev, cur).len() ==> !spec_has_path(
                cur,
                (#[trigger] spec_orphan_dirs(prev, cur)[j])@,
            ),
    decreases prev.len(),
{
    if prev.len() > 0 {
        lemma_reconcile_preserves_current(prev.drop_last(), cur);
        let ff = spec_orphan_files(prev, cur);
        let pf = spec_orphan_files(prev.drop_last(), cur);
        assert forall|j: int| 0 <= j < ff.len() implies !spec_has_path(
            cur,
            (#[trigger] ff[j])@,
        ) by {
            if j < pf.len() {
                assert(ff[j] == pf[j]);
            }
        }
        let fd = spec_orphan_dirs(prev, cur);
        let pd = spec_orphan_dirs(prev.drop_last(), cur);
        assert forall|j: int| 0 <= j < fd.len() implies !spec_has_path(
            cur,
            (#[trigger] fd[j])@,
        ) by {
            if j < pd.len() {
                assert(fd[j] == pd[j]);
            }
        }
    }
}

/// Every artifact of the previous build that the current one dropped is
/// planned for deletion, in its own phase.
pub proof fn lemma_reconcile_complete(prev: Seq<Artifact>, cur: Seq<Artifact>, k: int)
    requires
        0 <= k < prev.len(),
        !spec_has_path(cur, prev[k].path@),
    ensures
        !prev[k].dir ==> spec_orphan_files(prev, cur).contains(prev[k].path),
        prev[k].dir ==> spec_orphan_dirs(prev, cur).contains(prev[k].path),
    decreases prev.len(),
{
    if k < prev.len() - 1 {
        lemma_reconcile_complete(prev.drop_last(), cur, k);
        assert(prev.drop_last()[k] == prev[k]);
        let pf = spec_orphan_files(prev.drop_last(), cur);
        let pd = spec_orphan_dirs(prev.drop_last(), cur);
        if !prev[k].dir {
            let j = choose|j: int| 0 <= j < pf.len() && pf[j] == prev[k].path;
            assert(spec_orphan_files(prev, cur)[j] == prev[k].path);
        } else {
            let j = choose|j: int| 0 <= j < pd.len() && pd[j] == prev[k].path;
            assert(spec_orphan_dirs(prev, cur)[j] == prev[k].path);
        }
    } else {
        if !prev[k].dir {
            let ff = spec_orphan_files(prev, cur);
            assert(ff[ff.len() - 1] == prev[k].path);
        } else {
            let fd = spec_orphan_dirs(prev, cur);
            assert(fd[fd.len() - 1] == prev[k].path);
        }
    }
}

} // verus!
