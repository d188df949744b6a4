//! The module hierarchy derived from a traversal's module list.
//!
//! A second pass over the module classification list: a node's tree
//! children are exactly the modules whose parent reference carries its
//! id, sorted by name so that overview pages never churn between runs
//! with no source changes. The tree is kept flat, as lines of id and
//! depth, which is all that rendering an overview needs.

use vstd::prelude::*;

use crate::defs::DefSource;
use crate::text::chars_lt;

verus! {

/// A name and id pair, ordered by name when sorting.
pub type NameEntry = (String, u64);

/// Inserting one entry into a sorted run: strictly smaller names move
/// left; an equal name stays behind the ones already there.
pub open spec fn spec_insert_sorted(s: Seq<NameEntry>, x: NameEntry) -> Seq<NameEntry>
    decreases s.len(),
{
    if s.len() == 0 {
        seq![x]
    } else if chars_lt(x.0@, s[0].0@) {
        seq![x] + s
    } else {
        seq![s[0]] + spec_insert_sorted(s.drop_first(), x)
    }
}

/// Insertion sort, stable: entries are inserted left to right.
pub open spec fn spec_sort_entries(s: Seq<NameEntry>) -> Seq<NameEntry>
    decreases s.len(),
{
    if s.len() == 0 {
        Seq::empty()
    } else {
        spec_insert_sorted(spec_sort_entries(s.drop_last()), s.last())
    }
}

/// A run is sorted when no later name is strictly below an earlier one.
pub open spec fn spec_sorted(s: Seq<NameEntry>) -> bool {
    forall|i: int, j: int| 0 <= i < j < s.len() ==> !chars_lt(s[j].0@, s[i].0@)
}

/// Inserting anywhere adds exactly the inserted entry to the contents.
proof fn lemma_to_multiset_insert(s: Seq<NameEntry>, i: int, x: NameEntry)
    requires
        0 <= i <= s.len(),
    ensures
        s.insert(i, x).to_multiset() == s.to_multiset().insert(x),
{
    broadcast use vstd::seq_lib::group_to_multiset_ensures;
    broadcast use vstd::seq_lib::lemma_multiset_commutative;
    broadcast use vstd::multiset::group_multiset_axioms;

    let t = s.subrange(0, i);
    let k = s.subrange(i, s.len() as int);
    assert(s.insert(i, x) == t.push(x) + k);
    assert((t.push(x) + k).to_multiset() =~= t.push(x).to_multiset().add(k.to_multiset()));
    assert(t.push(x).to_multiset() =~= t.to_multiset().insert(x));
    assert(t + k =~= s);
    assert((t + k).to_multiset() =~= t.to_multiset().add(k.to_multiset()));
    assert(s.insert(i, x).to_multiset() =~= s.to_multiset().insert(x));
}

/// The insert step keeps a sorted run sorted and adds exactly the
/// inserted entry.
pub proof fn lemma_insert_sorted(s: Seq<NameEntry>, x: NameEntry)
    requires
        spec_sorted(s),
    ensures
        spec_sorted(spec_insert_sorted(s, x)),
        spec_insert_sorted(s, x).to_multiset() == s.to_multiset().insert(x),
        spec_insert_sorted(s, x).len() == s.len() + 1,
    decreases s.len(),
{
    broadcast use vstd::seq_lib::group_to_multiset_ensures;

    let r = spec_insert_sorted(s, x);
    lemma_insert_pos(s, x);
    let p = spec_insert_pos(s, x);
    lemma_to_multiset_insert(s, p, x);
    s.insert_ensures(p, x);
    if s.len() == 0 {
        assert(r =~= seq![x]);
    } else if chars_lt(x.0@, s[0].0@) {
        assert(r == seq![x] + s);
        assert forall|i: int, j: int| 0 <= i < j < r.len() implies !chars_lt(
            r[j].0@,
            r[i].0@,
        ) by {
            if i == 0 {
                assert(r[i] == x);
                assert(r[j] == s[j - 1]);
                if chars_lt(s[j - 1].0@, x.0@) {
                    crate::text::lemma_chars_lt_asym(x.0@, s[0].0@);
                    if j - 1 > 0 {
                        crate::text::lemma_chars_lt_trans(s[j - 1].0@, x.0@, s[0].0@);
                        assert(!chars_lt(s[j - 1].0@, s[0].0@));
                    }
                    assert(false);
                }
            } else {
                assert(r[i] == s[i - 1] && r[j] == s[j - 1]);
            }
        }
        assert(r.drop_first() =~= s);
    } else {
        let rest = s.drop_first();
        assert(spec_sorted(rest)) by {
            assert(forall|i: int, j: int|
                0 <= i < j < rest.len() ==> rest[i] == s[i + 1] && rest[j] == s[j + 1]);
        }
        lemma_insert_sorted(rest, x);
        let sub = spec_insert_sorted(rest, x);
        assert(r == seq![s[0]] + sub);
        assert forall|i: int, j: int| 0 <= i < j < r.len() implies !chars_lt(
            r[j].0@,
            r[i].0@,
        ) by {
            if i == 0 {
                if j >= 1 {
                    assert(r[j] == sub[j - 1]);
                    lemma_insert_elements_bounded(rest, x, s[0], j - 1);
                }
            } else {
                assert(r[i] == sub[i - 1] && r[j] == sub[j - 1]);
            }
        }
        assert(r.drop_first() =~= sub);
    }
}

/// Every element of an insert result is either the inserted entry or one
/// already there, so a lower bound on all of them and on the entry is a
/// lower bound on the result.
proof fn lemma_insert_elements_bounded(s: Seq<NameEntry>, x: NameEntry, low: NameEntry, j: int)
    requires
        0 <= j < spec_insert_sorted(s, x).len(),
        !chars_lt(x.0@, low.0@),
        forall|k: int| 0 <= k < s.len() ==> !chars_lt((#[trigger] s[k]).0@, low.0@),
    ensures
        !chars_lt(spec_insert_sorted(s, x)[j].0@, low.0@),
    decreases s.len(),
{
    let r = spec_insert_sorted(s, x);
    if s.len() == 0 {
        assert(r[j] == x);
    } else if chars_lt(x.0@, s[0].0@) {
        assert(r == seq![x] + s);
        if j > 0 {
            assert(r[j] == s[j - 1]);
        }
    } else {
        let rest = s.drop_first();
        assert(r == seq![s[0]] + spec_insert_sorted(rest, x));
        if j > 0 {
            assert(forall|k: int| 0 <= k < rest.len() ==> rest[k] == s[k + 1]);
            lemma_insert_elements_bounded(rest, x, low, j - 1);
            assert(r[j] == spec_insert_sorted(rest, x)[j - 1]);
        }
    }
}

/// The sort yields a sorted permutation of its input.
pub proof fn lemma_sort_entries(s: Seq<NameEntry>)
    ensures
        spec_sorted(spec_sort_entries(s)),
        spec_sort_entries(s).to_multiset() == s.to_multiset(),
        spec_sort_entries(s).len() == s.len(),
    decreases s.len(),
{
    broadcast use vstd::seq_lib::group_to_multiset_ensures;

    if s.len() > 0 {
        lemma_sort_entries(s.drop_last());
        lemma_insert_sorted(spec_sort_entries(s.drop_last()), s.last());
        assert(s =~= s.drop_last().push(s.last()));
        assert(s.to_multiset() =~= s.drop_last().to_multiset().insert(s.last()));
    }
}

/// The first index of a sorted run whose name is strictly above the
/// entry's, or the length when none is.
pub open spec fn spec_insert_pos(s: Seq<NameEntry>, x: NameEntry) -> int
    decreases s.len(),
{
    if s.len() == 0 {
        0
    } else if chars_lt(x.0@, s[0].0@) {
        0
    } else {
        1 + spec_insert_pos(s.drop_first(), x)
    }
}

/// Inserting at the found position is the insert step.
pub proof fn lemma_insert_pos(s: Seq<NameEntry>, x: NameEntry)
    ensures
        0 <= spec_insert_pos(s, x) <= s.len(),
        spec_insert_sorted(s, x) == s.insert(spec_insert_pos(s, x), x),
        forall|k: int| 0 <= k < spec_insert_pos(s, x) ==> !chars_lt(x.0@, (#[trigger] s[k]).0@),
        spec_insert_pos(s, x) < s.len() ==> chars_lt(x.0@, s[spec_insert_pos(s, x)].0@),
    decreases s.len(),
{
    let p = spec_insert_pos(s, x);
    if s.len() == 0 {
        assert(spec_insert_sorted(s, x) =~= s.insert(0, x));
    } else if chars_lt(x.0@, s[0].0@) {
        assert(spec_insert_sorted(s, x) =~= s.insert(0, x));
    } else {
        let rest = s.drop_first();
        lemma_insert_pos(rest, x);
        assert(forall|k: int| 0 <= k < rest.len() ==> rest[k] == s[k + 1]);
        assert(spec_insert_sorted(s, x) =~= s.insert(p, x));
        assert forall|k: int| 0 <= k < p implies !chars_lt(x.0@, (#[trigger] s[k]).0@) by {
            if k > 0 {
                assert(!chars_lt(x.0@, rest[k - 1].0@));
            }
        }
    }
}

/// Sorts name and id entries by name, keeping the arrival order of
/// equal names.
pub fn sort_entries(v: &Vec<NameEntry>) -> (r: Vec<NameEntry>)
    ensures
        r@ == spec_sort_entries(v@),
{
    let mut r: Vec<NameEntry> = Vec::new();
    let mut i: usize = 0;
    while i < v.len()
        invariant
            i <= v@.len(),
            r@ == spec_sort_entries(v@.subrange(0, i as int)),
            r@.len() == i,
        decreases v@.len() - i,
    {
        let x = (v[i].0.clone(), v[i].1);
        let ghost pre = r@;
        let mut j: usize = 0;
        while j < r.len()
            invariant_except_break
                r@ == pre,
                i < v@.len(),
                x == v@[i as int],
                j <= r@.len(),
                forall|k: int| 0 <= k < j ==> !chars_lt(x.0@, (#[trigger] r@[k]).0@),
            ensures
                r@ == pre,
                i < v@.len(),
                x == v@[i as int],
                j <= r@.len(),
                forall|k: int| 0 <= k < j ==> !chars_lt(x.0@, (#[trigger] r@[k]).0@),
                j < r@.len() ==> chars_lt(x.0@, r@[j as int].0@),
            decreases r@.len() - j,
        {
            let xv = crate::text::str_to_chars(x.0.as_str());
            let ev = crate::text::str_to_chars(r[j].0.as_str());
            if crate::text::chars_less(&xv, &ev) {
                break ;
            }
            j = j + 1;
        }
        proof {
            lemma_insert_pos(pre, x);
            lemma_insert_pos_unique(pre, x, j as int);
        }
        r.insert(j, x);
        i = i + 1;
        proof {
            assert(v@.subrange(0, i as int).drop_last() =~= v@.subrange(0, i - 1));
            assert(v@.subrange(0, i as int).last() == v@[i - 1]);
        }
    }
    proof {
        assert(v@.subrange(0, v@.len() as int) =~= v@);
    }
    r
}

/// A scan that stopped at the first strictly larger name stands at the
/// insert position.
proof fn lemma_insert_pos_unique(s: Seq<NameEntry>, x: NameEntry, j: int)
    requires
        0 <= j <= s.len(),
        forall|k: int| 0 <= k < j ==> !chars_lt(x.0@, (#[trigger] s[k]).0@),
        j < s.len() ==> chars_lt(x.0@, s[j].0@),
    ensures
        spec_insert_pos(s, x) == j,
    decreases s.len(),
{
    if s.len() > 0 && !chars_lt(x.0@, s[0].0@) {
        let rest = s.drop_first();
        assert(forall|k: int| 0 <= k < rest.len() ==> rest[k] == s[k + 1]);
        lemma_insert_pos_unique(rest, x, j - 1);
    }
}

/// Sorting keeps exactly the entries, so ids that resolved before the
/// sort still resolve after it.
pub proof fn lemma_sorted_entries_resolvable(src: DefSource, entries: Seq<NameEntry>)
    requires
        forall|k: int| 0 <= k < entries.len() ==> src.spec_has((#[trigger] entries[k]).1),
    ensures
        forall|j: int|
            0 <= j < spec_sort_entries(entries).len() ==> src.spec_has(
                (#[trigger] spec_sort_entries(entries)[j]).1,
            ),
{
    broadcast use vstd::seq_lib::group_to_multiset_ensures;

    lemma_sort_entries(entries);
    let sorted = spec_sort_entries(entries);
    assert forall|j: int| 0 <= j < sorted.len() implies src.spec_has(
        (#[trigger] sorted[j]).1,
    ) by {
        assert(sorted.contains(sorted[j]));
        assert(sorted.to_multiset().count(sorted[j]) > 0);
        assert(entries.to_multiset().count(sorted[j]) > 0);
        assert(entries.contains(sorted[j]));
        let k = choose|k: int| 0 <= k < entries.len() && entries[k] == sorted[j];
        assert(src.spec_has(entries[k].1));
    }
}

/// One line of the flattened module hierarchy.
#[derive(Debug, PartialEq, Eq, Structural, Clone, Copy)]
pub struct TreeLine {
    /// The module this line stands for.
    pub id: u64,
    /// How many levels below the crate root the module sits.
    pub depth: usize,
}

/// The name and id entries of the modules in `modules` whose parent is
/// `parent`, in list order.
pub open spec fn spec_child_entries(src: DefSource, modules: Seq<u64>, parent: u64) -> Seq<
    NameEntry,
>
    decreases modules.len(),
{
    if modules.len() == 0 {
        Seq::empty()
    } else {
        spec_child_entries(src, modules.drop_last(), parent) + if src.spec_def_of(
            modules.last(),
        ).parent == Some(parent) {
            seq![(src.spec_def_of(modules.last()).name, modules.last())]
        } else {
            Seq::empty()
        }
    }
}

/// The ids of a run of entries, in order.
pub open spec fn spec_entry_ids(s: Seq<NameEntry>) -> Seq<u64> {
    s.map_values(|e: NameEntry| e.1)
}

/// One more directory level down, never overflowing.
pub open spec fn spec_deeper(depth: usize) -> usize {
    if depth == usize::MAX {
        depth
    } else {
        (depth + 1) as usize
    }
}

/// The flattened subtree below `parent`: each child of `parent` among
/// `modules`, sorted by name, followed by its own subtree one level
/// deeper. The budget bounds the depth; one unit is spent per level, so
/// any budget at least the module count changes nothing on acyclic
/// input.
pub open spec fn spec_tree(
    src: DefSource,
    modules: Seq<u64>,
    parent: u64,
    depth: usize,
    budget: nat,
) -> Seq<TreeLine>
    decreases budget, 1int, 0int,
{
    if budget == 0 {
        Seq::empty()
    } else {
        spec_siblings(
            src,
            modules,
            spec_entry_ids(spec_sort_entries(spec_child_entries(src, modules, parent))),
            depth,
            budget,
        )
    }
}

/// The flattened subtrees of a run of siblings, left to right.
pub open spec fn spec_siblings(
    src: DefSource,
    modules: Seq<u64>,
    childs: Seq<u64>,
    depth: usize,
    budget: nat,
) -> Seq<TreeLine>
    decreases budget, 0int, childs.len(),
{
    if childs.len() == 0 || budget == 0 {
        Seq::empty()
    } else {
        seq![TreeLine { id: childs[0], depth }] + spec_tree(
            src,
            modules,
            childs[0],
            spec_deeper(depth),
            (budget - 1) as nat,
        ) + spec_siblings(src, modules, childs.drop_first(), depth, budget)
    }
}

/// Taking one more sibling appends that sibling's line and subtree.
pub proof fn lemma_siblings_snoc(
    src: DefSource,
    modules: Seq<u64>,
    childs: Seq<u64>,
    depth: usize,
    budget: nat,
    j: int,
)
    requires
        budget > 0,
        0 <= j < childs.len(),
    ensures
        spec_siblings(src, modules, childs.take(j + 1), depth, budget) == spec_siblings(
            src,
            modules,
            childs.take(j),
            depth,
            budget,
        ) + seq![TreeLine { id: childs[j], depth }] + spec_tree(
            src,
            modules,
            childs[j],
            spec_deeper(depth),
            (budget - 1) as nat,
        ),
    decreases j,
{
    let t1 = childs.take(j + 1);
    let t0 = childs.take(j);
    if j == 0 {
        assert(t0.len() == 0);
        assert(t1[0] == childs[0]);
        assert(t1.drop_first() =~= Seq::<u64>::empty());
        assert(spec_siblings(src, modules, t1.drop_first(), depth, budget) =~= Seq::<
            TreeLine,
        >::empty());
        assert(spec_siblings(src, modules, t1, depth, budget) =~= spec_siblings(
            src,
            modules,
            t0,
            depth,
            budget,
        ) + seq![TreeLine { id: childs[j], depth }] + spec_tree(
            src,
            modules,
            childs[j],
            spec_deeper(depth),
            (budget - 1) as nat,
        ));
    } else {
        assert(t1[0] == childs[0] && t0[0] == childs[0]);
        assert(t1.drop_first() =~= childs.drop_first().take(j));
        assert(t0.drop_first() =~= childs.drop_first().take(j - 1));
        lemma_siblings_snoc(src, modules, childs.drop_first(), depth, budget, j - 1);
        assert(childs.drop_first()[j - 1] == childs[j]);
        assert(spec_siblings(src, modules, t1, depth, budget) =~= spec_siblings(
            src,
            modules,
            t0,
            depth,
            budget,
        ) + seq![TreeLine { id: childs[j], depth }] + spec_tree(
            src,
            modules,
            childs[j],
            spec_deeper(depth),
            (budget - 1) as nat,
        ));
    }
}

/// Builds the flattened subtree below `parent`, children sorted by
/// name, depth first.
pub fn tree_lines(
    source: &DefSource,
    modules: &Vec<u64>,
    parent: u64,
    depth: usize,
    budget: usize,
) -> (r: Vec<TreeLine>)
    requires
        source.wf(),
        forall|k: int| 0 <= k < modules@.len() ==> source.spec_has(#[trigger] modules@[k]),
    ensures
        r@ == spec_tree(*source, modules@, parent, depth, budget as nat),
        forall|j: int| 0 <= j < r@.len() ==> source.spec_has((#[trigger] r@[j]).id),
    decreases budget,
{
    let ghost src = *source;
    let mut out: Vec<TreeLine> = Vec::new();
    if budget == 0 {
        return out;
    }
    let mut entries: Vec<NameEntry> = Vec::new();
    let mut i: usize = 0;
    while i < modules.len()
        invariant
            src == *source,
            source.wf(),
            forall|k: int| 0 <= k < modules@.len() ==> source.spec_has(#[trigger] modules@[k]),
            i <= modules@.len(),
            entries@ == spec_child_entries(src, modules@.subrange(0, i as int), parent),
            forall|k: int| 0 <= k < entries@.len() ==> src.spec_has((#[trigger] entries@[k]).1),
        decreases modules@.len() - i,
    {
        proof {
            assert(modules@.subrange(0, i + 1).drop_last() =~= modules@.subrange(0, i as int));
            assert(modules@.subrange(0, i + 1).last() == modules@[i as int]);
        }
        let m = modules[i];
        let d = match source.get_def(m) {
            Some(d) => d,
            None => vstd::pervasive::unreached(),
        };
        match d.parent {
            Some(p) => {
                if p == parent {
                    entries.push((d.name.clone(), m));
                }
            },
            None => {},
        }
        i = i + 1;
        assert(entries@ =~= spec_child_entries(src, modules@.subrange(0, i as int), parent));
    }
    proof {
        assert(modules@.subrange(0, modules@.len() as int) =~= modules@);
    }
    let sorted = sort_entries(&entries);
    let mut childs: Vec<u64> = Vec::new();
    let mut ci: usize = 0;
    while ci < sorted.len()
        invariant
            ci <= sorted@.len(),
            childs@.len() == ci,
            forall|k: int| 0 <= k < ci ==> childs@[k] == (#[trigger] sorted@[k]).1,
        decreases sorted@.len() - ci,
    {
        childs.push(sorted[ci].1);
        ci = ci + 1;
    }
    proof {
        assert(childs@ =~= spec_entry_ids(sorted@));
        lemma_sorted_entries_resolvable(src, entries@);
        assert forall|k: int| 0 <= k < childs@.len() implies src.spec_has(
            #[trigger] childs@[k],
        ) by {
            assert(childs@[k] == sorted@[k].1);
        }
    }
    let ghost spec_childs = spec_entry_ids(
        spec_sort_entries(spec_child_entries(src, modules@, parent)),
    );
    let mut j: usize = 0;
    while j < childs.len()
        invariant
            src == *source,
            source.wf(),
            forall|k: int| 0 <= k < modules@.len() ==> source.spec_has(#[trigger] modules@[k]),
            budget > 0,
            j <= childs@.len(),
            childs@ == spec_childs,
            forall|k: int| 0 <= k < childs@.len() ==> source.spec_has(#[trigger] childs@[k]),
            spec_childs == spec_entry_ids(
                spec_sort_entries(spec_child_entries(src, modules@, parent)),
            ),
            out@ == spec_siblings(src, modules@, childs@.take(j as int), depth, budget as nat),
            forall|k: int| 0 <= k < out@.len() ==> source.spec_has((#[trigger] out@[k]).id),
        decreases childs@.len() - j,
    {
        let c = childs[j];
        out.push(TreeLine { id: c, depth });
        let deeper = if depth == usize::MAX {
            depth
        } else {
            depth + 1
        };
        let sub = tree_lines(source, modules, c, deeper, budget - 1);
        let mut si: usize = 0;
        let ghost mid = out@;
        while si < sub.len()
            invariant
                src == *source,
                si <= sub@.len(),
                out@ == mid + sub@.subrange(0, si as int),
                forall|k: int| 0 <= k < mid.len() ==> src.spec_has((#[trigger] mid[k]).id),
                forall|k: int| 0 <= k < sub@.len() ==> src.spec_has((#[trigger] sub@[k]).id),
                forall|k: int| 0 <= k < out@.len() ==> src.spec_has((#[trigger] out@[k]).id),
            decreases sub@.len() - si,
        {
            out.push(sub[si]);
            si = si + 1;
            assert(out@ =~= mid + sub@.subrange(0, si as int));
        }
        proof {
            assert(sub@.subrange(0, sub@.len() as int) =~= sub@);
            lemma_siblings_snoc(src, modules@, childs@, depth, budget as nat, j as int);
        }
        j = j + 1;
    }
    proof {
        assert(childs@.take(childs@.len() as int) =~= childs@);
    }
    out
}

/// The derived module hierarchy, flattened to lines of id and depth:
/// the crate root first, then every module below it, children sorted
/// by name and printed before the next sibling.
#[derive(Debug)]
pub struct ModuleTree {
    /// The lines of the overview, in print order.
    pub lines: Vec<TreeLine>,
}

impl ModuleTree {
    /// Builds the module hierarchy for `root_id` from the traversal's
    /// module list.
    pub fn new(source: &DefSource, root_id: u64, modules: &Vec<u64>) -> (t: ModuleTree)
        requires
            source.wf(),
            source.spec_has(root_id),
            forall|k: int| 0 <= k < modules@.len() ==> source.spec_has(#[trigger] modules@[k]),
        ensures
            t.lines@ == seq![TreeLine { id: root_id, depth: 0 }] + spec_tree(
                *source,
                modules@,
                root_id,
                1,
                modules@.len(),
            ),
            forall|j: int| 0 <= j < t.lines@.len() ==> source.spec_has((#[trigger] t.lines@[j]).id),
    {
        let ghost src = *source;
        let mut lines: Vec<TreeLine> = Vec::new();
        lines.push(TreeLine { id: root_id, depth: 0 });
        let ghost first = lines@;
        let sub = tree_lines(source, modules, root_id, 1, modules.len());
        let mut si: usize = 0;
        while si < sub.len()
            invariant
                src == *source,
                si <= sub@.len(),
                lines@ == first + sub@.subrange(0, si as int),
                forall|k: int| 0 <= k < first.len() ==> src.spec_has((#[trigger] first[k]).id),
                forall|k: int| 0 <= k < sub@.len() ==> src.spec_has((#[trigger] sub@[k]).id),
                forall|k: int| 0 <= k < lines@.len() ==> src.spec_has((#[trigger] lines@[k]).id),
            decreases sub@.len() - si,
        {
            lines.push(sub[si]);
            si = si + 1;
            assert(lines@ =~= first + sub@.subrange(0, si as int));
        }
        proof {
            assert(sub@.subrange(0, sub@.len() as int) =~= sub@);
        }
        ModuleTree { lines }
    }
}

} // verus!
