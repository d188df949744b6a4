//! Breadth-first traversal of the definition graph.
//!
//! The walker turns the flat arena into a linear processing order:
//! it seeds a queue with the crate root's direct children, then
//! repeatedly takes the next id, appends that id's children, and
//! records the id. A pre-seen guard keeps any id from being enqueued
//! twice, so the walk terminates even on inputs that are not trees.

use vstd::prelude::*;
use vstd::seq_lib::*;
use vstd::set_lib::lemma_len_subset;

use crate::defs::{
    lemma_children_are_defs, lemma_defs_are_children, lemma_index_of, spec_index_of, DefKind,
    DefSource, Definition,
};

verus! {

/// The parent chain of `id` climbs to `root` in exactly `n + 1` steps.
pub open spec fn reaches(src: DefSource, root: u64, id: u64, n: nat) -> bool
    decreases n,
{
    src.spec_has(id) && match src.spec_parent_of(id) {
        Some(p) => if n == 0 {
            p == root
        } else {
            reaches(src, root, p, (n - 1) as nat)
        },
        None => false,
    }
}

/// Whether `id` is a descendant of `root`: some finite parent chain
/// from `id` arrives at `root`.
pub open spec fn is_descendant(src: DefSource, root: u64, id: u64) -> bool {
    exists|n: nat| reaches(src, root, id, n)
}

/// The ids among `order` whose definition has the given kind, in order.
pub open spec fn spec_classified(src: DefSource, order: Seq<u64>, kind: DefKind) -> Seq<u64>
    decreases order.len(),
{
    if order.len() == 0 {
        Seq::empty()
    } else {
        spec_classified(src, order.drop_last(), kind) + if src.spec_def_of(order.last()).kind
            == kind {
            seq![order.last()]
        } else {
            Seq::empty()
        }
    }
}

/// Appending one id to an order, unless it is already recorded.
pub open spec fn spec_enqueue_one(order: Seq<u64>, c: u64) -> Seq<u64> {
    if order.contains(c) {
        order
    } else {
        order.push(c)
    }
}

/// The order after offering every id of `kids`, left to right.
pub open spec fn spec_enqueue(order: Seq<u64>, kids: Seq<u64>) -> Seq<u64>
    decreases kids.len(),
{
    if kids.len() == 0 {
        order
    } else {
        spec_enqueue(spec_enqueue_one(order, kids[0]), kids.drop_first())
    }
}

/// Offering one more id last is offering it to the result of the rest.
pub proof fn lemma_enqueue_snoc(order: Seq<u64>, kids: Seq<u64>, c: u64)
    ensures
        spec_enqueue(order, kids.push(c)) == spec_enqueue_one(spec_enqueue(order, kids), c),
    decreases kids.len(),
{
    let s = kids.push(c);
    if kids.len() == 0 {
        assert(s[0] == c);
        assert(s.drop_first() =~= Seq::<u64>::empty());
        assert(spec_enqueue(order, s) == spec_enqueue(spec_enqueue_one(order, c), s.drop_first()));
        assert(spec_enqueue(spec_enqueue_one(order, c), s.drop_first())
            == spec_enqueue_one(order, c));
        assert(spec_enqueue(order, kids) == order);
    } else {
        let o1 = spec_enqueue_one(order, kids[0]);
        assert(s[0] == kids[0]);
        assert(s.drop_first() =~= kids.drop_first().push(c));
        assert(spec_enqueue(order, s) == spec_enqueue(o1, s.drop_first()));
        lemma_enqueue_snoc(o1, kids.drop_first(), c);
        assert(spec_enqueue(o1, kids.drop_first().push(c)) == spec_enqueue_one(
            spec_enqueue(o1, kids.drop_first()),
            c,
        ));
        assert(spec_enqueue(order, kids) == spec_enqueue(o1, kids.drop_first()));
    }
}

/// Offering ids keeps the order a no-duplicate list of resolvable ids,
/// only ever appends, and adds exactly the offered ids.
pub proof fn lemma_enqueue_props(src: DefSource, order: Seq<u64>, kids: Seq<u64>)
    requires
        order.no_duplicates(),
        forall|k: int| 0 <= k < order.len() ==> src.spec_has(#[trigger] order[k]),
        forall|j: int| 0 <= j < kids.len() ==> src.spec_has(#[trigger] kids[j]),
    ensures
        spec_enqueue(order, kids).no_duplicates(),
        forall|k: int|
            0 <= k < spec_enqueue(order, kids).len() ==> src.spec_has(
                #[trigger] spec_enqueue(order, kids)[k],
            ),
        spec_enqueue(order, kids).len() >= order.len(),
        forall|k: int|
            0 <= k < order.len() ==> spec_enqueue(order, kids)[k] == #[trigger] order[k],
        spec_enqueue(order, kids).len() > order.len() ==> kids.len() > 0,
    decreases kids.len(),
{
    if kids.len() > 0 {
        let o1 = spec_enqueue_one(order, kids[0]);
        assert(forall|j: int|
            0 <= j < kids.drop_first().len() ==> src.spec_has(
                #[trigger] kids.drop_first()[j],
            ));
        lemma_enqueue_props(src, o1, kids.drop_first());
        assert(spec_enqueue(order, kids) == spec_enqueue(o1, kids.drop_first()));
        assert forall|k: int| 0 <= k < order.len() implies spec_enqueue(order, kids)[k]
            == #[trigger] order[k] by {
            assert(o1[k] == order[k]);
            assert(spec_enqueue(o1, kids.drop_first())[k] == o1[k]);
        }
    }
}

/// The breadth-first order itself, as a function of the source and the
/// queue state: take the id at the cursor, offer its children, move on.
pub open spec fn spec_walk_from(src: DefSource, order: Seq<u64>, cursor: nat) -> Seq<u64>
    decreases src.defs@.len() + 1 - order.len(), order.len() - cursor,
        when src.wf() && cursor <= order.len() && order.no_duplicates() && (forall|k: int|
            0 <= k < order.len() ==> src.spec_has(#[trigger] order[k]))
    via spec_walk_from_decreases
{
    if cursor >= order.len() {
        order
    } else {
        spec_walk_from(
            src,
            spec_enqueue(order, src.spec_children_of(order[cursor as int])),
            cursor + 1,
        )
    }
}

#[via_fn]
proof fn spec_walk_from_decreases(src: DefSource, order: Seq<u64>, cursor: nat) {
    if cursor < order.len() {
        let kids = src.spec_children_of(order[cursor as int]);
        assert forall|j: int| 0 <= j < kids.len() implies src.spec_has(#[trigger] kids[j]) by {
            lemma_child_parent(src, order[cursor as int], j);
        }
        lemma_enqueue_props(src, order, kids);
        lemma_order_len_bound(src, spec_enqueue(order, kids));
    }
}

/// The whole breadth-first order from a root: seed with the root's
/// children and run the queue dry.
pub open spec fn spec_walk_order(src: DefSource, root: u64) -> Seq<u64> {
    spec_walk_from(src, src.spec_children_of(root), 0)
}

/// What one walk of the definition graph produces: the processing
/// order, and the classification lists the overview pages need.
pub struct Traversal {
    /// Every descendant of the root, in breadth-first order.
    pub order: Vec<u64>,
    /// The ids in `order` that are modules.
    pub module_ids: Vec<u64>,
    /// The ids in `order` that are structs.
    pub struct_ids: Vec<u64>,
    /// The ids in `order` that are traits.
    pub trait_ids: Vec<u64>,
}

/// Decides whether `v` holds `x`.
pub fn contains_id(v: &Vec<u64>, x: u64) -> (r: bool)
    ensures
        r == v@.contains(x),
{
    let mut i: usize = 0;
    while i < v.len()
        invariant
            i <= v@.len(),
            forall|k: int| 0 <= k < i ==> v@[k] != x,
        decreases v@.len() - i,
    {
        if v[i] == x {
            return true;
        }
        i = i + 1;
    }
    false
}

/// In a well-formed arena, the record at any index is what looking its
/// id up finds.
pub proof fn lemma_def_lookup(src: DefSource, k: int)
    requires
        src.wf(),
        0 <= k < src.defs@.len(),
    ensures
        src.spec_has(src.defs@[k].id),
        src.spec_def_of(src.defs@[k].id) == src.defs@[k],
    decreases k,
{
    let id = src.defs@[k].id;
    lemma_index_of(src.defs@, id);
    let i = spec_index_of(src.defs@, id);
    assert(i < src.defs@.len());
    if i != k {
        assert(src.defs@[i].id == src.defs@[k].id);
        assert(false);
    }
}

/// A no-duplicate sequence of ids that all resolve in the arena is no
/// longer than the arena.
pub proof fn lemma_order_len_bound(src: DefSource, order: Seq<u64>)
    requires
        order.no_duplicates(),
        forall|k: int| 0 <= k < order.len() ==> src.spec_has(#[trigger] order[k]),
    ensures
        order.len() <= src.defs@.len(),
{
    broadcast use vstd::set::group_set_axioms;

    let ids = src.defs@.map_values(|d: Definition| d.id);
    order.unique_seq_to_set();
    ids.lemma_cardinality_of_set();
    assert forall|x: u64| order.to_set().contains(x) implies ids.to_set().contains(x) by {
        assert(order.contains(x));
        let k = choose|k: int| 0 <= k < order.len() && order[k] == x;
        assert(src.spec_has(order[k]));
        let di = choose|di: int| 0 <= di < src.defs@.len() && (#[trigger] src.defs@[di]).id == x;
        assert(ids[di] == x);
        assert(ids.contains(x));
    }
    assert(order.to_set().subset_of(ids.to_set()));
    ids.to_set();
    vstd::seq_lib::seq_to_set_is_finite(ids);
    lemma_len_subset(order.to_set(), ids.to_set());
}

/// The id at any index of the derived child list belongs to a record
/// whose parent is the queried id; in a well-formed arena that record
/// is the one its id looks up.
pub proof fn lemma_child_parent(src: DefSource, id: u64, j: int)
    requires
        src.wf(),
        0 <= j < src.spec_children_of(id).len(),
    ensures
        src.spec_has(src.spec_children_of(id)[j]),
        src.spec_parent_of(src.spec_children_of(id)[j]) == Some(id),
{
    lemma_children_are_defs(src.defs@, id, j);
    let k = choose|k: int|
        0 <= k < src.defs@.len() && (#[trigger] src.defs@[k]).id == src.spec_children_of(id)[j]
            && src.defs@[k].parent == Some(id);
    lemma_def_lookup(src, k);
}

/// A derived child list never repeats an id in a well-formed arena.
pub proof fn lemma_children_no_dup(src: DefSource, id: u64)
    requires
        src.wf(),
    ensures
        src.spec_children_of(id).no_duplicates(),
{
    lemma_children_no_dup_in(src, src.defs@.len() as int, id);
    assert(src.defs@.subrange(0, src.defs@.len() as int) =~= src.defs@);
}

/// Child ids derived from a prefix of a well-formed arena are distinct,
/// and each occurs in that prefix.
proof fn lemma_children_no_dup_in(src: DefSource, n: int, id: u64)
    requires
        src.wf(),
        0 <= n <= src.defs@.len(),
    ensures
        crate::defs::spec_children_in(src.defs@.subrange(0, n), id).no_duplicates(),
        forall|j: int|
            0 <= j < crate::defs::spec_children_in(src.defs@.subrange(0, n), id).len()
                ==> exists|k: int|
                0 <= k < n && (#[trigger] src.defs@[k]).id == #[trigger] crate::defs::spec_children_in(
                    src.defs@.subrange(0, n),
                    id,
                )[j],
    decreases n,
{
    if n > 0 {
        lemma_children_no_dup_in(src, n - 1, id);
        let prev = crate::defs::spec_children_in(src.defs@.subrange(0, n - 1), id);
        let cur = crate::defs::spec_children_in(src.defs@.subrange(0, n), id);
        assert(src.defs@.subrange(0, n).drop_last() =~= src.defs@.subrange(0, n - 1));
        assert(src.defs@.subrange(0, n).last() == src.defs@[n - 1]);
        if src.defs@[n - 1].parent == Some(id) {
            assert(cur =~= prev.push(src.defs@[n - 1].id));
            assert forall|j: int| 0 <= j < prev.len() implies prev[j] != src.defs@[n - 1].id by {
                let k = choose|k: int|
                    0 <= k < n - 1 && (#[trigger] src.defs@[k]).id == prev[j];
            }
        } else {
            assert(cur =~= prev);
        }
    }
}

/// Walks every descendant of `root_id` exactly once, breadth first.
///
/// The order contains exactly the ids whose parent chain reaches
/// `root_id`, without repetition, and every id's parent is recorded
/// before it (or is the root itself). The classification lists are the
/// modules, structs and traits of the order, kept in traversal order.
pub fn walk(source: &DefSource, root_id: u64) -> (t: Traversal)
    requires
        source.wf(),
    ensures
        t.order@.no_duplicates(),
        forall|k: int| 0 <= k < t.order@.len() ==> source.spec_has(#[trigger] t.order@[k]),
        forall|id: u64| #[trigger]
            t.order@.contains(id) <==> is_descendant(*source, root_id, id),
        forall|k: int|
            0 <= k < t.order@.len() ==> (#[trigger] source.spec_parent_of(t.order@[k]))
                is Some,
        forall|k: int|
            0 <= k < t.order@.len() ==> source.spec_parent_of(#[trigger] t.order@[k])->Some_0
                == root_id || exists|j: int|
                0 <= j < k && t.order@[j] == source.spec_parent_of(t.order@[k])->Some_0,
        t.order@ == spec_walk_order(*source, root_id),
        t.module_ids@ == spec_classified(*source, t.order@, DefKind::Mod),
        t.struct_ids@ == spec_classified(*source, t.order@, DefKind::Struct),
        t.trait_ids@ == spec_classified(*source, t.order@, DefKind::Trait),
{
    let ghost src = *source;
    let ghost n_defs = source.defs@.len() as int;
    let mut order: Vec<u64> = source.children_of(root_id);
    proof {
        lemma_children_no_dup(src, root_id);
        assert forall|k: int| 0 <= k < order@.len() implies src.spec_has(
            #[trigger] order@[k],
        ) by {
            lemma_child_parent(src, root_id, k);
        }
        assert forall|k: int| 0 <= k < order@.len() implies is_descendant(
            src,
            root_id,
            order@[k],
        ) by {
            lemma_child_parent(src, root_id, k);
            assert(reaches(src, root_id, order@[k], 0));
        }
        assert forall|k: int| 0 <= k < order@.len() implies src.spec_parent_of(
            #[trigger] order@[k],
        ) == Some(root_id) by {
            lemma_child_parent(src, root_id, k);
        }
        lemma_order_len_bound(src, order@);
        assert forall|di: int|
            0 <= di < src.defs@.len() && (#[trigger] src.defs@[di]).parent is Some && (
            src.defs@[di].parent->Some_0 == root_id || order@.subrange(0, 0).contains(
                src.defs@[di].parent->Some_0,
            )) implies order@.contains(src.defs@[di].id) by {
            if src.defs@[di].parent->Some_0 == root_id {
                lemma_defs_are_children(src.defs@, root_id, di);
            }
        }
    }
    let mut module_ids: Vec<u64> = Vec::new();
    let mut struct_ids: Vec<u64> = Vec::new();
    let mut trait_ids: Vec<u64> = Vec::new();
    let mut cursor: usize = 0;
    while cursor < order.len()
        invariant
            src == *source,
            source.wf(),
            n_defs == src.defs@.len(),
            cursor <= order@.len(),
            order@.len() <= n_defs,
            order@.no_duplicates(),
            forall|k: int| 0 <= k < order@.len() ==> src.spec_has(#[trigger] order@[k]),
            forall|k: int|
                0 <= k < order@.len() ==> is_descendant(src, root_id, #[trigger] order@[k]),
            forall|k: int|
                0 <= k < order@.len() ==> (#[trigger] src.spec_parent_of(order@[k])) is Some,
            forall|k: int|
                0 <= k < order@.len() ==> src.spec_parent_of(#[trigger] order@[k])->Some_0
                    == root_id || exists|j: int|
                    0 <= j < k && order@[j] == src.spec_parent_of(order@[k])->Some_0,
            forall|di: int|
                0 <= di < src.defs@.len() && (#[trigger] src.defs@[di]).parent is Some && (
                src.defs@[di].parent->Some_0 == root_id || order@.subrange(
                    0,
                    cursor as int,
                ).contains(src.defs@[di].parent->Some_0)) ==> order@.contains(
                    src.defs@[di].id,
                ),
            module_ids@ == spec_classified(src, order@.subrange(0, cursor as int), DefKind::Mod),
            struct_ids@ == spec_classified(
                src,
                order@.subrange(0, cursor as int),
                DefKind::Struct,
            ),
            trait_ids@ == spec_classified(src, order@.subrange(0, cursor as int), DefKind::Trait),
            spec_walk_from(src, order@, cursor as nat) == spec_walk_order(src, root_id),
        decreases n_defs + 1 - order@.len(), order@.len() - cursor,
    {
        let id = order[cursor];
        let d = match source.get_def(id) {
            Some(d) => d,
            None => {
                proof {
                    assert(src.spec_has(id));
                }
                vstd::pervasive::unreached()
            },
        };
        let ghost pre = order@;
        proof {
            assert(pre.subrange(0, cursor + 1).drop_last() =~= pre.subrange(0, cursor as int));
            assert(pre.subrange(0, cursor + 1).last() == id);
        }
        match d.kind {
            DefKind::Mod => module_ids.push(id),
            DefKind::Struct => struct_ids.push(id),
            DefKind::Trait => trait_ids.push(id),
            _ => {},
        }
        proof {
            assert(module_ids@ =~= spec_classified(src, pre.subrange(0, cursor + 1), DefKind::Mod));
            assert(struct_ids@ =~= spec_classified(
                src,
                pre.subrange(0, cursor + 1),
                DefKind::Struct,
            ));
            assert(trait_ids@ =~= spec_classified(
                src,
                pre.subrange(0, cursor + 1),
                DefKind::Trait,
            ));
        }
        let kids = source.children_of(id);
        proof {
            assert(kids@.subrange(0, 0) =~= Seq::<u64>::empty());
            assert(spec_enqueue(pre, kids@.subrange(0, 0)) == pre);
        }
        let mut ci: usize = 0;
        while ci < kids.len()
            invariant
                src == *source,
                source.wf(),
                n_defs == src.defs@.len(),
                cursor < order@.len(),
                order@.len() <= n_defs,
                ci <= kids@.len(),
                kids@ == src.spec_children_of(id),
                id == order@[cursor as int],
                id == pre[cursor as int],
                pre.len() <= order@.len(),
                cursor + 1 <= pre.len(),
                pre.no_duplicates(),
                forall|k: int| 0 <= k < pre.len() ==> src.spec_has(#[trigger] pre[k]),
                order@.subrange(0, cursor + 1) == pre.subrange(0, cursor + 1),
                order@.no_duplicates(),
                forall|k: int| 0 <= k < order@.len() ==> src.spec_has(#[trigger] order@[k]),
                forall|k: int|
                    0 <= k < order@.len() ==> is_descendant(src, root_id, #[trigger] order@[k]),
                forall|k: int|
                    0 <= k < order@.len() ==> (#[trigger] src.spec_parent_of(order@[k])) is Some,
                forall|k: int|
                    0 <= k < order@.len() ==> src.spec_parent_of(#[trigger] order@[k])->Some_0
                        == root_id || exists|j: int|
                        0 <= j < k && order@[j] == src.spec_parent_of(order@[k])->Some_0,
                forall|di: int|
                    0 <= di < src.defs@.len() && (#[trigger] src.defs@[di]).parent is Some && (
                    src.defs@[di].parent->Some_0 == root_id || order@.subrange(
                        0,
                        cursor as int,
                    ).contains(src.defs@[di].parent->Some_0)) ==> order@.contains(
                        src.defs@[di].id,
                    ),
                forall|j: int| 0 <= j < ci ==> order@.contains(#[trigger] kids@[j]),
                order@ == spec_enqueue(pre, kids@.subrange(0, ci as int)),
                spec_walk_from(src, pre, cursor as nat) == spec_walk_order(src, root_id),
                module_ids@ == spec_classified(src, pre.subrange(0, cursor + 1), DefKind::Mod),
                struct_ids@ == spec_classified(src, pre.subrange(0, cursor + 1), DefKind::Struct),
                trait_ids@ == spec_classified(src, pre.subrange(0, cursor + 1), DefKind::Trait),
            decreases kids@.len() - ci,
        {
            let c = kids[ci];
            if !contains_id(&order, c) {
                let ghost before = order@;
                proof {
                    lemma_child_parent(src, id, ci as int);
                    let n = choose|n: nat| reaches(src, root_id, id, n);
                    assert(reaches(src, root_id, c, n + 1));
                }
                order.push(c);
                proof {
                    assert(order@.drop_last() == before);
                    assert(order@.subrange(0, cursor + 1) =~= before.subrange(0, cursor + 1));
                    assert(order@.subrange(0, cursor as int) =~= before.subrange(
                        0,
                        cursor as int,
                    ));
                    lemma_order_len_bound(src, order@);
                    assert forall|k: int| 0 <= k < order@.len() implies src.spec_parent_of(
                        #[trigger] order@[k],
                    )->Some_0 == root_id || exists|j: int|
                        0 <= j < k && order@[j] == src.spec_parent_of(order@[k])->Some_0 by {
                        if k < before.len() {
                            assert(order@[k] == before[k]);
                            if src.spec_parent_of(before[k])->Some_0 != root_id {
                                let j = choose|j: int|
                                    0 <= j < k && before[j] == src.spec_parent_of(
                                        before[k],
                                    )->Some_0;
                                assert(order@[j] == src.spec_parent_of(order@[k])->Some_0);
                            }
                        } else {
                            assert(order@[k] == c);
                            assert(src.spec_parent_of(c) == Some(id));
                            assert(order@[cursor as int] == id);
                        }
                    }
                    assert forall|di: int|
                        0 <= di < src.defs@.len() && (#[trigger] src.defs@[di]).parent is Some
                            && (src.defs@[di].parent->Some_0 == root_id || order@.subrange(
                            0,
                            cursor as int,
                        ).contains(src.defs@[di].parent->Some_0)) implies order@.contains(
                        src.defs@[di].id,
                    ) by {
                        assert(before.contains(src.defs@[di].id) ==> order@.contains(
                            src.defs@[di].id,
                        ));
                    }
                    assert forall|j: int| 0 <= j < ci implies order@.contains(
                        #[trigger] kids@[j],
                    ) by {
                        assert(before.contains(kids@[j]));
                        let m = choose|m: int| 0 <= m < before.len() && before[m] == kids@[j];
                        assert(order@[m] == kids@[j]);
                    }
                    assert(order@[order@.len() - 1] == c);
                    assert(order@.contains(c));
                }
            }
            assert(order@.contains(c));
            proof {
                assert(kids@.subrange(0, ci + 1) =~= kids@.subrange(0, ci as int).push(
                    kids@[ci as int],
                ));
                lemma_enqueue_snoc(pre, kids@.subrange(0, ci as int), kids@[ci as int]);
            }
            ci = ci + 1;
        }
        proof {
            assert(kids@.subrange(0, kids@.len() as int) =~= kids@);
            assert(order@ == spec_enqueue(pre, kids@));
            assert(spec_walk_from(src, pre, cursor as nat) == spec_walk_from(
                src,
                spec_enqueue(pre, src.spec_children_of(pre[cursor as int])),
                (cursor + 1) as nat,
            ));
            assert(spec_walk_from(src, order@, (cursor + 1) as nat) == spec_walk_order(
                src,
                root_id,
            ));
            assert forall|di: int|
                0 <= di < src.defs@.len() && (#[trigger] src.defs@[di]).parent is Some && (
                src.defs@[di].parent->Some_0 == root_id || order@.subrange(0, cursor + 1).contains(
                    src.defs@[di].parent->Some_0,
                )) implies order@.contains(src.defs@[di].id) by {
                let p = src.defs@[di].parent->Some_0;
                if p != root_id {
                    let prefix = order@.subrange(0, cursor + 1);
                    if prefix.contains(p) {
                        let k = choose|k: int| 0 <= k < prefix.len() && prefix[k] == p;
                        if k < cursor {
                            assert(order@.subrange(0, cursor as int)[k] == p);
                            assert(order@.subrange(0, cursor as int).contains(p));
                        } else {
                            assert(p == id);
                            lemma_defs_are_children(src.defs@, id, di);
                            let j = choose|j: int|
                                0 <= j < kids@.len() && kids@[j] == src.defs@[di].id;
                            assert(order@.contains(kids@[j]));
                        }
                    }
                }
            }
        }
        cursor = cursor + 1;
    }
    proof {
        assert(order@.subrange(0, cursor as int) =~= order@);
        assert(spec_walk_from(src, order@, cursor as nat) == order@);
        assert forall|id: u64| #[trigger]
            order@.contains(id) <==> is_descendant(src, root_id, id) by {
            if order@.contains(id) {
                let k = choose|k: int| 0 <= k < order@.len() && order@[k] == id;
                assert(is_descendant(src, root_id, order@[k]));
            }
            if is_descendant(src, root_id, id) {
                let n = choose|n: nat| reaches(src, root_id, id, n);
                lemma_walk_complete(src, root_id, order@, id, n);
            }
        }
    }
    Traversal { order, module_ids, struct_ids, trait_ids }
}

/// The depth of a descendant: how many further steps its parent chain
/// takes to the root. A direct child of the root has depth zero.
pub open spec fn spec_depth(src: DefSource, root: u64, id: u64) -> nat {
    choose|n: nat| reaches(src, root, id, n)
}

/// Below a root that is not its own descendant, the parent chain's
/// length is unique, so the depth is well defined.
pub proof fn lemma_depth_unique(src: DefSource, root: u64, id: u64, n1: nat, n2: nat)
    requires
        !is_descendant(src, root, root),
        reaches(src, root, id, n1),
        reaches(src, root, id, n2),
    ensures
        n1 == n2,
    decreases n1,
{
    let p = src.spec_parent_of(id)->Some_0;
    if n1 == 0 {
        if n2 != 0 {
            assert(reaches(src, root, root, (n2 - 1) as nat));
            assert(is_descendant(src, root, root));
        }
    } else {
        if n2 == 0 {
            assert(reaches(src, root, root, (n1 - 1) as nat));
            assert(is_descendant(src, root, root));
        } else {
            lemma_depth_unique(src, root, p, (n1 - 1) as nat, (n2 - 1) as nat);
        }
    }
}

/// A witnessed chain length is the depth.
pub proof fn lemma_depth_of(src: DefSource, root: u64, id: u64, n: nat)
    requires
        !is_descendant(src, root, root),
        reaches(src, root, id, n),
    ensures
        spec_depth(src, root, id) == n,
{
    let m = choose|m: nat| reaches(src, root, id, m);
    lemma_depth_unique(src, root, id, m, n);
}

/// A child of a descendant is a descendant one level deeper.
proof fn lemma_child_depth(src: DefSource, root: u64, p: u64, c: u64)
    requires
        !is_descendant(src, root, root),
        is_descendant(src, root, p),
        src.spec_has(c),
        src.spec_parent_of(c) == Some(p),
    ensures
        is_descendant(src, root, c),
        spec_depth(src, root, c) == spec_depth(src, root, p) + 1,
{
    let n = choose|n: nat| reaches(src, root, p, n);
    lemma_depth_of(src, root, p, n);
    assert(reaches(src, root, c, n + 1));
    lemma_depth_of(src, root, c, n + 1);
}

/// Offering ids appends: the prefix is kept, and everything appended
/// comes from the offered ids.
proof fn lemma_enqueue_shape(order: Seq<u64>, kids: Seq<u64>)
    ensures
        spec_enqueue(order, kids).len() >= order.len(),
        forall|k: int|
            0 <= k < order.len() ==> spec_enqueue(order, kids)[k] == #[trigger] order[k],
        forall|k: int|
            order.len() <= k < spec_enqueue(order, kids).len() ==> kids.contains(
                #[trigger] spec_enqueue(order, kids)[k],
            ),
    decreases kids.len(),
{
    if kids.len() > 0 {
        let o1 = spec_enqueue_one(order, kids[0]);
        lemma_enqueue_shape(o1, kids.drop_first());
        let r = spec_enqueue(order, kids);
        assert(r == spec_enqueue(o1, kids.drop_first()));
        assert forall|k: int| 0 <= k < order.len() implies r[k] == #[trigger] order[k] by {
            assert(spec_enqueue(o1, kids.drop_first())[k] == o1[k]);
            assert(o1[k] == order[k]);
        }
        assert forall|k: int| order.len() <= k < r.len() implies kids.contains(
            #[trigger] r[k],
        ) by {
            if k < o1.len() {
                assert(r[k] == o1[k]);
                assert(o1[k] == kids[0]);
            } else {
                assert(kids.drop_first().contains(r[k]));
                let m = choose|m: int|
                    0 <= m < kids.drop_first().len() && kids.drop_first()[m] == r[k];
                assert(kids[m + 1] == r[k]);
            }
        }
    }
}

/// The queue discipline keeps depths stratified: with depths along the
/// pending part never decreasing and never more than one above the
/// front, taking the front and offering its children (one level deeper)
/// keeps both, so the finished order's depths never decrease.
proof fn lemma_walk_from_stratified(src: DefSource, root: u64, order: Seq<u64>, cursor: nat)
    requires
        src.wf(),
        !is_descendant(src, root, root),
        cursor <= order.len(),
        order.no_duplicates(),
        forall|k: int| 0 <= k < order.len() ==> src.spec_has(#[trigger] order[k]),
        forall|k: int|
            0 <= k < order.len() ==> is_descendant(src, root, #[trigger] order[k]),
        forall|i: int, j: int|
            0 <= i < j < order.len() ==> spec_depth(src, root, #[trigger] order[i]) <= spec_depth(
                src,
                root,
                #[trigger] order[j],
            ),
        forall|k: int|
            cursor <= k < order.len() ==> spec_depth(src, root, #[trigger] order[k]) <= spec_depth(
                src,
                root,
                order[cursor as int],
            ) + 1,
    ensures
        forall|i: int, j: int|
            0 <= i < j < spec_walk_from(src, order, cursor).len() ==> spec_depth(
                src,
                root,
                #[trigger] spec_walk_from(src, order, cursor)[i],
            ) <= spec_depth(src, root, #[trigger] spec_walk_from(src, order, cursor)[j]),
    decreases src.defs@.len() + 1 - order.len(), order.len() - cursor,
{
    if cursor < order.len() {
        let id = order[cursor as int];
        let d = spec_depth(src, root, id);
        let kids = src.spec_children_of(id);
        let order2 = spec_enqueue(order, kids);
        assert forall|j: int| 0 <= j < kids.len() implies src.spec_has(#[trigger] kids[j])
            && src.spec_parent_of(kids[j]) == Some(id) by {
            lemma_child_parent(src, id, j);
        }
        lemma_enqueue_props(src, order, kids);
        lemma_enqueue_shape(order, kids);
        lemma_order_len_bound(src, order2);
        assert forall|k: int|
            order.len() <= k < order2.len() implies is_descendant(src, root, #[trigger] order2[k])
            && spec_depth(src, root, order2[k]) == d + 1 by {
            assert(kids.contains(order2[k]));
            let m = choose|m: int| 0 <= m < kids.len() && kids[m] == order2[k];
            lemma_child_depth(src, root, id, kids[m]);
        }
        assert forall|k: int| 0 <= k < order2.len() implies is_descendant(
            src,
            root,
            #[trigger] order2[k],
        ) by {
            if k < order.len() {
                assert(order2[k] == order[k]);
            }
        }
        assert forall|i: int, j: int|
            0 <= i < j < order2.len() implies spec_depth(src, root, #[trigger] order2[i])
            <= spec_depth(src, root, #[trigger] order2[j]) by {
            if j < order.len() {
                assert(order2[i] == order[i] && order2[j] == order[j]);
            } else if i < order.len() {
                assert(order2[i] == order[i]);
                assert(spec_depth(src, root, order2[j]) == d + 1);
                if i <= cursor {
                    if i < cursor {
                        assert(spec_depth(src, root, order[i]) <= spec_depth(src, root, order[cursor as int]));
                    }
                    assert(spec_depth(src, root, order[i]) <= d);
                } else {
                    assert(spec_depth(src, root, order[i]) <= d + 1);
                }
            }
        }
        if cursor + 1 < order2.len() {
            let front = order2[cursor as int + 1];
            assert(spec_depth(src, root, front) >= d) by {
                if cursor + 1 < order.len() {
                    assert(order2[cursor as int + 1] == order[cursor as int + 1]);
                    assert(spec_depth(src, root, order[cursor as int]) <= spec_depth(
                        src,
                        root,
                        order[cursor as int + 1],
                    ));
                } else {
                    assert(spec_depth(src, root, front) == d + 1);
                }
            }
            assert forall|k: int|
                cursor + 1 <= k < order2.len() implies spec_depth(src, root, #[trigger] order2[k])
                <= spec_depth(src, root, order2[cursor as int + 1]) + 1 by {
                if k < order.len() {
                    assert(order2[k] == order[k]);
                    assert(spec_depth(src, root, order[k]) <= d + 1);
                } else {
                    assert(spec_depth(src, root, order2[k]) == d + 1);
                }
            }
        }
        lemma_walk_from_stratified(src, root, order2, cursor + 1);
        assert(spec_walk_from(src, order, cursor) == spec_walk_from(src, order2, cursor + 1));
    }
}

/// A root without a parent back-reference (or without a record at all,
/// as the analysis delivers crate roots) can never be its own
/// descendant, which discharges the tree hypothesis of the
/// stratification law for ordinary sources.
pub proof fn lemma_root_not_descendant(src: DefSource, root: u64)
    requires
        !src.spec_has(root) || src.spec_parent_of(root) is None,
    ensures
        !is_descendant(src, root, root),
{
    if is_descendant(src, root, root) {
        let n = choose|n: nat| reaches(src, root, root, n);
        assert(src.spec_has(root) && src.spec_parent_of(root) is Some);
    }
}

/// Breadth-first stratification: over a definition tree (a source whose
/// root is not its own descendant), the traversal records every id at a
/// given depth before any id one level deeper, since depths along the
/// order never decrease. With `walk` pinning its order to
/// `spec_walk_order`, this is the by-depth half of the breadth-first
/// property; the parent-before-child half is an ensures of `walk`.
pub proof fn lemma_walk_breadth_first(src: DefSource, root: u64)
    requires
        src.wf(),
        !is_descendant(src, root, root),
    ensures
        forall|i: int, j: int|
            0 <= i < j < spec_walk_order(src, root).len() ==> spec_depth(
                src,
                root,
                #[trigger] spec_walk_order(src, root)[i],
            ) <= spec_depth(src, root, #[trigger] spec_walk_order(src, root)[j]),
{
    let seeds = src.spec_children_of(root);
    lemma_children_no_dup(src, root);
    assert forall|k: int| 0 <= k < seeds.len() implies src.spec_has(#[trigger] seeds[k])
        && is_descendant(src, root, seeds[k]) && spec_depth(src, root, seeds[k]) == 0 by {
        lemma_child_parent(src, root, k);
        assert(reaches(src, root, seeds[k], 0));
        lemma_depth_of(src, root, seeds[k], 0);
    }
    lemma_walk_from_stratified(src, root, seeds, 0);
}

/// Every id a classification list holds comes from the order, so it
/// resolves whenever every id of the order does.
pub proof fn lemma_classified_resolvable(src: DefSource, order: Seq<u64>, kind: DefKind)
    requires
        forall|k: int| 0 <= k < order.len() ==> src.spec_has(#[trigger] order[k]),
    ensures
        forall|j: int|
            0 <= j < spec_classified(src, order, kind).len() ==> src.spec_has(
                #[trigger] spec_classified(src, order, kind)[j],
            ),
    decreases order.len(),
{
    if order.len() > 0 {
        assert(forall|k: int|
            0 <= k < order.drop_last().len() ==> #[trigger] order.drop_last()[k] == order[k]);
        lemma_classified_resolvable(src, order.drop_last(), kind);
        let whole = spec_classified(src, order, kind);
        let prefix = spec_classified(src, order.drop_last(), kind);
        assert forall|j: int| 0 <= j < whole.len() implies src.spec_has(
            #[trigger] whole[j],
        ) by {
            if j < prefix.len() {
                assert(whole[j] == prefix[j]);
            } else {
                assert(whole[j] == order.last());
            }
        }
    }
}

/// Deterministic ordering: two walks of an unchanged definition source
/// from the same root produce identical traversal orders and identical
/// classification lists, so the overview pages they feed cannot churn
/// between runs without a source change.
pub proof fn lemma_walk_deterministic(src: DefSource, root: u64, t1: Traversal, t2: Traversal)
    requires
        src.wf(),
        t1.order@ == spec_walk_order(src, root),
        t1.module_ids@ == spec_classified(src, t1.order@, DefKind::Mod),
        t1.struct_ids@ == spec_classified(src, t1.order@, DefKind::Struct),
        t1.trait_ids@ == spec_classified(src, t1.order@, DefKind::Trait),
        t2.order@ == spec_walk_order(src, root),
        t2.module_ids@ == spec_classified(src, t2.order@, DefKind::Mod),
        t2.struct_ids@ == spec_classified(src, t2.order@, DefKind::Struct),
        t2.trait_ids@ == spec_classified(src, t2.order@, DefKind::Trait),
    ensures
        t1.order@ == t2.order@,
        t1.module_ids@ == t2.module_ids@,
        t1.struct_ids@ == t2.struct_ids@,
        t1.trait_ids@ == t2.trait_ids@,
{
}

/// Once the walk's order is closed under taking children (of the root
/// and of anything already recorded), it holds every descendant.
proof fn lemma_walk_complete(src: DefSource, root: u64, order: Seq<u64>, id: u64, n: nat)
    requires
        src.wf(),
        forall|di: int|
            0 <= di < src.defs@.len() && (#[trigger] src.defs@[di]).parent is Some && (
            src.defs@[di].parent->Some_0 == root || order.contains(
                src.defs@[di].parent->Some_0,
            )) ==> order.contains(src.defs@[di].id),
        reaches(src, root, id, n),
    ensures
        order.contains(id),
    decreases n,
{
    lemma_index_of(src.defs@, id);
    let di = spec_index_of(src.defs@, id);
    assert(src.spec_def_of(id) == src.defs@[di]);
    let p = src.spec_parent_of(id)->Some_0;
    if n == 0 {
        assert(src.defs@[di].parent == Some(root));
    } else {
        lemma_walk_complete(src, root, order, p, (n - 1) as nat);
        assert(src.defs@[di].parent == Some(p));
    }
}

} // verus!
