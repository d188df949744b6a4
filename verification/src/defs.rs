//! The flat, id-indexed collection of declaration records that a
//! build pass documents.
//!
//! The analysis backend delivers declarations as an arena keyed by
//! opaque ids with parent back-references; adjacency is derived from
//! those back-references, never stored.

use vstd::prelude::*;

verus! {

/// The kind of one declaration. Only the first eight are documentable;
/// the rest are traversed for their children but never rendered.
#[derive(Debug, PartialEq, Eq, Structural, Clone, Copy)]
pub enum DefKind {
    /// A module.
    Mod,
    /// A struct.
    Struct,
    /// An enum.
    Enum,
    /// A trait.
    Trait,
    /// A free function.
    Function,
    /// A type alias.
    Type,
    /// A static item.
    Static,
    /// A constant.
    Const,
    /// A field of a struct or enum; traversed, never rendered.
    Field,
    /// A tuple; traversed, never rendered.
    Tuple,
    /// A local binding; traversed, never rendered.
    Local,
    /// Anything else the analysis reports; traversed, never rendered.
    Other,
}

/// One declaration record from the analysis source.
#[derive(Debug, Clone)]
pub struct Definition {
    /// Opaque identifier, unique within one analysis load.
    pub id: u64,
    /// What sort of declaration this is.
    pub kind: DefKind,
    /// The unqualified name; empty for the synthetic crate root.
    pub name: String,
    /// The fully qualified path, crate name first.
    pub qualname: String,
    /// The id of the containing declaration, if any.
    pub parent: Option<u64>,
    /// Raw documentation text, one leading space per line still attached.
    pub docs: String,
    /// The declaration's signature text.
    pub value: String,
}

/// The id-indexed arena of declarations for one analysis load.
#[derive(Debug, Clone)]
pub struct DefSource {
    /// The declaration records, in the order the backend delivered them.
    pub defs: Vec<Definition>,
}

/// The index of the first record carrying `id`, or the length when none
/// does.
pub open spec fn spec_index_of(defs: Seq<Definition>, id: u64) -> int
    decreases defs.len(),
{
    if defs.len() == 0 {
        0
    } else if defs[0].id == id {
        0
    } else {
        1 + spec_index_of(defs.drop_first(), id)
    }
}

/// The found index is in range exactly when some record carries the id,
/// and is then the first such index.
pub proof fn lemma_index_of(defs: Seq<Definition>, id: u64)
    ensures
        0 <= spec_index_of(defs, id) <= defs.len(),
        spec_index_of(defs, id) < defs.len() ==> defs[spec_index_of(defs, id)].id == id,
        forall|k: int| 0 <= k < spec_index_of(defs, id) ==> (#[trigger] defs[k]).id != id,
        (exists|k: int| 0 <= k < defs.len() && (#[trigger] defs[k]).id == id) ==> spec_index_of(
            defs,
            id,
        ) < defs.len(),
    decreases defs.len(),
{
    if defs.len() > 0 && defs[0].id != id {
        let rest = defs.drop_first();
        lemma_index_of(rest, id);
        assert(forall|k: int| 0 <= k < rest.len() ==> rest[k] == defs[k + 1]);
        if exists|k: int| 0 <= k < defs.len() && (#[trigger] defs[k]).id == id {
            let k = choose|k: int| 0 <= k < defs.len() && (#[trigger] defs[k]).id == id;
            assert(rest[k - 1].id == id);
        }
        assert forall|k: int| 0 <= k < spec_index_of(defs, id) implies (#[trigger] defs[k]).id
            != id by {
            if k > 0 {
                assert(rest[k - 1].id != id);
            }
        }
    }
}

impl DefSource {
    /// Ids are unique across the arena.
    pub open spec fn wf(&self) -> bool {
        forall|i: int, j: int|
            0 <= i < j < self.defs@.len() ==> (#[trigger] self.defs@[i]).id != (
            #[trigger] self.defs@[j]).id
    }

    /// Whether some record carries `id`.
    pub open spec fn spec_has(&self, id: u64) -> bool {
        exists|k: int| 0 <= k < self.defs@.len() && (#[trigger] self.defs@[k]).id == id
    }

    /// The record carrying `id` (the first, when ids repeat).
    pub open spec fn spec_def_of(&self, id: u64) -> Definition {
        self.defs@[spec_index_of(self.defs@, id)]
    }

    /// The parent back-reference of the record carrying `id`.
    pub open spec fn spec_parent_of(&self, id: u64) -> Option<u64> {
        self.spec_def_of(id).parent
    }

    /// Fetches the declaration with the given id. A miss means a
    /// previously enqueued id vanished, which the walker never lets
    /// happen; callers that hand in foreign ids treat it as fatal.
    pub fn get_def(&self, id: u64) -> (r: Option<&Definition>)
        ensures
            match r {
                Some(d) => self.spec_has(id) && *d == self.spec_def_of(id),
                None => !self.spec_has(id),
            },
    {
        proof {
            lemma_index_of(self.defs@, id);
        }
        let mut i: usize = 0;
        while i < self.defs.len()
            invariant
                i <= self.defs@.len(),
                forall|k: int| 0 <= k < i ==> (#[trigger] self.defs@[k]).id != id,
            decreases self.defs@.len() - i,
        {
            if self.defs[i].id == id {
                proof {
                    lemma_index_of(self.defs@, id);
                    assert(spec_index_of(self.defs@, id) == i);
                }
                return Some(&self.defs[i]);
            }
            i = i + 1;
        }
        None
    }

    /// The ids of the records whose parent is `id`, in arena order.
    pub open spec fn spec_children_of(&self, id: u64) -> Seq<u64> {
        spec_children_in(self.defs@, id)
    }

    /// Collects the ids of the direct children of `id`.
    pub fn children_of(&self, id: u64) -> (r: Vec<u64>)
        ensures
            r@ == self.spec_children_of(id),
    {
        let mut r: Vec<u64> = Vec::new();
        let mut i: usize = 0;
        while i < self.defs.len()
            invariant
                i <= self.defs@.len(),
                r@ == spec_children_in(self.defs@.subrange(0, i as int), id),
            decreases self.defs@.len() - i,
        {
            proof {
                assert(self.defs@.subrange(0, i + 1).drop_last() =~= self.defs@.subrange(
                    0,
                    i as int,
                ));
                assert(self.defs@.subrange(0, i + 1).last() == self.defs@[i as int]);
            }
            let d = &self.defs[i];
            match d.parent {
                Some(p) => {
                    if p == id {
                        r.push(d.id);
                    }
                },
                None => {},
            }
            i = i + 1;
        }
        proof {
            assert(self.defs@.subrange(0, self.defs@.len() as int) =~= self.defs@);
        }
        r
    }

    /// The ids and names of the records without a parent: the roots the
    /// analysis load offers.
    pub open spec fn spec_roots(&self) -> Seq<(u64, String)> {
        spec_roots_in(self.defs@)
    }

    /// Collects the analysis roots as id and name pairs.
    pub fn def_roots(&self) -> (r: Vec<(u64, String)>)
        ensures
            r@ == self.spec_roots(),
    {
        let mut r: Vec<(u64, String)> = Vec::new();
        let mut i: usize = 0;
        while i < self.defs.len()
            invariant
                i <= self.defs@.len(),
                r@ == spec_roots_in(self.defs@.subrange(0, i as int)),
            decreases self.defs@.len() - i,
        {
            proof {
                assert(self.defs@.subrange(0, i + 1).drop_last() =~= self.defs@.subrange(
                    0,
                    i as int,
                ));
                assert(self.defs@.subrange(0, i + 1).last() == self.defs@[i as int]);
            }
            let d = &self.defs[i];
            match d.parent {
                None => {
                    r.push((d.id, d.name.clone()));
                },
                Some(_) => {},
            }
            i = i + 1;
        }
        proof {
            assert(self.defs@.subrange(0, self.defs@.len() as int) =~= self.defs@);
        }
        r
    }

    /// The index of the first root named `name`, or the root count when
    /// none matches.
    pub open spec fn spec_root_index(&self, name: Seq<char>) -> int {
        spec_root_index_in(self.spec_roots(), name)
    }

    /// Whether some analysis root carries the given name.
    pub open spec fn spec_has_root(&self, name: Seq<char>) -> bool {
        exists|k: int|
            0 <= k < self.spec_roots().len() && (#[trigger] self.spec_roots()[k]).1@ == name
    }

    /// The id of the first analysis root carrying the name.
    pub open spec fn spec_root_id(&self, name: Seq<char>) -> u64 {
        self.spec_roots()[self.spec_root_index(name)].0
    }

    /// Finds the root whose name is the crate being documented; without
    /// one the crate is simply not present in this analysis load.
    pub fn root_for(&self, crate_name: &String) -> (r: Result<
        u64,
        crate::error::Error,
    >)
        ensures
            match r {
                Ok(id) => {
                    let i = self.spec_root_index(crate_name@);
                    0 <= i < self.spec_roots().len() && self.spec_roots()[i].0 == id
                        && self.spec_roots()[i].1@ == crate_name@
                },
                Err(e) => (forall|k: int|
                    0 <= k < self.spec_roots().len() ==> (#[trigger] self.spec_roots()[k]).1@
                        != crate_name@) && (e matches crate::error::Error::DeclarationNotFound(c)
                    && c.crate_name@ == crate_name@),
            },
    {
        let roots = self.def_roots();
        let mut i: usize = 0;
        while i < roots.len()
            invariant
                i <= roots@.len(),
                roots@ == self.spec_roots(),
                forall|k: int| 0 <= k < i ==> (#[trigger] roots@[k]).1@ != crate_name@,
            decreases roots@.len() - i,
        {
            if roots[i].1.eq(crate_name) {
                proof {
                    lemma_root_index_at(self.spec_roots(), crate_name@, i as int);
                }
                return Ok(roots[i].0);
            }
            i = i + 1;
        }
        Err(
            crate::error::Error::DeclarationNotFound(
                crate::error::CrateErr { crate_name: crate_name.clone() },
            ),
        )
    }
}

/// The ids of the records in `defs` whose parent is `id`, in order.
pub open spec fn spec_children_in(defs: Seq<Definition>, id: u64) -> Seq<u64>
    decreases defs.len(),
{
    if defs.len() == 0 {
        Seq::empty()
    } else {
        spec_children_in(defs.drop_last(), id) + if defs.last().parent == Some(id) {
            seq![defs.last().id]
        } else {
            Seq::empty()
        }
    }
}

/// The id and name pairs of the records in `defs` without a parent.
pub open spec fn spec_roots_in(defs: Seq<Definition>) -> Seq<(u64, String)>
    decreases defs.len(),
{
    if defs.len() == 0 {
        Seq::empty()
    } else {
        spec_roots_in(defs.drop_last()) + if defs.last().parent is None {
            seq![(defs.last().id, defs.last().name)]
        } else {
            Seq::empty()
        }
    }
}

/// The index of the first root with the given name, or the root count.
pub open spec fn spec_root_index_in(roots: Seq<(u64, String)>, name: Seq<char>) -> int
    decreases roots.len(),
{
    if roots.len() == 0 {
        0
    } else if roots[0].1@ == name {
        0
    } else {
        1 + spec_root_index_in(roots.drop_first(), name)
    }
}

/// A scan that passed only mismatching roots and stands on a match has
/// found the first matching root.
proof fn lemma_root_index_at(roots: Seq<(u64, String)>, name: Seq<char>, i: int)
    requires
        0 <= i < roots.len(),
        forall|k: int| 0 <= k < i ==> (#[trigger] roots[k]).1@ != name,
        roots[i].1@ == name,
    ensures
        spec_root_index_in(roots, name) == i,
    decreases i,
{
    if i > 0 {
        let rest = roots.drop_first();
        assert(rest[i - 1] == roots[i]);
        assert(forall|k: int| 0 <= k < i - 1 ==> rest[k] == roots[k + 1]);
        lemma_root_index_at(rest, name, i - 1);
    }
}

/// Every id that the child derivation hands out belongs to a record
/// whose parent is the queried id.
pub proof fn lemma_children_are_defs(defs: Seq<Definition>, id: u64, j: int)
    requires
        0 <= j < spec_children_in(defs, id).len(),
    ensures
        exists|k: int|
            0 <= k < defs.len() && (#[trigger] defs[k]).id == spec_children_in(defs, id)[j]
                && defs[k].parent == Some(id),
    decreases defs.len(),
{
    if defs.len() > 0 {
        let prefix = spec_children_in(defs.drop_last(), id);
        if j < prefix.len() {
            lemma_children_are_defs(defs.drop_last(), id, j);
            let k = choose|k: int|
                0 <= k < defs.drop_last().len() && (#[trigger] defs.drop_last()[k]).id
                    == prefix[j] && defs.drop_last()[k].parent == Some(id);
            assert(defs[k].id == spec_children_in(defs, id)[j] && defs[k].parent == Some(id));
        } else {
            assert(defs[defs.len() - 1].id == spec_children_in(defs, id)[j] && defs[defs.len()
                - 1].parent == Some(id));
        }
    }
}

/// Every root the root derivation hands out belongs to a record of the
/// arena.
pub proof fn lemma_roots_resolvable(defs: Seq<Definition>, j: int)
    requires
        0 <= j < spec_roots_in(defs).len(),
    ensures
        exists|k: int|
            0 <= k < defs.len() && (#[trigger] defs[k]).id == spec_roots_in(defs)[j].0,
    decreases defs.len(),
{
    if defs.len() > 0 {
        let prefix = spec_roots_in(defs.drop_last());
        if j < prefix.len() {
            lemma_roots_resolvable(defs.drop_last(), j);
            let k = choose|k: int|
                0 <= k < defs.drop_last().len() && (#[trigger] defs.drop_last()[k]).id
                    == prefix[j].0;
            assert(defs[k].id == spec_roots_in(defs)[j].0);
        } else {
            assert(defs[defs.len() - 1].id == spec_roots_in(defs)[j].0);
        }
    }
}

/// Every record whose parent is the queried id is handed out by the
/// child derivation.
pub proof fn lemma_defs_are_children(defs: Seq<Definition>, id: u64, k: int)
    requires
        0 <= k < defs.len(),
        defs[k].parent == Some(id),
    ensures
        spec_children_in(defs, id).contains(defs[k].id),
    decreases defs.len(),
{
    if k < defs.len() - 1 {
        lemma_defs_are_children(defs.drop_last(), id, k);
        let prefix = spec_children_in(defs.drop_last(), id);
        let j = choose|j: int| 0 <= j < prefix.len() && prefix[j] == defs.drop_last()[k].id;
        assert(spec_children_in(defs, id)[j] == defs[k].id);
    } else {
        let whole = spec_children_in(defs, id);
        assert(whole[whole.len() - 1] == defs[k].id);
    }
}

} // verus!
