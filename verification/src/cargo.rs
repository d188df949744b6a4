//! Selecting the target to document from the project's build metadata.
//!
//! The metadata itself is produced and parsed by the surrounding
//! tooling; it reaches this module as plain records of target names and
//! kind strings.

use vstd::prelude::*;

use crate::error::{Error, Json};
use crate::text::{chars_to_string, str_to_chars};

verus! {

/// The kinds of targets that we can document.
#[derive(Debug, PartialEq, Eq, Structural, Clone, Copy)]
pub enum TargetKind {
    /// A `bin` target.
    Binary,

    /// A `lib` target.
    Library,
}

/// A target of documentation.
#[derive(Debug, PartialEq, Eq, Clone)]
pub struct Target {
    /// The kind of the target.
    pub kind: TargetKind,

    /// The name of the target.
    ///
    /// This is *not* the name of the target's crate, which is used to
    /// retrieve the analysis data. Use the `crate_name` method instead.
    pub name: String,
}

/// A name with every dash exchanged for an underscore.
pub open spec fn spec_crate_name(name: Seq<char>) -> Seq<char> {
    name.map_values(
        |c: char|
            if c == '-' {
                '_'
            } else {
                c
            },
    )
}

impl Target {
    /// Returns the name of the target's crate.
    ///
    /// This name is equivalent to the target's name, with dashes
    /// replaced by underscores.
    pub fn crate_name(&self) -> (r: String)
        ensures
            r@ == spec_crate_name(self.name@),
    {
        let v = str_to_chars(self.name.as_str());
        let mut out: Vec<char> = Vec::new();
        let mut i: usize = 0;
        while i < v.len()
            invariant
                i <= v@.len(),
                out@ == spec_crate_name(v@.subrange(0, i as int)),
            decreases v@.len() - i,
        {
            if v[i] == '-' {
                out.push('_');
            } else {
                out.push(v[i]);
            }
            i = i + 1;
            assert(out@ =~= spec_crate_name(v@.subrange(0, i as int)));
        }
        assert(v@.subrange(0, v@.len() as int) =~= v@);
        chars_to_string(&out)
    }
}

/// One target as the build metadata reports it: a name and the list of
/// kind strings attached to it.
#[derive(Debug, Clone)]
pub struct TargetRecord {
    /// The target's name.
    pub name: String,

    /// The kind strings of the target, such as `lib` or `bin`.
    pub kinds: Vec<String>,
}

/// The documentable kind a well-formed record maps to, if any.
pub open spec fn spec_kind_of(rec: TargetRecord) -> Option<TargetKind> {
    if rec.kinds@[0]@ == "lib"@ {
        Some(TargetKind::Library)
    } else if rec.kinds@[0]@ == "bin"@ {
        Some(TargetKind::Binary)
    } else {
        None
    }
}

/// The index of the first record that does not carry exactly one kind.
pub open spec fn spec_first_bad(ts: Seq<TargetRecord>) -> Option<int>
    decreases ts.len(),
{
    if ts.len() == 0 {
        None
    } else if ts[0].kinds@.len() != 1 {
        Some(0)
    } else {
        match spec_first_bad(ts.drop_first()) {
            None => None,
            Some(i) => Some(i + 1),
        }
    }
}

/// The documentable targets among well-formed records, in order.
pub open spec fn spec_selected(ts: Seq<TargetRecord>) -> Seq<Target>
    decreases ts.len(),
{
    if ts.len() == 0 {
        Seq::empty()
    } else {
        let rest = spec_selected(ts.drop_last());
        match spec_kind_of(ts.last()) {
            Some(k) => rest.push(Target { kind: k, name: ts.last().name }),
            None => rest,
        }
    }
}

/// The index of the first library target in a selection.
pub open spec fn spec_first_lib(sel: Seq<Target>) -> Option<int>
    decreases sel.len(),
{
    if sel.len() == 0 {
        None
    } else if sel[0].kind == TargetKind::Library {
        Some(0)
    } else {
        match spec_first_lib(sel.drop_first()) {
            None => None,
            Some(i) => Some(i + 1),
        }
    }
}

/// The target the metadata designates: the only documentable one, or
/// the first library, or failing that the first binary.
pub open spec fn spec_chosen_target(ts: Seq<TargetRecord>) -> Target {
    let sel = spec_selected(ts);
    match spec_first_lib(sel) {
        Some(i) => sel[i],
        None => sel[0],
    }
}

/// The error message for a record with other than one kind.
pub open spec fn spec_bad_kind_location(name: Seq<char>) -> Seq<char> {
    "expected one kind for target '"@ + name + "'"@
}

/// Parse the library target from the crate metadata records.
///
/// Returns the unique documentable target; when several are
/// documentable, the first library wins, or failing a library the first
/// binary. A record with other than exactly one kind is malformed
/// metadata, and metadata without any `lib` or `bin` target designates
/// nothing to document.
pub fn target_from_metadata(targets: &Vec<TargetRecord>) -> (r: Result<Target, Error>)
    ensures
        match spec_first_bad(targets@) {
            Some(b) => r matches Err(Error::MalformedMetadata(j)) && j.location@
                == spec_bad_kind_location(targets@[b].name@),
            None => {
                if spec_selected(targets@).len() == 0 {
                    r matches Err(Error::NoSupportedTargets)
                } else {
                    r matches Ok(t) && t == spec_chosen_target(targets@)
                }
            },
        },
{
    let lib_s = String::from_str("lib");
    let bin_s = String::from_str("bin");
    let mut selected: Vec<Target> = Vec::new();
    let mut i: usize = 0;
    while i < targets.len()
        invariant
            i <= targets@.len(),
            lib_s@ == "lib"@,
            bin_s@ == "bin"@,
            forall|k: int| 0 <= k < i ==> #[trigger] targets@[k].kinds@.len() == 1,
            selected@ == spec_selected(targets@.subrange(0, i as int)),
        decreases targets@.len() - i,
    {
        let rec = &targets[i];
        if rec.kinds.len() != 1 {
            proof {
                lemma_first_bad_at(targets@, i as int);
            }
            let mut loc: Vec<char> = str_to_chars("expected one kind for target '");
            let name = str_to_chars(rec.name.as_str());
            crate::text::append_chars(&mut loc, &name);
            let quote = str_to_chars("'");
            crate::text::append_chars(&mut loc, &quote);
            assert(loc@ =~= spec_bad_kind_location(rec.name@));
            return Err(Error::MalformedMetadata(Json { location: chars_to_string(&loc) }));
        }
        let kind_str: &String = &rec.kinds[0];
        proof {
            assert(targets@.subrange(0, i + 1).drop_last() =~= targets@.subrange(0, i as int));
            assert(targets@.subrange(0, i + 1).last() == targets@[i as int]);
        }
        if kind_str.eq(&lib_s) {
            assert(spec_kind_of(targets@[i as int]) == Some(TargetKind::Library));
            selected.push(Target { kind: TargetKind::Library, name: rec.name.clone() });
        } else if kind_str.eq(&bin_s) {
            assert(spec_kind_of(targets@[i as int]) == Some(TargetKind::Binary));
            selected.push(Target { kind: TargetKind::Binary, name: rec.name.clone() });
        } else {
            assert(spec_kind_of(targets@[i as int]) is None);
        }
        i = i + 1;
        assert(selected@ =~= spec_selected(targets@.subrange(0, i as int)));
    }
    proof {
        assert(targets@.subrange(0, targets@.len() as int) =~= targets@);
        lemma_first_bad_none(targets@);
    }
    if selected.len() == 0 {
        return Err(Error::NoSupportedTargets);
    }
    let ghost whole = targets@;
    let mut j: usize = 0;
    while j < selected.len()
        invariant
            j <= selected@.len(),
            selected@ == spec_selected(whole),
            whole == targets@,
            spec_first_bad(whole) is None,
            selected@.len() > 0,
            forall|k: int| 0 <= k < j ==> #[trigger] selected@[k].kind != TargetKind::Library,
        decreases selected@.len() - j,
    {
        match selected[j].kind {
            TargetKind::Library => {
                proof {
                    lemma_first_lib_at(selected@, j as int);
                }
                return Ok(
                    Target { kind: TargetKind::Library, name: selected[j].name.clone() },
                );
            },
            TargetKind::Binary => {},
        }
        j = j + 1;
    }
    proof {
        lemma_first_lib_none(selected@);
    }
    Ok(Target { kind: selected[0].kind, name: selected[0].name.clone() })
}

/// The first malformed record is the one a left-to-right scan stops at.
proof fn lemma_first_bad_at(ts: Seq<TargetRecord>, i: int)
    requires
        0 <= i < ts.len(),
        forall|k: int| 0 <= k < i ==> #[trigger] ts[k].kinds@.len() == 1,
        ts[i].kinds@.len() != 1,
    ensures
        spec_first_bad(ts) == Some(i),
    decreases i,
{
    if i > 0 {
        let rest = ts.drop_first();
        assert(rest[i - 1] == ts[i]);
        assert(forall|k: int| 0 <= k < i - 1 ==> #[trigger] rest[k].kinds@.len()
            == ts[k + 1].kinds@.len());
        lemma_first_bad_at(rest, i - 1);
    }
}

/// A scan that saw only well-formed records finds no malformed one.
proof fn lemma_first_bad_none(ts: Seq<TargetRecord>)
    requires
        forall|k: int| 0 <= k < ts.len() ==> #[trigger] ts[k].kinds@.len() == 1,
    ensures
        spec_first_bad(ts) is None,
    decreases ts.len(),
{
    if ts.len() > 0 {
        let rest = ts.drop_first();
        assert(forall|k: int| 0 <= k < rest.len() ==> #[trigger] rest[k].kinds@.len()
            == ts[k + 1].kinds@.len());
        lemma_first_bad_none(rest);
    }
}

/// The first library in a selection is the one a left-to-right scan stops at.
proof fn lemma_first_lib_at(sel: Seq<Target>, j: int)
    requires
        0 <= j < sel.len(),
        forall|k: int| 0 <= k < j ==> #[trigger] sel[k].kind != TargetKind::Library,
        sel[j].kind == TargetKind::Library,
    ensures
        spec_first_lib(sel) == Some(j),
    decreases j,
{
    if j > 0 {
        let rest = sel.drop_first();
        assert(rest[j - 1] == sel[j]);
        assert(forall|k: int| 0 <= k < j - 1 ==> #[trigger] rest[k].kind == sel[k + 1].kind);
        lemma_first_lib_at(rest, j - 1);
    }
}

/// A selection without any library has no first one.
proof fn lemma_first_lib_none(sel: Seq<Target>)
    requires
        forall|k: int| 0 <= k < sel.len() ==> #[trigger] sel[k].kind != TargetKind::Library,
    ensures
        spec_first_lib(sel) is None,
    decreases sel.len(),
{
    if sel.len() > 0 {
        let rest = sel.drop_first();
        assert(forall|k: int| 0 <= k < rest.len() ==> #[trigger] rest[k].kind == sel[k + 1].kind);
        lemma_first_lib_none(rest);
    }
}

} // verus!
