//! The analysis-derived part of a build: one markdown page per
//! documentable declaration, plus the crate page and the module,
//! struct and trait overview pages.
//!
//! Everything here is a plan: paths and contents are computed and
//! pinned down exactly; writing them to disk is the surrounding
//! program's job. The set of artifacts a plan names is exactly what a
//! pass creates, which is what reconciliation relies on.

use vstd::prelude::*;

use crate::config::Config;
use crate::defs::{DefKind, DefSource, Definition};
use crate::error::Error;
use crate::paths::{spec_name_to_path, spec_path_join, name_to_path, path_join};
use crate::reconcile::Artifact;
use crate::render::{
    hbs_render, spec_link_for_def, spec_pairs, spec_render_ok, link_for_def, try_render,
};
use crate::spec_strip_leading_space;
use crate::strip_leading_space;
use crate::text::{chars_to_string, str_to_chars};
use crate::tree::{
    spec_sort_entries, spec_tree, sort_entries, ModuleTree, NameEntry, TreeLine,
};
use crate::walker::{walk, Traversal};

verus! {

/// The template text for each page this pass renders, keyed by what it
/// documents.
#[derive(Debug, Clone)]
pub struct ApiTemplates {
    /// The crate-level page.
    pub api: String,
    /// The page for a module.
    pub mod_tpl: String,
    /// The page for a struct.
    pub struct_tpl: String,
    /// The page for an enum.
    pub enum_tpl: String,
    /// The page for a trait.
    pub trait_tpl: String,
    /// The page for a function.
    pub function_tpl: String,
    /// The page for a type alias.
    pub type_tpl: String,
    /// The page for a static item.
    pub static_tpl: String,
    /// The page for a constant.
    pub const_tpl: String,
}

/// The template text used for a declaration kind, when it has one.
pub open spec fn spec_template_text(t: ApiTemplates, k: DefKind) -> Option<Seq<char>> {
    match k {
        DefKind::Mod => Some(t.mod_tpl@),
        DefKind::Struct => Some(t.struct_tpl@),
        DefKind::Enum => Some(t.enum_tpl@),
        DefKind::Trait => Some(t.trait_tpl@),
        DefKind::Function => Some(t.function_tpl@),
        DefKind::Type => Some(t.type_tpl@),
        DefKind::Static => Some(t.static_tpl@),
        DefKind::Const => Some(t.const_tpl@),
        DefKind::Field => None,
        DefKind::Tuple => None,
        DefKind::Local => None,
        DefKind::Other => None,
    }
}

/// Picks the template text for a declaration kind.
pub fn template_text<'a>(t: &'a ApiTemplates, k: DefKind) -> (r: Option<&'a String>)
    ensures
        match r {
            Some(s) => spec_template_text(*t, k) == Some(s@),
            None => spec_template_text(*t, k) is None,
        },
{
    match k {
        DefKind::Mod => Some(&t.mod_tpl),
        DefKind::Struct => Some(&t.struct_tpl),
        DefKind::Enum => Some(&t.enum_tpl),
        DefKind::Trait => Some(&t.trait_tpl),
        DefKind::Function => Some(&t.function_tpl),
        DefKind::Type => Some(&t.type_tpl),
        DefKind::Static => Some(&t.static_tpl),
        DefKind::Const => Some(&t.const_tpl),
        DefKind::Field => None,
        DefKind::Tuple => None,
        DefKind::Local => None,
        DefKind::Other => None,
    }
}

/// The context a declaration's page is rendered with: its name, its
/// documentation with the leading spaces stripped, and its signature.
pub open spec fn spec_def_context(d: Definition) -> Seq<(Seq<char>, Seq<char>)> {
    seq![
        ("name"@, d.name@),
        ("docs"@, spec_strip_leading_space(d.docs@)),
        ("signature"@, d.value@),
    ]
}

/// The context of the crate-level page: the crate's name and the root
/// declaration's stripped documentation.
pub open spec fn spec_readme_context(crate_name: Seq<char>, root: Definition) -> Seq<
    (Seq<char>, Seq<char>),
> {
    seq![("name"@, crate_name), ("docs"@, spec_strip_leading_space(root.docs@))]
}

/// The directory that holds a declaration's page.
pub open spec fn spec_containing_dir(api_dir: Seq<char>, d: Definition) -> Seq<char> {
    spec_path_join(api_dir, spec_name_to_path(d.qualname@))
}

/// The path of a declaration's markdown page.
pub open spec fn spec_def_file_path(api_dir: Seq<char>, d: Definition) -> Seq<char> {
    spec_path_join(spec_containing_dir(api_dir, d), d.name@ + ".md"@)
}

/// Whether a declaration's page renders, or needs no page at all.
pub open spec fn spec_def_render_ok(t: ApiTemplates, d: Definition) -> bool {
    match spec_template_text(t, d.kind) {
        None => true,
        Some(tp) => spec_render_ok(tp, spec_def_context(d)),
    }
}

/// Whether every declaration page of the traversal renders.
pub open spec fn spec_renders_ok(src: DefSource, t: ApiTemplates, order: Seq<u64>) -> bool {
    forall|k: int|
        0 <= k < order.len() ==> spec_def_render_ok(t, src.spec_def_of(#[trigger] order[k]))
}

/// The path and content of each declaration page, in traversal order.
pub open spec fn spec_def_writes(
    src: DefSource,
    t: ApiTemplates,
    api_dir: Seq<char>,
    order: Seq<u64>,
) -> Seq<(Seq<char>, Seq<char>)>
    decreases order.len(),
{
    if order.len() == 0 {
        Seq::empty()
    } else {
        let d = src.spec_def_of(order.last());
        spec_def_writes(src, t, api_dir, order.drop_last()) + match spec_template_text(
            t,
            d.kind,
        ) {
            None => Seq::empty(),
            Some(tp) => seq![
                (spec_def_file_path(api_dir, d), hbs_render(tp, spec_def_context(d))->Some_0),
            ],
        }
    }
}

/// The artifacts the declaration pass records, in creation order: each
/// declaration's containing directory, and its page when it has one.
pub open spec fn spec_def_artifacts(
    src: DefSource,
    t: ApiTemplates,
    api_dir: Seq<char>,
    order: Seq<u64>,
) -> Seq<(Seq<char>, bool)>
    decreases order.len(),
{
    if order.len() == 0 {
        Seq::empty()
    } else {
        let d = src.spec_def_of(order.last());
        spec_def_artifacts(src, t, api_dir, order.drop_last()) + seq![
            (spec_containing_dir(api_dir, d), true),
        ] + match spec_template_text(t, d.kind) {
            None => Seq::empty(),
            Some(tp) => seq![(spec_def_file_path(api_dir, d), false)],
        }
    }
}

/// Two spaces per level of nesting.
pub open spec fn spec_indent(depth: nat) -> Seq<char>
    decreases depth,
{
    if depth == 0 {
        Seq::empty()
    } else {
        spec_indent((depth - 1) as nat) + "  "@
    }
}

/// The module overview's body: one bulleted, indented link per line of
/// the flattened module hierarchy.
pub open spec fn spec_tree_text(src: DefSource, base_url: Seq<char>, lines: Seq<TreeLine>) -> Seq<
    char,
>
    decreases lines.len(),
{
    if lines.len() == 0 {
        Seq::empty()
    } else {
        spec_tree_text(src, base_url, lines.drop_last()) + spec_indent(
            lines.last().depth as nat,
        ) + "* "@ + spec_link_for_def(base_url, src.spec_def_of(lines.last().id)) + "\n"@
    }
}

/// The name and id entries of a classification list, in list order.
pub open spec fn spec_id_entries(src: DefSource, ids: Seq<u64>) -> Seq<NameEntry>
    decreases ids.len(),
{
    if ids.len() == 0 {
        Seq::empty()
    } else {
        spec_id_entries(src, ids.drop_last()) + seq![
            (src.spec_def_of(ids.last()).name, ids.last()),
        ]
    }
}

/// An overview's body: one bulleted link per entry.
pub open spec fn spec_overview_text(
    src: DefSource,
    base_url: Seq<char>,
    entries: Seq<NameEntry>,
) -> Seq<char>
    decreases entries.len(),
{
    if entries.len() == 0 {
        Seq::empty()
    } else {
        spec_overview_text(src, base_url, entries.drop_last()) + "* "@ + spec_link_for_def(
            base_url,
            src.spec_def_of(entries.last().1),
        ) + "\n"@
    }
}

/// The content of the module overview page.
pub open spec fn spec_module_overview(
    src: DefSource,
    base_url: Seq<char>,
    root_id: u64,
    modules: Seq<u64>,
) -> Seq<char> {
    "# Module overview\n\n"@ + spec_tree_text(
        src,
        base_url,
        seq![TreeLine { id: root_id, depth: 0 }] + spec_tree(src, modules, root_id, 1, modules.len()),
    )
}

/// The content of a sorted overview page with the given heading.
pub open spec fn spec_sorted_overview(
    src: DefSource,
    base_url: Seq<char>,
    heading: Seq<char>,
    ids: Seq<u64>,
) -> Seq<char> {
    heading + spec_overview_text(src, base_url, spec_sort_entries(spec_id_entries(src, ids)))
}

/// The path and content pairs of a vector of write instructions.
pub open spec fn pairs_of(ws: Seq<(String, String)>) -> Seq<(Seq<char>, Seq<char>)> {
    ws.map_values(|p: (String, String)| (p.0@, p.1@))
}

/// The path and directory flags of a vector of artifacts.
pub open spec fn arts_of(a: Seq<Artifact>) -> Seq<(Seq<char>, bool)> {
    a.map_values(|x: Artifact| (x.path@, x.dir))
}

/// Everything the analysis pass writes, in order: the crate page, one
/// page per documentable declaration, and the three overview pages.
pub open spec fn spec_api_writes(
    src: DefSource,
    t: ApiTemplates,
    crate_name: Seq<char>,
    root_id: u64,
    base_url: Seq<char>,
    api_dir: Seq<char>,
    order: Seq<u64>,
    modules: Seq<u64>,
    structs: Seq<u64>,
    traits: Seq<u64>,
) -> Seq<(Seq<char>, Seq<char>)> {
    seq![
        (
            spec_path_join(api_dir, "README.md"@),
            hbs_render(t.api@, spec_readme_context(crate_name, src.spec_def_of(root_id)))->Some_0,
        ),
    ] + spec_def_writes(src, t, api_dir, order) + seq![
        (
            spec_path_join(api_dir, "module-overview.md"@),
            spec_module_overview(src, base_url, root_id, modules),
        ),
        (
            spec_path_join(api_dir, "struct-overview.md"@),
            spec_sorted_overview(src, base_url, "# Struct overview\n\n"@, structs),
        ),
        (
            spec_path_join(api_dir, "trait-overview.md"@),
            spec_sorted_overview(src, base_url, "# Trait overview\n\n"@, traits),
        ),
    ]
}

/// Every artifact the analysis pass records, in creation order.
pub open spec fn spec_api_artifacts(
    src: DefSource,
    t: ApiTemplates,
    api_dir: Seq<char>,
    order: Seq<u64>,
) -> Seq<(Seq<char>, bool)> {
    seq![(spec_path_join(api_dir, "README.md"@), false)] + spec_def_artifacts(
        src,
        t,
        api_dir,
        order,
    ) + seq![
        (spec_path_join(api_dir, "module-overview.md"@), false),
        (spec_path_join(api_dir, "struct-overview.md"@), false),
        (spec_path_join(api_dir, "trait-overview.md"@), false),
    ]
}

/// Every declaration page the pass writes is recorded among its
/// artifacts as a file.
proof fn lemma_def_writes_recorded(
    src: DefSource,
    t: ApiTemplates,
    api_dir: Seq<char>,
    order: Seq<u64>,
)
    ensures
        forall|j: int|
            0 <= j < spec_def_writes(src, t, api_dir, order).len()
                ==> spec_def_artifacts(src, t, api_dir, order).contains(
                ((#[trigger] spec_def_writes(src, t, api_dir, order)[j]).0, false),
            ),
    decreases order.len(),
{
    if order.len() > 0 {
        lemma_def_writes_recorded(src, t, api_dir, order.drop_last());
        let ws = spec_def_writes(src, t, api_dir, order);
        let arts = spec_def_artifacts(src, t, api_dir, order);
        let pw = spec_def_writes(src, t, api_dir, order.drop_last());
        let pa = spec_def_artifacts(src, t, api_dir, order.drop_last());
        assert forall|j: int| 0 <= j < ws.len() implies arts.contains(
            ((#[trigger] ws[j]).0, false),
        ) by {
            if j < pw.len() {
                assert(ws[j] == pw[j]);
                let k = choose|k: int| 0 <= k < pa.len() && pa[k] == (pw[j].0, false);
                assert(arts[k] == (ws[j].0, false));
            } else {
                assert(arts[arts.len() - 1] == (ws[j].0, false));
            }
        }
    }
}

/// The pass records what it creates: every file the analysis pass
/// writes appears in its artifact record as a plain file, so a later
/// reconciliation can never mistake a live page for an orphan.
pub proof fn lemma_api_writes_recorded(
    src: DefSource,
    t: ApiTemplates,
    crate_name: Seq<char>,
    root_id: u64,
    base_url: Seq<char>,
    api_dir: Seq<char>,
    order: Seq<u64>,
    modules: Seq<u64>,
    structs: Seq<u64>,
    traits: Seq<u64>,
)
    ensures
        forall|j: int|
            0 <= j < spec_api_writes(
                src,
                t,
                crate_name,
                root_id,
                base_url,
                api_dir,
                order,
                modules,
                structs,
                traits,
            ).len() ==> spec_api_artifacts(src, t, api_dir, order).contains(
                (
                    (#[trigger] spec_api_writes(
                        src,
                        t,
                        crate_name,
                        root_id,
                        base_url,
                        api_dir,
                        order,
                        modules,
                        structs,
                        traits,
                    )[j]).0,
                    false,
                ),
            ),
{
    lemma_def_writes_recorded(src, t, api_dir, order);
    let ws = spec_api_writes(
        src,
        t,
        crate_name,
        root_id,
        base_url,
        api_dir,
        order,
        modules,
        structs,
        traits,
    );
    let arts = spec_api_artifacts(src, t, api_dir, order);
    let mw = spec_def_writes(src, t, api_dir, order);
    let ma = spec_def_artifacts(src, t, api_dir, order);
    assert forall|j: int| 0 <= j < ws.len() implies arts.contains(
        ((#[trigger] ws[j]).0, false),
    ) by {
        if j == 0 {
            assert(arts[0] == (ws[0].0, false));
        } else if j < 1 + mw.len() {
            assert(ws[j] == mw[j - 1]);
            let k = choose|k: int| 0 <= k < ma.len() && ma[k] == (mw[j - 1].0, false);
            assert(arts[1 + k] == (ws[j].0, false));
        } else {
            let tail = j - (1 + mw.len());
            assert(arts[1 + ma.len() + tail] == (ws[j].0, false));
        }
    }
}

/// What the analysis pass of one build produces: the files to write,
/// and the artifact record that reconciliation consumes. The artifact
/// record holds exactly the files and directories this plan creates or
/// confirms: an omission would let reconciliation delete a live page,
/// a spurious entry would leave stale ones behind.
#[derive(Debug)]
pub struct ApiPlan {
    /// Each file to write: its path and its full content.
    pub writes: Vec<(String, String)>,
    /// Every artifact this pass creates, files and directories.
    pub artifacts: Vec<Artifact>,
}

/// Appending a write appends its path and content pair.
proof fn lemma_pairs_push(ws: Seq<(String, String)>, x: (String, String))
    ensures
        pairs_of(ws.push(x)) == pairs_of(ws).push((x.0@, x.1@)),
{
    assert(pairs_of(ws.push(x)) =~= pairs_of(ws).push((x.0@, x.1@)));
}

/// Appending an artifact appends its path and flag pair.
proof fn lemma_arts_push(a: Seq<Artifact>, x: Artifact)
    ensures
        arts_of(a.push(x)) == arts_of(a).push((x.path@, x.dir)),
{
    assert(arts_of(a.push(x)) =~= arts_of(a).push((x.path@, x.dir)));
}

/// Builds the rendering context of one declaration's page.
fn def_context(d: &Definition) -> (r: Vec<(String, String)>)
    ensures
        spec_pairs(r@) == spec_def_context(*d),
{
    let mut ctx: Vec<(String, String)> = Vec::new();
    ctx.push((String::from_str("name"), d.name.clone()));
    ctx.push((String::from_str("docs"), strip_leading_space(d.docs.as_str())));
    ctx.push((String::from_str("signature"), d.value.clone()));
    proof {
        assert(spec_pairs(ctx@) =~= spec_def_context(*d));
    }
    ctx
}

/// Two spaces per level of nesting.
fn indent_chars(depth: usize) -> (r: Vec<char>)
    ensures
        r@ == spec_indent(depth as nat),
{
    let step = str_to_chars("  ");
    let mut out: Vec<char> = Vec::new();
    let mut i: usize = 0;
    while i < depth
        invariant
            i <= depth,
            step@ == "  "@,
            out@ == spec_indent(i as nat),
        decreases depth - i,
    {
        crate::text::append_chars(&mut out, &step);
        i = i + 1;
    }
    out
}

/// Renders the module hierarchy as indented, bulleted link lines.
fn tree_text(source: &DefSource, base_url: &str, lines: &Vec<TreeLine>) -> (r: Vec<char>)
    requires
        forall|k: int| 0 <= k < lines@.len() ==> source.spec_has((#[trigger] lines@[k]).id),
    ensures
        r@ == spec_tree_text(*source, base_url@, lines@),
{
    let ghost src = *source;
    let mut out: Vec<char> = Vec::new();
    let mut i: usize = 0;
    while i < lines.len()
        invariant
            src == *source,
            forall|k: int| 0 <= k < lines@.len() ==> source.spec_has((#[trigger] lines@[k]).id),
            i <= lines@.len(),
            out@ == spec_tree_text(src, base_url@, lines@.subrange(0, i as int)),
        decreases lines@.len() - i,
    {
        proof {
            assert(lines@.subrange(0, i + 1).drop_last() =~= lines@.subrange(0, i as int));
            assert(lines@.subrange(0, i + 1).last() == lines@[i as int]);
        }
        let line = lines[i];
        let d = match source.get_def(line.id) {
            Some(d) => d,
            None => vstd::pervasive::unreached(),
        };
        let indent = indent_chars(line.depth);
        crate::text::append_chars(&mut out, &indent);
        let bullet = str_to_chars("* ");
        proof {
            reveal_strlit("* ");
            reveal_strlit("\n");
        }
        crate::text::append_chars(&mut out, &bullet);
        let link_s = link_for_def(base_url, d);
        let link = str_to_chars(link_s.as_str());
        crate::text::append_chars(&mut out, &link);
        let nl = str_to_chars("\n");
        crate::text::append_chars(&mut out, &nl);
        i = i + 1;
        assert(out@ =~= spec_tree_text(src, base_url@, lines@.subrange(0, i as int)));
    }
    proof {
        assert(lines@.subrange(0, lines@.len() as int) =~= lines@);
    }
    out
}

/// Collects the name and id entries of a classification list.
fn id_entries(source: &DefSource, ids: &Vec<u64>) -> (r: Vec<NameEntry>)
    requires
        forall|k: int| 0 <= k < ids@.len() ==> source.spec_has(#[trigger] ids@[k]),
    ensures
        r@ == spec_id_entries(*source, ids@),
        forall|k: int| 0 <= k < r@.len() ==> source.spec_has((#[trigger] r@[k]).1),
{
    let ghost src = *source;
    let mut r: Vec<NameEntry> = Vec::new();
    let mut i: usize = 0;
    while i < ids.len()
        invariant
            src == *source,
            forall|k: int| 0 <= k < ids@.len() ==> source.spec_has(#[trigger] ids@[k]),
            i <= ids@.len(),
            r@ == spec_id_entries(src, ids@.subrange(0, i as int)),
            forall|k: int| 0 <= k < r@.len() ==> source.spec_has((#[trigger] r@[k]).1),
        decreases ids@.len() - i,
    {
        proof {
            assert(ids@.subrange(0, i + 1).drop_last() =~= ids@.subrange(0, i as int));
            assert(ids@.subrange(0, i + 1).last() == ids@[i as int]);
        }
        let id = ids[i];
        let d = match source.get_def(id) {
            Some(d) => d,
            None => vstd::pervasive::unreached(),
        };
        r.push((d.name.clone(), id));
        i = i + 1;
        assert(r@ =~= spec_id_entries(src, ids@.subrange(0, i as int)));
    }
    proof {
        assert(ids@.subrange(0, ids@.len() as int) =~= ids@);
    }
    r
}

/// Renders one sorted overview page: a heading, then one bulleted link
/// per entry, sorted by name.
fn sorted_overview(source: &DefSource, base_url: &str, heading: &str, ids: &Vec<u64>) -> (r:
    String)
    requires
        forall|k: int| 0 <= k < ids@.len() ==> source.spec_has(#[trigger] ids@[k]),
    ensures
        r@ == spec_sorted_overview(*source, base_url@, heading@, ids@),
{
    let ghost src = *source;
    let entries = id_entries(source, ids);
    let sorted = sort_entries(&entries);
    proof {
        crate::tree::lemma_sorted_entries_resolvable(src, entries@);
    }
    let mut out: Vec<char> = str_to_chars(heading);
    let ghost head = out@;
    let mut i: usize = 0;
    while i < sorted.len()
        invariant
            src == *source,
            forall|k: int| 0 <= k < sorted@.len() ==> src.spec_has((#[trigger] sorted@[k]).1),
            i <= sorted@.len(),
            head == heading@,
            out@ == head + spec_overview_text(src, base_url@, sorted@.subrange(0, i as int)),
        decreases sorted@.len() - i,
    {
        proof {
            assert(sorted@.subrange(0, i + 1).drop_last() =~= sorted@.subrange(0, i as int));
            assert(sorted@.subrange(0, i + 1).last() == sorted@[i as int]);
        }
        let id = sorted[i].1;
        let d = match source.get_def(id) {
            Some(d) => d,
            None => vstd::pervasive::unreached(),
        };
        let bullet = str_to_chars("* ");
        proof {
            reveal_strlit("* ");
            reveal_strlit("\n");
        }
        crate::text::append_chars(&mut out, &bullet);
        let link_s = link_for_def(base_url, d);
        let link = str_to_chars(link_s.as_str());
        crate::text::append_chars(&mut out, &link);
        let nl = str_to_chars("\n");
        crate::text::append_chars(&mut out, &nl);
        i = i + 1;
        assert(out@ =~= head + spec_overview_text(src, base_url@, sorted@.subrange(0, i as int)));
    }
    proof {
        assert(sorted@.subrange(0, sorted@.len() as int) =~= sorted@);
    }
    chars_to_string(&out)
}

/// Compiles the loaded analysis into markdown pages: the crate page,
/// one page per documentable declaration of the traversal, and the
/// three overview pages. Fails exactly when the template engine refuses
/// the crate page or any declaration page; a failed pass reports no
/// plan at all, so a partial artifact record is never taken for
/// authoritative.
pub fn api_plan(
    source: &DefSource,
    traversal: &Traversal,
    crate_name: &String,
    root_id: u64,
    base_url: &str,
    api_dir: &str,
    templates: &ApiTemplates,
) -> (r: Result<ApiPlan, Error>)
    requires
        source.wf(),
        source.spec_has(root_id),
        forall|k: int|
            0 <= k < traversal.order@.len() ==> source.spec_has(#[trigger] traversal.order@[k]),
        forall|k: int|
            0 <= k < traversal.module_ids@.len() ==> source.spec_has(
                #[trigger] traversal.module_ids@[k],
            ),
        forall|k: int|
            0 <= k < traversal.struct_ids@.len() ==> source.spec_has(
                #[trigger] traversal.struct_ids@[k],
            ),
        forall|k: int|
            0 <= k < traversal.trait_ids@.len() ==> source.spec_has(
                #[trigger] traversal.trait_ids@[k],
            ),
    ensures
        (r is Ok) == (spec_render_ok(
            templates.api@,
            spec_readme_context(crate_name@, source.spec_def_of(root_id)),
        ) && spec_renders_ok(*source, *templates, traversal.order@)),
        r matches Err(e) ==> e matches Error::Template { .. },
        r matches Ok(plan) ==> pairs_of(plan.writes@) == spec_api_writes(
            *source,
            *templates,
            crate_name@,
            root_id,
            base_url@,
            api_dir@,
            traversal.order@,
            traversal.module_ids@,
            traversal.struct_ids@,
            traversal.trait_ids@,
        ) && arts_of(plan.artifacts@) == spec_api_artifacts(
            *source,
            *templates,
            api_dir@,
            traversal.order@,
        ),
{
    let ghost src = *source;
    let ghost t = *templates;
    let root_def = match source.get_def(root_id) {
        Some(d) => d,
        None => vstd::pervasive::unreached(),
    };
    let mut rctx: Vec<(String, String)> = Vec::new();
    rctx.push((String::from_str("name"), crate_name.clone()));
    rctx.push((String::from_str("docs"), strip_leading_space(root_def.docs.as_str())));
    proof {
        assert(spec_pairs(rctx@) =~= spec_readme_context(crate_name@, src.spec_def_of(root_id)));
    }
    let readme_content = match try_render(templates.api.as_str(), &rctx) {
        Ok(s) => s,
        Err(m) => {
            return Err(Error::Template { message: m });
        },
    };
    let readme_path = path_join(api_dir, "README.md");
    let mut writes: Vec<(String, String)> = Vec::new();
    let mut artifacts: Vec<Artifact> = Vec::new();
    writes.push((readme_path.clone(), readme_content));
    artifacts.push(Artifact { path: readme_path, dir: false });
    let ghost w_head = seq![
        (
            spec_path_join(api_dir@, "README.md"@),
            hbs_render(
                t.api@,
                spec_readme_context(crate_name@, src.spec_def_of(root_id)),
            )->Some_0,
        ),
    ];
    let ghost a_head = seq![(spec_path_join(api_dir@, "README.md"@), false)];
    proof {
        assert(pairs_of(writes@) =~= w_head);
        assert(arts_of(artifacts@) =~= a_head);
    }
    let order = &traversal.order;
    let mut i: usize = 0;
    while i < order.len()
        invariant
            src == *source,
            t == *templates,
            source.wf(),
            order@ == traversal.order@,
            spec_render_ok(
                t.api@,
                spec_readme_context(crate_name@, src.spec_def_of(root_id)),
            ),
            forall|k: int| 0 <= k < order@.len() ==> source.spec_has(#[trigger] order@[k]),
            i <= order@.len(),
            w_head == seq![
                (
                    spec_path_join(api_dir@, "README.md"@),
                    hbs_render(
                        t.api@,
                        spec_readme_context(crate_name@, src.spec_def_of(root_id)),
                    )->Some_0,
                ),
            ],
            a_head == seq![(spec_path_join(api_dir@, "README.md"@), false)],
            pairs_of(writes@) == w_head + spec_def_writes(
                src,
                t,
                api_dir@,
                order@.subrange(0, i as int),
            ),
            arts_of(artifacts@) == a_head + spec_def_artifacts(
                src,
                t,
                api_dir@,
                order@.subrange(0, i as int),
            ),
            forall|k: int|
                0 <= k < i ==> spec_def_render_ok(t, src.spec_def_of(#[trigger] order@[k])),
        decreases order@.len() - i,
    {
        proof {
            assert(order@.subrange(0, i + 1).drop_last() =~= order@.subrange(0, i as int));
            assert(order@.subrange(0, i + 1).last() == order@[i as int]);
        }
        let id = order[i];
        let d = match source.get_def(id) {
            Some(d) => d,
            None => vstd::pervasive::unreached(),
        };
        let dir_rel = name_to_path(d.qualname.as_str());
        let containing = path_join(api_dir, dir_rel.as_str());
        let ghost arts_pre = artifacts@;
        artifacts.push(Artifact { path: containing.clone(), dir: true });
        proof {
            lemma_arts_push(arts_pre, Artifact { path: containing, dir: true });
            assert(arts_of(artifacts@) == arts_of(arts_pre).push((containing@, true)));
        }
        match template_text(templates, d.kind) {
            None => {
                proof {
                    assert(pairs_of(writes@) =~= w_head + spec_def_writes(
                        src,
                        t,
                        api_dir@,
                        order@.subrange(0, i + 1),
                    ));
                    assert(arts_of(artifacts@) =~= a_head + spec_def_artifacts(
                        src,
                        t,
                        api_dir@,
                        order@.subrange(0, i + 1),
                    ));
                }
            },
            Some(tpl) => {
                let ctx = def_context(d);
                let content = match try_render(tpl.as_str(), &ctx) {
                    Ok(s) => s,
                    Err(m) => {
                        proof {
                            assert(!spec_def_render_ok(t, src.spec_def_of(order@[i as int])));
                            assert(!spec_renders_ok(src, t, order@));
                        }
                        return Err(Error::Template { message: m });
                    },
                };
                let mut fname = str_to_chars(d.name.as_str());
                let md_ext = str_to_chars(".md");
                proof {
                    reveal_strlit(".md");
                }
                crate::text::append_chars(&mut fname, &md_ext);
                let fname_s = chars_to_string(&fname);
                let fpath = path_join(containing.as_str(), fname_s.as_str());
                let ghost writes_pre = writes@;
                let ghost arts_mid = artifacts@;
                writes.push((fpath.clone(), content));
                artifacts.push(Artifact { path: fpath, dir: false });
                proof {
                    lemma_pairs_push(writes_pre, writes@.last());
                    lemma_arts_push(arts_mid, artifacts@.last());
                    assert(pairs_of(writes@) =~= w_head + spec_def_writes(
                        src,
                        t,
                        api_dir@,
                        order@.subrange(0, i + 1),
                    ));
                    assert(arts_of(artifacts@) =~= a_head + spec_def_artifacts(
                        src,
                        t,
                        api_dir@,
                        order@.subrange(0, i + 1),
                    ));
                }
            },
        }
        i = i + 1;
    }
    proof {
        assert(order@.subrange(0, order@.len() as int) =~= order@);
    }
    let mtree = ModuleTree::new(source, root_id, &traversal.module_ids);
    let mut mov: Vec<char> = str_to_chars("# Module overview\n\n");
    let body = tree_text(source, base_url, &mtree.lines);
    crate::text::append_chars(&mut mov, &body);
    let mov_s = chars_to_string(&mov);
    let mov_path = path_join(api_dir, "module-overview.md");
    proof {
        lemma_pairs_push(writes@, (mov_path, mov_s));
        lemma_arts_push(artifacts@, Artifact { path: mov_path, dir: false });
    }
    writes.push((mov_path.clone(), mov_s));
    artifacts.push(Artifact { path: mov_path, dir: false });
    let sov_s = sorted_overview(source, base_url, "# Struct overview\n\n", &traversal.struct_ids);
    let sov_path = path_join(api_dir, "struct-overview.md");
    proof {
        lemma_pairs_push(writes@, (sov_path, sov_s));
        lemma_arts_push(artifacts@, Artifact { path: sov_path, dir: false });
    }
    writes.push((sov_path.clone(), sov_s));
    artifacts.push(Artifact { path: sov_path, dir: false });
    let tov_s = sorted_overview(source, base_url, "# Trait overview\n\n", &traversal.trait_ids);
    let tov_path = path_join(api_dir, "trait-overview.md");
    proof {
        lemma_pairs_push(writes@, (tov_path, tov_s));
        lemma_arts_push(artifacts@, Artifact { path: tov_path, dir: false });
    }
    writes.push((tov_path.clone(), tov_s));
    artifacts.push(Artifact { path: tov_path, dir: false });
    proof {
        assert(pairs_of(writes@) =~= spec_api_writes(
            src,
            t,
            crate_name@,
            root_id,
            base_url@,
            api_dir@,
            traversal.order@,
            traversal.module_ids@,
            traversal.struct_ids@,
            traversal.trait_ids@,
        ));
        assert(arts_of(artifacts@) =~= spec_api_artifacts(src, t, api_dir@, traversal.order@));
    }
    Ok(ApiPlan { writes, artifacts })
}

/// Creates the analysis-derived section of the documentation: finds the
/// crate's root among the analysis roots, walks every descendant, and
/// compiles the traversal into markdown pages. Succeeds exactly when
/// the crate is among the roots and every needed page renders; on
/// success the plan is the full compilation of the walk from that root,
/// and a missing crate is reported by name, if and only if it is
/// missing.
pub fn create(
    config: &Config,
    source: &DefSource,
    crate_name: &String,
    templates: &ApiTemplates,
) -> (r: Result<ApiPlan, Error>)
    requires
        source.wf(),
    ensures
        ({
            let rid = source.spec_root_id(crate_name@);
            let order = crate::walker::spec_walk_order(*source, rid);
            (r is Ok) == (source.spec_has_root(crate_name@) && spec_render_ok(
                templates.api@,
                spec_readme_context(crate_name@, source.spec_def_of(rid)),
            ) && spec_renders_ok(*source, *templates, order))
        }),
        ({
            let rid = source.spec_root_id(crate_name@);
            let order = crate::walker::spec_walk_order(*source, rid);
            let api_dir = spec_path_join(
                spec_path_join(config.spec_root_path(), "docs"@),
                "api"@,
            );
            r matches Ok(plan) ==> pairs_of(plan.writes@) == spec_api_writes(
                *source,
                *templates,
                crate_name@,
                rid,
                config.spec_base_url(),
                api_dir,
                order,
                crate::walker::spec_classified(*source, order, DefKind::Mod),
                crate::walker::spec_classified(*source, order, DefKind::Struct),
                crate::walker::spec_classified(*source, order, DefKind::Trait),
            ) && arts_of(plan.artifacts@) == spec_api_artifacts(
                *source,
                *templates,
                api_dir,
                order,
            )
        }),
        !source.spec_has_root(crate_name@) ==> (r matches Err(e) && (
        e matches Error::DeclarationNotFound(c) && c.crate_name@ == crate_name@)),
        r matches Err(Error::DeclarationNotFound(_)) ==> !source.spec_has_root(crate_name@),
        r matches Err(e) ==> (e matches Error::DeclarationNotFound(_) || e matches Error::Template {
            ..
        }),
{
    let root_id = match source.root_for(crate_name) {
        Ok(id) => id,
        Err(e) => {
            proof {
                assert(!source.spec_has_root(crate_name@));
            }
            return Err(e);
        },
    };
    proof {
        let i = source.spec_root_index(crate_name@);
        assert(source.spec_roots()[i].1@ == crate_name@);
        assert(source.spec_has_root(crate_name@));
        assert(root_id == source.spec_root_id(crate_name@));
        crate::defs::lemma_roots_resolvable(source.defs@, i);
        assert(source.spec_has(root_id));
    }
    let traversal = walk(source, root_id);
    proof {
        crate::walker::lemma_classified_resolvable(*source, traversal.order@, DefKind::Mod);
        crate::walker::lemma_classified_resolvable(*source, traversal.order@, DefKind::Struct);
        crate::walker::lemma_classified_resolvable(*source, traversal.order@, DefKind::Trait);
    }
    let api_dir = config.api_markdown_path();
    let base = config.base_url().clone();
    api_plan(
        source,
        &traversal,
        crate_name,
        root_id,
        base.as_str(),
        api_dir.as_str(),
        templates,
    )
}

} // verus!
