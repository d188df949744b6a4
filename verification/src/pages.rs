//! The document pass of a build, and the pass's state machine.
//!
//! Source documents carry a metadata block between `---` fences; the
//! body below it is converted to HTML and wrapped in the page template
//! together with the page's nesting depth, the base path, the menu and
//! the titles. The pass is a plan: what to write and which directories
//! to make; executing it is the surrounding program's job.

use vstd::prelude::*;

use crate::error::{Error, Json};
use crate::paths::{
    count_char, dir_part_len, find_last, lemma_count_char_absent, lemma_count_char_concat,
    lemma_count_char_le_len, lemma_last_index_of, markdown_output_path, page_nesting,
    spec_ends_with_md, spec_markdown_output_path, spec_page_nesting, spec_up_dir, up_dir_prefix,
};
use crate::render::{hbs_render, html_of, spec_pairs, spec_render_ok, try_render};
use crate::text::{chars_to_string, dec_chars, find_from, str_to_chars, u64_to_chars};

verus! {

/// Whether a document opens with a `---` metadata fence.
pub open spec fn spec_has_front_matter(s: Seq<char>) -> bool {
    s.len() >= 3 && s.take(3) == "---"@
}

/// Where the closing fence of the metadata block starts, if anywhere.
pub open spec fn spec_front_close(s: Seq<char>) -> Option<int> {
    find_from(s, "---"@, 3)
}

/// The metadata text between the fences.
pub open spec fn spec_front_matter(s: Seq<char>) -> Seq<char> {
    s.subrange(3, spec_front_close(s)->Some_0)
}

/// The document body below the metadata block: everything after the
/// closing fence and the newline that ends its line; an unterminated
/// fence line leaves an empty body rather than failing.
pub open spec fn spec_doc_body(s: Seq<char>) -> Seq<char> {
    let a = spec_front_close(s)->Some_0;
    if a + 4 <= s.len() {
        s.skip(a + 4)
    } else {
        Seq::empty()
    }
}

/// Whether the metadata block is well formed: an opening fence and a
/// closing one.
pub open spec fn spec_front_ok(s: Seq<char>) -> bool {
    spec_has_front_matter(s) && spec_front_close(s) is Some
}

/// Splits a document into its metadata text and its body. A document
/// without an opening or closing fence is malformed metadata; nothing
/// here panics on it.
pub fn split_front_matter(contents: &str) -> (r: Result<(String, String), Error>)
    ensures
        r is Ok <==> spec_front_ok(contents@),
        r matches Ok(p) ==> p.0@ == spec_front_matter(contents@) && p.1@ == spec_doc_body(
            contents@,
        ),
        r matches Err(e) ==> e matches Error::MalformedMetadata(_),
{
    let v = str_to_chars(contents);
    let vlen = v.len();
    let fence = str_to_chars("---");
    proof {
        reveal_strlit("---");
    }
    if v.len() < 3 || !(v[0] == '-' && v[1] == '-' && v[2] == '-') {
        proof {
            if contents@.len() >= 3 && contents@.take(3) == "---"@ {
                assert(contents@.take(3)[0] == '-' && contents@.take(3)[1] == '-'
                    && contents@.take(3)[2] == '-');
                assert(false);
            }
        }
        return Err(
            Error::MalformedMetadata(
                Json { location: String::from_str("missing opening metadata fence") },
            ),
        );
    }
    proof {
        assert(contents@.take(3) =~= "---"@);
    }
    let close = find_sub_from(&v, &fence, 3);
    match close {
        None => Err(
            Error::MalformedMetadata(
                Json { location: String::from_str("missing closing metadata fence") },
            ),
        ),
        Some(a) => {
            proof {
                crate::text::lemma_find_from_bounds(v@, "---"@, 3);
            }
            let mut meta: Vec<char> = Vec::new();
            let mut k: usize = 3;
            while k < a
                invariant
                    3 <= k <= a,
                    a <= v@.len(),
                    meta@ == v@.subrange(3, k as int),
                decreases a - k,
            {
                meta.push(v[k]);
                k = k + 1;
                assert(meta@ =~= v@.subrange(3, k as int));
            }
            let mut body: Vec<char> = Vec::new();
            if vlen >= 4 && a <= vlen - 4 {
                let mut k2: usize = a + 4;
                let start = a + 4;
                while k2 < vlen
                    invariant
                        vlen == v@.len(),
                        start <= k2 <= v@.len(),
                        body@ == v@.subrange(start as int, k2 as int),
                    decreases v@.len() - k2,
                {
                    body.push(v[k2]);
                    k2 = k2 + 1;
                    assert(body@ =~= v@.subrange(start as int, k2 as int));
                }
                assert(body@ =~= v@.skip(start as int));
            }
            proof {
                assert(meta@ =~= spec_front_matter(contents@));
                if a + 4 <= v@.len() {
                    assert(body@ =~= spec_doc_body(contents@));
                } else {
                    assert(body@ =~= spec_doc_body(contents@));
                }
            }
            Ok((chars_to_string(&meta), chars_to_string(&body)))
        },
    }
}

/// The first occurrence of `pat` in `s` at or after `start`.
fn find_sub_from(s: &Vec<char>, pat: &Vec<char>, start: usize) -> (r: Option<usize>)
    requires
        pat@.len() > 0,
    ensures
        match r {
            Some(i) => find_from(s@, pat@, start as int) == Some(i as int),
            None => find_from(s@, pat@, start as int) is None,
        },
{
    if pat.len() > s.len() || start > s.len() - pat.len() {
        proof {
            lemma_find_none_past_end(s@, pat@, start as int);
        }
        return None;
    }
    let slen = s.len();
    let last_start = s.len() - pat.len();
    let mut i: usize = start;
    while i <= last_start
        invariant
            slen == s@.len(),
            pat@.len() > 0,
            pat@.len() <= s@.len(),
            last_start == s@.len() - pat@.len(),
            start <= i <= last_start + 1,
            find_from(s@, pat@, start as int) == find_from(s@, pat@, i as int),
        decreases last_start + 1 - i,
    {
        if crate::text::match_at(s, pat, i) {
            return Some(i);
        }
        i = i + 1;
    }
    None
}

/// Past the last possible start, there is no occurrence.
proof fn lemma_find_none_past_end(s: Seq<char>, pat: Seq<char>, i: int)
    requires
        pat.len() > 0,
        i + pat.len() > s.len() || i < 0,
    ensures
        find_from(s, pat, i) is None,
{
}

/// The context the page template is rendered with. Every value is a
/// string; the menu arrives pre-rendered as HTML rather than as a
/// structured list, so a page template embeds it with one placeholder.
pub open spec fn spec_page_context(
    body_md: Seq<char>,
    nesting: nat,
    base_url: Seq<char>,
    menu: Seq<char>,
    title: Seq<char>,
    site_title: Seq<char>,
) -> Seq<(Seq<char>, Seq<char>)> {
    seq![
        ("contents"@, html_of(body_md, "rust"@)),
        ("nest-count"@, dec_chars(nesting)),
        ("up-dir"@, spec_up_dir(nesting)),
        ("base-url"@, base_url + "/"@),
        ("menu"@, menu),
        ("title"@, title),
        ("site-title"@, site_title),
    ]
}

/// Renders one page: the document body as HTML, wrapped by the page
/// template with the page's nesting depth, its `../` prefix, the base
/// path, the menu and the titles.
pub fn render_page(
    page_template: &str,
    body_md: &str,
    nesting: usize,
    base_url: &str,
    menu: &str,
    title: &str,
    site_title: &str,
) -> (r: Result<String, Error>)
    ensures
        r is Ok <==> spec_render_ok(
            page_template@,
            spec_page_context(body_md@, nesting as nat, base_url@, menu@, title@, site_title@),
        ),
        r matches Ok(s) ==> Some(s@) == hbs_render(
            page_template@,
            spec_page_context(body_md@, nesting as nat, base_url@, menu@, title@, site_title@),
        ),
        r matches Err(e) ==> e matches Error::Template { .. },
{
    let html = crate::render::markdown_to_html(body_md, "rust");
    let nest_chars = u64_to_chars(nesting as u64);
    let nest_s = chars_to_string(&nest_chars);
    let updir = up_dir_prefix(nesting);
    let mut base = str_to_chars(base_url);
    let slash = str_to_chars("/");
    proof {
        reveal_strlit("/");
    }
    crate::text::append_chars(&mut base, &slash);
    let base_s = chars_to_string(&base);
    let mut ctx: Vec<(String, String)> = Vec::new();
    ctx.push((String::from_str("contents"), html));
    ctx.push((String::from_str("nest-count"), nest_s));
    ctx.push((String::from_str("up-dir"), updir));
    ctx.push((String::from_str("base-url"), base_s));
    ctx.push((String::from_str("menu"), String::from_str(menu)));
    ctx.push((String::from_str("title"), String::from_str(title)));
    ctx.push((String::from_str("site-title"), String::from_str(site_title)));
    proof {
        assert(spec_pairs(ctx@) =~= spec_page_context(
            body_md@,
            nesting as nat,
            base_url@,
            menu@,
            title@,
            site_title@,
        ));
    }
    match try_render(page_template, &ctx) {
        Ok(s) => Ok(s),
        Err(m) => Err(Error::Template { message: m }),
    }
}

/// The text a page is rendered from: the body below a well-formed
/// metadata block, or the whole document when no block opens it.
pub open spec fn spec_page_body(s: Seq<char>) -> Seq<char> {
    if spec_has_front_matter(s) {
        spec_doc_body(s)
    } else {
        s
    }
}

/// Whether the document can be rendered: an opening fence, if any, is
/// matched by a closing one.
pub open spec fn spec_page_ok(s: Seq<char>) -> bool {
    spec_has_front_matter(s) ==> spec_front_close(s) is Some
}

/// The renderable text of a document: a document that opens a metadata
/// block but never closes it is malformed; one without a block is taken
/// whole.
pub fn page_body(contents: &str) -> (r: Result<String, Error>)
    ensures
        r is Ok <==> spec_page_ok(contents@),
        r matches Ok(b) ==> b@ == spec_page_body(contents@),
        r matches Err(e) ==> e matches Error::MalformedMetadata(_),
{
    let v = str_to_chars(contents);
    proof {
        reveal_strlit("---");
    }
    if v.len() < 3 || !(v[0] == '-' && v[1] == '-' && v[2] == '-') {
        proof {
            if contents@.len() >= 3 && contents@.take(3) == "---"@ {
                assert(contents@.take(3)[0] == '-' && contents@.take(3)[1] == '-'
                    && contents@.take(3)[2] == '-');
                assert(false);
            }
        }
        return Ok(String::from_str(contents));
    }
    proof {
        assert(contents@.take(3) =~= "---"@);
    }
    match split_front_matter(contents) {
        Ok((_meta, body)) => Ok(body),
        Err(e) => Err(e),
    }
}

/// One discovered source document: where it sits below the markdown
/// root, its raw text, and the identity and title its metadata block
/// declared (empty for analysis-derived pages, which carry no block).
#[derive(Debug, Clone)]
pub struct DocPage {
    /// The document's path relative to the markdown root.
    pub rel_path: String,
    /// The document's raw text.
    pub contents: String,
    /// The identity the menu refers to the document by.
    pub id: String,
    /// The title the rendered page carries.
    pub title: String,
}

/// Whether one document renders: its metadata block is well formed and
/// the page template accepts its context.
pub open spec fn spec_doc_ok(
    tpl: Seq<char>,
    base: Seq<char>,
    site: Seq<char>,
    menu: Seq<char>,
    d: DocPage,
) -> bool {
    &&& spec_page_ok(d.contents@)
    &&& spec_render_ok(
        tpl,
        spec_page_context(
            spec_page_body(d.contents@),
            spec_page_nesting(spec_markdown_output_path(d.rel_path@), base),
            base,
            menu,
            d.title@,
            site,
        ),
    )
}

/// The write one document produces: its output path and rendered page.
pub open spec fn spec_doc_write(
    tpl: Seq<char>,
    base: Seq<char>,
    site: Seq<char>,
    menu: Seq<char>,
    d: DocPage,
) -> (Seq<char>, Seq<char>) {
    let out = spec_markdown_output_path(d.rel_path@);
    (
        out,
        hbs_render(
            tpl,
            spec_page_context(
                spec_page_body(d.contents@),
                spec_page_nesting(out, base),
                base,
                menu,
                d.title@,
                site,
            ),
        )->Some_0,
    )
}

/// The writes of a run of documents, in discovery order.
pub open spec fn spec_doc_writes(
    tpl: Seq<char>,
    base: Seq<char>,
    site: Seq<char>,
    menu: Seq<char>,
    docs: Seq<DocPage>,
) -> Seq<(Seq<char>, Seq<char>)>
    decreases docs.len(),
{
    if docs.len() == 0 {
        Seq::empty()
    } else {
        spec_doc_writes(tpl, base, site, menu, docs.drop_last()) + seq![
            spec_doc_write(tpl, base, site, menu, docs.last()),
        ]
    }
}

/// The output directories the documents need, in discovery order; a
/// document at the output root needs none.
pub open spec fn spec_doc_dirs(docs: Seq<DocPage>) -> Seq<Seq<char>>
    decreases docs.len(),
{
    if docs.len() == 0 {
        Seq::empty()
    } else {
        let parent = crate::config::spec_parent_dir(
            spec_markdown_output_path(docs.last().rel_path@),
        );
        spec_doc_dirs(docs.drop_last()) + if parent.len() > 0 {
            seq![parent]
        } else {
            Seq::empty()
        }
    }
}

/// The views of a vector of paths.
pub open spec fn names_of(s: Seq<String>) -> Seq<Seq<char>> {
    s.map_values(|p: String| p@)
}

/// What the document pass of one build produces: the pages to write,
/// and the directories that must exist before they are written.
#[derive(Debug)]
pub struct DocPlan {
    /// Each page to write: its output-relative path and full content.
    pub writes: Vec<(String, String)>,
    /// The output-relative directories the pages sit in.
    pub dirs: Vec<String>,
}

/// Plans the document pass: every discovered document is rendered
/// through the page template, at the output path its source path maps
/// to, with the nesting depth that path dictates. Fails exactly when a
/// document's metadata block is unterminated or the template refuses a
/// page; a failed pass reports no plan at all.
pub fn build_docs_plan(
    docs: &Vec<DocPage>,
    page_template: &str,
    base_url: &str,
    site_title: &str,
    menu: &str,
) -> (r: Result<DocPlan, Error>)
    requires
        forall|k: int| 0 <= k < docs@.len() ==> spec_ends_with_md((#[trigger] docs@[k]).rel_path@),
    ensures
        r is Ok <==> (forall|k: int|
            0 <= k < docs@.len() ==> spec_doc_ok(
                page_template@,
                base_url@,
                site_title@,
                menu@,
                #[trigger] docs@[k],
            )),
        r matches Ok(plan) ==> crate::api::pairs_of(plan.writes@) == spec_doc_writes(
            page_template@,
            base_url@,
            site_title@,
            menu@,
            docs@,
        ) && names_of(plan.dirs@) == spec_doc_dirs(docs@),
        r matches Err(e) ==> (e matches Error::MalformedMetadata(_) || e matches Error::Template {
            ..
        }),
{
    let mut writes: Vec<(String, String)> = Vec::new();
    let mut dirs: Vec<String> = Vec::new();
    let mut i: usize = 0;
    while i < docs.len()
        invariant
            forall|k: int|
                0 <= k < docs@.len() ==> spec_ends_with_md((#[trigger] docs@[k]).rel_path@),
            i <= docs@.len(),
            crate::api::pairs_of(writes@) == spec_doc_writes(
                page_template@,
                base_url@,
                site_title@,
                menu@,
                docs@.subrange(0, i as int),
            ),
            names_of(dirs@) == spec_doc_dirs(docs@.subrange(0, i as int)),
            forall|k: int|
                0 <= k < i ==> spec_doc_ok(
                    page_template@,
                    base_url@,
                    site_title@,
                    menu@,
                    #[trigger] docs@[k],
                ),
        decreases docs@.len() - i,
    {
        proof {
            assert(docs@.subrange(0, i + 1).drop_last() =~= docs@.subrange(0, i as int));
            assert(docs@.subrange(0, i + 1).last() == docs@[i as int]);
        }
        let d = &docs[i];
        let body = match page_body(d.contents.as_str()) {
            Ok(b) => b,
            Err(e) => {
                return Err(e);
            },
        };
        let out_rel = markdown_output_path(d.rel_path.as_str());
        let out_len = out_rel.as_str().unicode_len();
        proof {
            let p = d.rel_path@;
            let outv = spec_markdown_output_path(p);
            reveal_strlit("index.html");
            reveal_strlit("html");
            lemma_last_index_of(p, '/');
            if p.skip(dir_part_len(p)) == "README.md"@ {
                lemma_count_char_concat(p.take(dir_part_len(p)), "index.html"@, '/');
                lemma_count_char_absent("index.html"@, '/');
                lemma_count_char_le_len(p.take(dir_part_len(p)), '/');
            } else {
                lemma_count_char_concat(p.take(p.len() - 2), "html"@, '/');
                lemma_count_char_absent("html"@, '/');
                lemma_count_char_le_len(p.take(p.len() - 2), '/');
            }
            assert(count_char(outv, '/') + 1 <= out_len);
            assert(spec_page_nesting(outv, base_url@) <= usize::MAX);
        }
        let nesting = page_nesting(out_rel.as_str(), base_url);
        let content = match render_page(
            page_template,
            body.as_str(),
            nesting,
            base_url,
            menu,
            d.title.as_str(),
            site_title,
        ) {
            Ok(s) => s,
            Err(e) => {
                proof {
                    assert(!spec_doc_ok(
                        page_template@,
                        base_url@,
                        site_title@,
                        menu@,
                        docs@[i as int],
                    ));
                }
                return Err(e);
            },
        };
        let ghost writes_pre = writes@;
        writes.push((out_rel.clone(), content));
        proof {
            assert(crate::api::pairs_of(writes@) =~= crate::api::pairs_of(writes_pre).push(
                (writes@.last().0@, writes@.last().1@),
            ));
            assert(crate::api::pairs_of(writes@) =~= spec_doc_writes(
                page_template@,
                base_url@,
                site_title@,
                menu@,
                docs@.subrange(0, i + 1),
            ));
        }
        let v = str_to_chars(out_rel.as_str());
        match find_last(&v, '/') {
            None => {
                proof {
                    assert(names_of(dirs@) =~= spec_doc_dirs(docs@.subrange(0, i + 1)));
                }
            },
            Some(pos) => {
                proof {
                    lemma_last_index_of(v@, '/');
                }
                let mut parent: Vec<char> = Vec::new();
                let mut k: usize = 0;
                while k < pos
                    invariant
                        pos <= v@.len(),
                        k <= pos,
                        parent@ == v@.subrange(0, k as int),
                    decreases pos - k,
                {
                    parent.push(v[k]);
                    k = k + 1;
                    assert(parent@ =~= v@.subrange(0, k as int));
                }
                if parent.len() > 0 {
                    let ghost dirs_pre = dirs@;
                    dirs.push(chars_to_string(&parent));
                    proof {
                        assert(names_of(dirs@) =~= names_of(dirs_pre).push(dirs@.last()@));
                        assert(names_of(dirs@) =~= spec_doc_dirs(docs@.subrange(0, i + 1)));
                    }
                } else {
                    proof {
                        assert(names_of(dirs@) =~= spec_doc_dirs(docs@.subrange(0, i + 1)));
                    }
                }
            },
        }
        i = i + 1;
    }
    proof {
        assert(docs@.subrange(0, docs@.len() as int) =~= docs@);
    }
    Ok(DocPlan { writes, dirs })
}

/// One section of the menu as the configuration document orders it: a
/// heading and the document identities listed under it.
#[derive(Debug, Clone)]
pub struct MenuEntry {
    /// The section's heading.
    pub title: String,
    /// The identities of the documents the section lists, in order.
    pub ids: Vec<String>,
}

/// One resolved menu line: the document's title, identity and output
/// location.
#[derive(Debug, Clone)]
pub struct MenuItem {
    /// The title of the listed document.
    pub title: String,
    /// The identity the menu referred to it by.
    pub id: String,
    /// The document's output-relative location.
    pub target: String,
}

/// One resolved menu section.
#[derive(Debug, Clone)]
pub struct MenuSection {
    /// The section's heading.
    pub title: String,
    /// The heading reduced to an anchor.
    pub slug: String,
    /// The resolved lines of the section, in configured order.
    pub items: Vec<MenuItem>,
}

/// One character of an anchor: ASCII lower-case letters and digits are
/// kept, upper-case letters are lowered, anything else becomes a dash.
/// The mapping is one character for one: runs of dashes are neither
/// coalesced nor trimmed, so an anchor is always as long as its
/// heading.
pub open spec fn spec_slug_char(c: char) -> char {
    if (97 <= c as u32 && c as u32 <= 122) || (48 <= c as u32 && c as u32 <= 57) {
        c
    } else if 65 <= c as u32 && c as u32 <= 90 {
        (((c as u32) + 32) as u8) as char
    } else {
        '-'
    }
}

/// A heading reduced to an anchor, character by character.
pub open spec fn spec_slug(t: Seq<char>) -> Seq<char> {
    t.map_values(|c: char| spec_slug_char(c))
}

/// Reduces a heading to an anchor.
pub fn slug_of(t: &str) -> (r: String)
    ensures
        r@ == spec_slug(t@),
{
    let v = str_to_chars(t);
    let mut out: Vec<char> = Vec::new();
    let mut i: usize = 0;
    while i < v.len()
        invariant
            i <= v@.len(),
            out@ == spec_slug(v@.subrange(0, i as int)),
        decreases v@.len() - i,
    {
        let c = v[i];
        let u = c as u32;
        if (97 <= u && u <= 122) || (48 <= u && u <= 57) {
            out.push(c);
        } else if 65 <= u && u <= 90 {
            let b: u8 = (u + 32) as u8;
            out.push(b as char);
        } else {
            out.push('-');
        }
        i = i + 1;
        assert(out@ =~= spec_slug(v@.subrange(0, i as int)));
    }
    assert(v@.subrange(0, v@.len() as int) =~= v@);
    chars_to_string(&out)
}

/// The index of the first document carrying the identity, or the
/// document count when none does.
pub open spec fn spec_find_doc(docs: Seq<DocPage>, id: Seq<char>) -> int
    decreases docs.len(),
{
    if docs.len() == 0 {
        0
    } else if docs[0].id@ == id {
        0
    } else {
        1 + spec_find_doc(docs.drop_first(), id)
    }
}

/// A scan that passed only mismatches stands at the first match, or at
/// the end when nothing matches.
proof fn lemma_find_doc_at(docs: Seq<DocPage>, id: Seq<char>, j: int)
    requires
        0 <= j <= docs.len(),
        forall|k: int| 0 <= k < j ==> (#[trigger] docs[k]).id@ != id,
        j < docs.len() ==> docs[j].id@ == id,
    ensures
        spec_find_doc(docs, id) == j,
    decreases docs.len(),
{
    if docs.len() > 0 && docs[0].id@ != id {
        let rest = docs.drop_first();
        assert(forall|k: int| 0 <= k < rest.len() ==> rest[k] == docs[k + 1]);
        lemma_find_doc_at(rest, id, j - 1);
    }
}

/// Resolves the configured menu against the discovered documents: each
/// listed identity must name a discovered document, and resolves to its
/// title and output location. An identity that names nothing is
/// malformed configuration.
pub fn create_menu(entries: &Vec<MenuEntry>, docs: &Vec<DocPage>) -> (r: Result<
    Vec<MenuSection>,
    Error,
>)
    requires
        forall|k: int| 0 <= k < docs@.len() ==> spec_ends_with_md((#[trigger] docs@[k]).rel_path@),
    ensures
        r is Ok <==> (forall|j: int, k: int|
            0 <= j < entries@.len() && 0 <= k < entries@[j].ids@.len() ==> spec_find_doc(
                docs@,
                (#[trigger] entries@[j].ids@[k])@,
            ) < docs@.len()),
        r matches Ok(sections) ==> sections@.len() == entries@.len() && (forall|j: int|
            0 <= j < entries@.len() ==> {
                let s = #[trigger] sections@[j];
                let e = entries@[j];
                &&& s.title@ == e.title@
                &&& s.slug@ == spec_slug(e.title@)
                &&& s.items@.len() == e.ids@.len()
                &&& forall|k: int|
                    0 <= k < e.ids@.len() ==> {
                        let f = spec_find_doc(docs@, e.ids@[k]@);
                        &&& (#[trigger] s.items@[k]).title@ == docs@[f].title@
                        &&& s.items@[k].id@ == e.ids@[k]@
                        &&& s.items@[k].target@ == spec_markdown_output_path(docs@[f].rel_path@)
                    }
            }),
        r matches Err(e) ==> e matches Error::MalformedMetadata(_),
{
    let mut sections: Vec<MenuSection> = Vec::new();
    let mut j: usize = 0;
    while j < entries.len()
        invariant
            forall|k: int|
                0 <= k < docs@.len() ==> spec_ends_with_md((#[trigger] docs@[k]).rel_path@),
            j <= entries@.len(),
            sections@.len() == j,
            forall|a: int, b: int|
                0 <= a < j && 0 <= b < entries@[a].ids@.len() ==> spec_find_doc(
                    docs@,
                    (#[trigger] entries@[a].ids@[b])@,
                ) < docs@.len(),
            forall|a: int|
                0 <= a < j ==> {
                    let s = #[trigger] sections@[a];
                    let e = entries@[a];
                    &&& s.title@ == e.title@
                    &&& s.slug@ == spec_slug(e.title@)
                    &&& s.items@.len() == e.ids@.len()
                    &&& forall|k: int|
                        0 <= k < e.ids@.len() ==> {
                            let f = spec_find_doc(docs@, e.ids@[k]@);
                            &&& (#[trigger] s.items@[k]).title@ == docs@[f].title@
                            &&& s.items@[k].id@ == e.ids@[k]@
                            &&& s.items@[k].target@ == spec_markdown_output_path(
                                docs@[f].rel_path@,
                            )
                        }
                },
        decreases entries@.len() - j,
    {
        let e = &entries[j];
        let mut items: Vec<MenuItem> = Vec::new();
        let mut k: usize = 0;
        while k < e.ids.len()
            invariant
                forall|m: int|
                    0 <= m < docs@.len() ==> spec_ends_with_md((#[trigger] docs@[m]).rel_path@),
                e == &entries@[j as int],
                j < entries@.len(),
                k <= e.ids@.len(),
                items@.len() == k,
                forall|b: int|
                    0 <= b < k ==> spec_find_doc(docs@, (#[trigger] e.ids@[b])@) < docs@.len(),
                forall|b: int|
                    0 <= b < k ==> {
                        let f = spec_find_doc(docs@, e.ids@[b]@);
                        &&& (#[trigger] items@[b]).title@ == docs@[f].title@
                        &&& items@[b].id@ == e.ids@[b]@
                        &&& items@[b].target@ == spec_markdown_output_path(docs@[f].rel_path@)
                    },
            decreases e.ids@.len() - k,
        {
            let id = &e.ids[k];
            let mut di: usize = 0;
            let mut found: Option<usize> = None;
            while di < docs.len()
                invariant_except_break
                    di <= docs@.len(),
                    found is None,
                    forall|m: int| 0 <= m < di ==> (#[trigger] docs@[m]).id@ != id@,
                ensures
                    match found {
                        Some(f) => f < docs@.len() && docs@[f as int].id@ == id@ && (forall|m: int|
                            0 <= m < f ==> (#[trigger] docs@[m]).id@ != id@),
                        None => forall|m: int|
                            0 <= m < docs@.len() ==> (#[trigger] docs@[m]).id@ != id@,
                    },
                decreases docs@.len() - di,
            {
                if docs[di].id.eq(id) {
                    found = Some(di);
                    break ;
                }
                di = di + 1;
            }
            match found {
                None => {
                    proof {
                        lemma_find_doc_at(docs@, id@, docs@.len() as int);
                        assert(!(spec_find_doc(docs@, entries@[j as int].ids@[k as int]@)
                            < docs@.len()));
                    }
                    return Err(
                        Error::MalformedMetadata(
                            Json { location: String::from_str("menu names an unknown document") },
                        ),
                    );
                },
                Some(f) => {
                    proof {
                        lemma_find_doc_at(docs@, id@, f as int);
                    }
                    let doc = &docs[f];
                    let target = markdown_output_path(doc.rel_path.as_str());
                    items.push(
                        MenuItem { title: doc.title.clone(), id: id.clone(), target },
                    );
                },
            }
            k = k + 1;
        }
        sections.push(
            MenuSection {
                title: e.title.clone(),
                slug: slug_of(e.title.as_str()),
                items,
            },
        );
        j = j + 1;
    }
    Ok(sections)
}

/// One menu line as HTML: a link to the document's page from the site
/// root.
pub open spec fn spec_item_html(base: Seq<char>, it: MenuItem) -> Seq<char> {
    "<li><a href=\"/"@ + base + "/"@ + it.target@ + "\">"@ + it.title@ + "</a></li>\n"@
}

/// The lines of one section, in order.
pub open spec fn spec_items_html(base: Seq<char>, items: Seq<MenuItem>) -> Seq<char>
    decreases items.len(),
{
    if items.len() == 0 {
        Seq::empty()
    } else {
        spec_items_html(base, items.drop_last()) + spec_item_html(base, items.last())
    }
}

/// One menu section as HTML: an anchored heading and its list of links.
pub open spec fn spec_section_html(base: Seq<char>, s: MenuSection) -> Seq<char> {
    "<h2 id=\""@ + s.slug@ + "\">"@ + s.title@ + "</h2>\n<ul>\n"@ + spec_items_html(
        base,
        s.items@,
    ) + "</ul>\n"@
}

/// The whole menu as HTML, section after section.
pub open spec fn spec_menu_html(base: Seq<char>, sections: Seq<MenuSection>) -> Seq<char>
    decreases sections.len(),
{
    if sections.len() == 0 {
        Seq::empty()
    } else {
        spec_menu_html(base, sections.drop_last()) + spec_section_html(base, sections.last())
    }
}

/// Renders the resolved menu as the HTML the page template embeds.
pub fn menu_html(base_url: &str, sections: &Vec<MenuSection>) -> (r: String)
    ensures
        r@ == spec_menu_html(base_url@, sections@),
{
    let base = str_to_chars(base_url);
    let mut out: Vec<char> = Vec::new();
    let mut j: usize = 0;
    while j < sections.len()
        invariant
            base@ == base_url@,
            j <= sections@.len(),
            out@ == spec_menu_html(base_url@, sections@.subrange(0, j as int)),
        decreases sections@.len() - j,
    {
        proof {
            assert(sections@.subrange(0, j + 1).drop_last() =~= sections@.subrange(0, j as int));
            assert(sections@.subrange(0, j + 1).last() == sections@[j as int]);
        }
        let s = &sections[j];
        let h_open = str_to_chars("<h2 id=\"");
        crate::text::append_chars(&mut out, &h_open);
        let slug = str_to_chars(s.slug.as_str());
        crate::text::append_chars(&mut out, &slug);
        let h_mid = str_to_chars("\">");
        crate::text::append_chars(&mut out, &h_mid);
        let title = str_to_chars(s.title.as_str());
        crate::text::append_chars(&mut out, &title);
        let h_close = str_to_chars("</h2>\n<ul>\n");
        crate::text::append_chars(&mut out, &h_close);
        let mut k: usize = 0;
        let ghost mid_text = out@;
        while k < s.items.len()
            invariant
                base@ == base_url@,
                s == &sections@[j as int],
                j < sections@.len(),
                k <= s.items@.len(),
                out@ == mid_text + spec_items_html(base_url@, s.items@.subrange(0, k as int)),
            decreases s.items@.len() - k,
        {
            proof {
                assert(s.items@.subrange(0, k + 1).drop_last() =~= s.items@.subrange(0, k as int));
                assert(s.items@.subrange(0, k + 1).last() == s.items@[k as int]);
            }
            let it = &s.items[k];
            let li_open = str_to_chars("<li><a href=\"/");
            crate::text::append_chars(&mut out, &li_open);
            crate::text::append_chars(&mut out, &base);
            let slash = str_to_chars("/");
            crate::text::append_chars(&mut out, &slash);
            let target = str_to_chars(it.target.as_str());
            crate::text::append_chars(&mut out, &target);
            let a_mid = str_to_chars("\">");
            crate::text::append_chars(&mut out, &a_mid);
            let ititle = str_to_chars(it.title.as_str());
            crate::text::append_chars(&mut out, &ititle);
            let li_close = str_to_chars("</a></li>\n");
            crate::text::append_chars(&mut out, &li_close);
            k = k + 1;
            assert(out@ =~= mid_text + spec_items_html(
                base_url@,
                s.items@.subrange(0, k as int),
            ));
        }
        proof {
            assert(s.items@.subrange(0, s.items@.len() as int) =~= s.items@);
        }
        let ul_close = str_to_chars("</ul>\n");
        crate::text::append_chars(&mut out, &ul_close);
        j = j + 1;
        assert(out@ =~= spec_menu_html(base_url@, sections@.subrange(0, j as int)));
    }
    proof {
        assert(sections@.subrange(0, sections@.len() as int) =~= sections@);
    }
    chars_to_string(&out)
}

/// Where the build pass stands. A failed pass aborts the rest of the
/// pass and never reports a partial artifact record as authoritative.
#[derive(Debug, PartialEq, Eq, Structural, Clone, Copy)]
pub enum BuildState {
    /// Nothing has begun.
    Idle,
    /// Source documents are being enumerated and the analysis loaded.
    Discovering,
    /// Pages are being rendered and overview pages generated.
    Rendering,
    /// The pass finished and its artifact record is authoritative.
    Done,
    /// Discovery, rendering or analysis failed; the pass is abandoned.
    Failed,
}

/// What moves the build pass forward.
#[derive(Debug, PartialEq, Eq, Structural, Clone, Copy)]
pub enum BuildEvent {
    /// The pass begins.
    Begin,
    /// Sources are enumerated and the definition source is loaded.
    Discovered,
    /// Every page was rendered and recorded.
    Rendered,
    /// Discovery, rendering or the analysis load failed.
    Errored,
}

/// The build pass's transition function: begin, discover, render, done;
/// any error aborts the pass; anything out of order changes nothing.
pub open spec fn spec_build_step(s: BuildState, e: BuildEvent) -> BuildState {
    match (s, e) {
        (BuildState::Idle, BuildEvent::Begin) => BuildState::Discovering,
        (BuildState::Discovering, BuildEvent::Discovered) => BuildState::Rendering,
        (BuildState::Rendering, BuildEvent::Rendered) => BuildState::Done,
        (BuildState::Idle, BuildEvent::Errored) => BuildState::Failed,
        (BuildState::Discovering, BuildEvent::Errored) => BuildState::Failed,
        (BuildState::Rendering, BuildEvent::Errored) => BuildState::Failed,
        (_, _) => s,
    }
}

/// Advances the build pass by one event.
pub fn build_step(s: BuildState, e: BuildEvent) -> (r: BuildState)
    ensures
        r == spec_build_step(s, e),
{
    match (s, e) {
        (BuildState::Idle, BuildEvent::Begin) => BuildState::Discovering,
        (BuildState::Discovering, BuildEvent::Discovered) => BuildState::Rendering,
        (BuildState::Rendering, BuildEvent::Rendered) => BuildState::Done,
        (BuildState::Idle, BuildEvent::Errored) => BuildState::Failed,
        (BuildState::Discovering, BuildEvent::Errored) => BuildState::Failed,
        (BuildState::Rendering, BuildEvent::Errored) => BuildState::Failed,
        (s2, _) => s2,
    }
}

} // verus!
