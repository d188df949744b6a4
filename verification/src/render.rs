//! Rendering: selecting a template for each declaration kind, turning
//! markdown into HTML, and filling templates with context values.
//!
//! The markdown conversion and the template engine are outside
//! collaborators; each is reached through one trusted wrapper whose
//! result is named, and everything composed on top of them is verified
//! against those names.

use vstd::prelude::*;

use crate::defs::{DefKind, Definition};
use crate::text::{chars_to_string, str_to_chars};

verus! {

/// What the markdown converter returns for the given text and default
/// code-block info string; the result depends on those arguments alone.
pub uninterp spec fn html_of(md: Seq<char>, info: Seq<char>) -> Seq<char>;

/// Relies on `comrak::markdown_to_html`: converts markdown text to
/// HTML, a total function of the text and the configured default info
/// string for fenced code blocks.
#[verifier::external_body]
pub fn markdown_to_html(md: &str, info: &str) -> (r: String)
    ensures
        r@ == html_of(md@, info@),
{
    let mut options = comrak::Options::default();
    options.parse.default_info_string = Some(info.to_string());
    comrak::markdown_to_html(md, &options)
}

/// What the template engine returns for the given template text and
/// context pairs: the rendered text, or nothing when the template is
/// rejected. The result depends on those arguments alone.
pub uninterp spec fn hbs_render(tpl: Seq<char>, data: Seq<(Seq<char>, Seq<char>)>) -> Option<
    Seq<char>,
>;

/// The context pairs as the naming of the template engine's result
/// sees them.
pub open spec fn spec_pairs(data: Seq<(String, String)>) -> Seq<(Seq<char>, Seq<char>)> {
    data.map_values(|p: (String, String)| (p.0@, p.1@))
}

/// A character the template grammar lets stand between a mustache
/// opener and the decorator marker: whitespace, the whitespace-trim
/// marker `~`, and the block marker `#`.
pub open spec fn spec_filler(c: char) -> bool {
    c == ' ' || c == '\t' || c == '\n' || c == '\r' || c == '~' || c == '#'
}

/// Whether the template could define an inline partial starting at `i`:
/// a mustache opener whose first following non-filler character is the
/// decorator marker `*`. This over-approximates the engine's grammar
/// (it also matches escaped or otherwise unparsable openers), which
/// only turns more templates away.
pub open spec fn spec_decorator_at(tpl: Seq<char>, i: int) -> bool {
    &&& 0 <= i
    &&& i + 1 < tpl.len()
    &&& tpl[i] == '{'
    &&& tpl[i + 1] == '{'
    &&& exists|j: int|
        i + 1 < j < tpl.len() && tpl[j] == '*' && (forall|k: int|
            i + 2 <= k < j ==> spec_filler(#[trigger] tpl[k]))
}

/// Whether the template holds any inline-partial definition site.
pub open spec fn spec_defines_partial(tpl: Seq<char>) -> bool {
    exists|i: int| spec_decorator_at(tpl, i)
}

/// Decides whether a character is decorator filler.
fn is_filler(c: char) -> (r: bool)
    ensures
        r == spec_filler(c),
{
    c == ' ' || c == '\t' || c == '\n' || c == '\r' || c == '~' || c == '#'
}

/// Decides whether the template holds any inline-partial definition
/// site.
pub fn defines_partial(tpl: &Vec<char>) -> (r: bool)
    ensures
        r == spec_defines_partial(tpl@),
{
    let n = tpl.len();
    let mut i: usize = 0;
    while i < n
        invariant
            n == tpl@.len(),
            i <= n,
            forall|p: int| 0 <= p < i ==> !spec_decorator_at(tpl@, p),
        decreases n - i,
    {
        if i + 1 < n && tpl[i] == '{' && tpl[i + 1] == '{' {
            let mut m: usize = i + 2;
            loop
                invariant_except_break
                    n == tpl@.len(),
                    i + 2 <= m <= n,
                    forall|k: int| i + 2 <= k < m ==> spec_filler(#[trigger] tpl@[k]),
                ensures
                    n == tpl@.len(),
                    i + 2 <= m <= n,
                    forall|k: int| i + 2 <= k < m ==> spec_filler(#[trigger] tpl@[k]),
                    m < n ==> !spec_filler(tpl@[m as int]),
                decreases n - m,
            {
                if m >= n {
                    break ;
                }
                if !is_filler(tpl[m]) {
                    break ;
                }
                m = m + 1;
            }
            if m < n && tpl[m] == '*' {
                proof {
                    assert(spec_decorator_at(tpl@, i as int));
                }
                return true;
            }
            proof {
                assert(!spec_decorator_at(tpl@, i as int)) by {
                    if spec_decorator_at(tpl@, i as int) {
                        let j = choose|j: int|
                            i + 1 < j < tpl@.len() && tpl@[j] == '*' && (forall|k: int|
                                i + 2 <= k < j ==> spec_filler(#[trigger] tpl@[k]));
                        if j < m {
                            assert(spec_filler(tpl@[j]));
                        } else if j == m {
                            assert(tpl@[m as int] == '*');
                        } else {
                            assert(spec_filler(tpl@[m as int]));
                        }
                        assert(false);
                    }
                }
            }
        }
        i = i + 1;
    }
    proof {
        assert forall|p: int| !spec_decorator_at(tpl@, p) by {
            if 0 <= p && p + 1 < tpl@.len() {
                assert(!spec_decorator_at(tpl@, p));
            }
        }
    }
    false
}

/// Relies on `handlebars::Handlebars::render_template`: renders a
/// template string against string context values, in strict mode, with
/// a registry that holds nothing else. The engine expands partial
/// references without a depth bound, so a template that defines inline
/// partials could make it recurse forever; such templates are excluded
/// here, and with none defined and the registry empty every remaining
/// partial reference resolves to a strict subterm or fails, so the call
/// returns.
#[verifier::external_body]
pub fn render_template(tpl: &str, data: &Vec<(String, String)>) -> (r: Result<String, String>)
    requires
        !spec_defines_partial(tpl@),
    ensures
        r is Ok <==> hbs_render(tpl@, spec_pairs(data@)) is Some,
        r matches Ok(s) ==> Some(s@) == hbs_render(tpl@, spec_pairs(data@)),
{
    let mut map = std::collections::BTreeMap::new();
    for (k, v) in data.iter() {
        map.insert(k.clone(), v.clone());
    }
    let mut engine = handlebars::Handlebars::new();
    engine.set_strict_mode(true);
    engine.render_template(tpl, &map).map_err(|e| e.to_string())
}

/// Whether a template is accepted outright: it defines no inline
/// partial, and the engine renders it against the given context.
pub open spec fn spec_render_ok(tpl: Seq<char>, data: Seq<(Seq<char>, Seq<char>)>) -> bool {
    !spec_defines_partial(tpl) && hbs_render(tpl, data) is Some
}

/// Renders a template after turning away any that could define an
/// inline partial; everything in this crate renders through here, so no
/// template the engine might loop on ever reaches it.
pub fn try_render(tpl: &str, data: &Vec<(String, String)>) -> (r: Result<String, String>)
    ensures
        r is Ok <==> spec_render_ok(tpl@, spec_pairs(data@)),
        r matches Ok(s) ==> Some(s@) == hbs_render(tpl@, spec_pairs(data@)),
{
    let v = str_to_chars(tpl);
    if defines_partial(&v) {
        Err(String::from_str("template defines an inline partial"))
    } else {
        render_template(tpl, data)
    }
}

/// The name of the template for a declaration kind, when the kind is
/// documentable at all.
pub open spec fn spec_template_for_defkind(k: DefKind) -> Option<Seq<char>> {
    match k {
        DefKind::Mod => Some("mod"@),
        DefKind::Struct => Some("struct"@),
        DefKind::Enum => Some("enum"@),
        DefKind::Trait => Some("trait"@),
        DefKind::Function => Some("function"@),
        DefKind::Type => Some("type"@),
        DefKind::Static => Some("static"@),
        DefKind::Const => Some("const"@),
        DefKind::Field => None,
        DefKind::Tuple => None,
        DefKind::Local => None,
        DefKind::Other => None,
    }
}

/// Returns the name of the template for a given declaration kind; a
/// kind outside the eight documentable ones selects nothing and the
/// declaration produces no page.
pub fn template_for_defkind(def_kind: DefKind) -> (r: Option<&'static str>)
    ensures
        match r {
            Some(s) => spec_template_for_defkind(def_kind) == Some(s@),
            None => spec_template_for_defkind(def_kind) is None,
        },
{
    match def_kind {
        DefKind::Mod => Some("mod"),
        DefKind::Struct => Some("struct"),
        DefKind::Enum => Some("enum"),
        DefKind::Trait => Some("trait"),
        DefKind::Function => Some("function"),
        DefKind::Type => Some("type"),
        DefKind::Static => Some("static"),
        DefKind::Const => Some("const"),
        DefKind::Field => None,
        DefKind::Tuple => None,
        DefKind::Local => None,
        DefKind::Other => None,
    }
}

/// The markdown link for a declaration, relative to the documentation
/// root: the crate root links to the crate overview under its first
/// qualified-name segment; anything else links to its own page below
/// `api/`, under the directories its qualified name dictates.
pub open spec fn spec_link_for_def(base_url: Seq<char>, d: Definition) -> Seq<char> {
    let lead = "/"@ + base_url;
    if d.name@.len() == 0 {
        "["@ + crate::text::split_by(d.qualname@, "::"@)[0] + "]("@ + lead + "/api/index.html"@
            + ")"@
    } else {
        let dir = crate::paths::spec_name_to_path(d.qualname@);
        let dir_part = if dir.len() == 0 {
            dir
        } else {
            dir + "/"@
        };
        "["@ + d.name@ + "]("@ + lead + "/api/"@ + dir_part + d.name@ + ".html"@ + ")"@
    }
}

/// Returns a markdown-formatted link to the documentation page of the
/// given declaration.
pub fn link_for_def(base_url: &str, d: &Definition) -> (r: String)
    ensures
        r@ == spec_link_for_def(base_url@, *d),
{
    let mut out: Vec<char> = str_to_chars("[");
    let base = str_to_chars(base_url);
    let slash = str_to_chars("/");
    proof {
        reveal_strlit("[");
        reveal_strlit("/");
    }
    if d.name.as_str().unicode_len() == 0 {
        let qual = str_to_chars(d.qualname.as_str());
        let sep = str_to_chars("::");
        proof {
            reveal_strlit("::");
        }
        let segs = crate::text::split_chars(&qual, &sep);
        crate::text::append_chars(&mut out, &segs[0]);
        let mid = str_to_chars("](");
        crate::text::append_chars(&mut out, &mid);
        crate::text::append_chars(&mut out, &slash);
        crate::text::append_chars(&mut out, &base);
        let tail = str_to_chars("/api/index.html)");
        crate::text::append_chars(&mut out, &tail);
        proof {
            reveal_strlit("](");
            reveal_strlit("/api/index.html)");
            reveal_strlit("/api/index.html");
            reveal_strlit(")");
            assert("/api/index.html)"@ =~= "/api/index.html"@ + ")"@);
            assert(out@ =~= spec_link_for_def(base_url@, *d));
        }
        chars_to_string(&out)
    } else {
        let name = str_to_chars(d.name.as_str());
        crate::text::append_chars(&mut out, &name);
        let mid = str_to_chars("](");
        crate::text::append_chars(&mut out, &mid);
        crate::text::append_chars(&mut out, &slash);
        crate::text::append_chars(&mut out, &base);
        let api = str_to_chars("/api/");
        crate::text::append_chars(&mut out, &api);
        let dir_s = crate::paths::name_to_path(d.qualname.as_str());
        let dir = str_to_chars(dir_s.as_str());
        if dir.len() > 0 {
            crate::text::append_chars(&mut out, &dir);
            crate::text::append_chars(&mut out, &slash);
        }
        crate::text::append_chars(&mut out, &name);
        let tail = str_to_chars(".html)");
        crate::text::append_chars(&mut out, &tail);
        proof {
            reveal_strlit("](");
            reveal_strlit("/api/");
            reveal_strlit(".html)");
            reveal_strlit(".html");
            reveal_strlit(")");
            assert(".html)"@ =~= ".html"@ + ")"@);
            assert(out@ =~= spec_link_for_def(base_url@, *d));
        }
        chars_to_string(&out)
    }
}

} // verus!
