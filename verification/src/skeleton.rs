//! The computed side of project initialization and publishing: what an
//! initialized project must not already have, the seed documents' exact
//! contents, the example pages, and where a published tree lives.

use vstd::prelude::*;

use crate::config::Config;
use crate::error::{Error, InitializedProject};
use crate::paths::{last_index_of, lemma_last_index_of, path_join, spec_path_join, find_last};
use crate::render::{hbs_render, spec_pairs, spec_render_ok, try_render};
use crate::text::{chars_to_string, str_to_chars};

verus! {

/// Whether initialization may proceed: the project must hold neither a
/// configuration document nor a markdown tree yet; running `init` twice
/// is an error.
pub fn check_for_existing_docs(
    config_file_exists: bool,
    docs_dir_exists: bool,
    root_path: &String,
) -> (r: Result<(), Error>)
    ensures
        r is Ok <==> !config_file_exists && !docs_dir_exists,
        r matches Err(e) ==> (e matches Error::AlreadyInitialized(p) && p.location@
            == root_path@),
{
    if config_file_exists || docs_dir_exists {
        Err(Error::AlreadyInitialized(InitializedProject { location: root_path.clone() }))
    } else {
        Ok(())
    }
}

/// The top-level document a fresh project starts with.
pub fn default_readme_content() -> (r: String)
    ensures
        r@
            == "---\nid = \"overview\"\ntitle = \"Overview\"\n---\n# Overview\n\nAn overview of your project."@,
{
    String::from_str(
        "---\nid = \"overview\"\ntitle = \"Overview\"\n---\n# Overview\n\nAn overview of your project.",
    )
}

/// One menu line per example, in discovery order.
pub open spec fn spec_menu_lines(examples: Seq<String>) -> Seq<char>
    decreases examples.len(),
{
    if examples.len() == 0 {
        Seq::empty()
    } else {
        spec_menu_lines(examples.drop_last()) + "    \""@ + examples.last()@ + "\",\n"@
    }
}

/// The menu document a fresh project starts with: the overview under a
/// first section, and one line per example under a second.
pub open spec fn spec_menu_toml(examples: Seq<String>) -> Seq<char> {
    "\"Getting Started\" = [\n    \"overview\",\n]\n\n\"Examples\" = [\n"@ + spec_menu_lines(
        examples,
    ) + "]"@
}

/// Writes the menu document for a fresh project.
pub fn menu_toml_content(examples: &Vec<String>) -> (r: String)
    ensures
        r@ == spec_menu_toml(examples@),
{
    let mut out: Vec<char> = str_to_chars(
        "\"Getting Started\" = [\n    \"overview\",\n]\n\n\"Examples\" = [\n",
    );
    let ghost head = out@;
    let mut i: usize = 0;
    while i < examples.len()
        invariant
            i <= examples@.len(),
            head == "\"Getting Started\" = [\n    \"overview\",\n]\n\n\"Examples\" = [\n"@,
            out@ == head + spec_menu_lines(examples@.subrange(0, i as int)),
        decreases examples@.len() - i,
    {
        proof {
            assert(examples@.subrange(0, i + 1).drop_last() =~= examples@.subrange(0, i as int));
            assert(examples@.subrange(0, i + 1).last() == examples@[i as int]);
        }
        let quote_open = str_to_chars("    \"");
        crate::text::append_chars(&mut out, &quote_open);
        let name = str_to_chars(examples[i].as_str());
        crate::text::append_chars(&mut out, &name);
        let quote_close = str_to_chars("\",\n");
        crate::text::append_chars(&mut out, &quote_close);
        i = i + 1;
        assert(out@ =~= head + spec_menu_lines(examples@.subrange(0, i as int)));
    }
    let bracket = str_to_chars("]");
    proof {
        reveal_strlit("]");
    }
    crate::text::append_chars(&mut out, &bracket);
    proof {
        assert(examples@.subrange(0, examples@.len() as int) =~= examples@);
        assert(out@ =~= spec_menu_toml(examples@));
    }
    chars_to_string(&out)
}

/// An example source's markdown location: its file name with the last
/// extension exchanged for `.md`, or `.md` appended when it has none.
pub open spec fn spec_example_md_name(name: Seq<char>) -> Seq<char> {
    match last_index_of(name, '.') {
        None => name + ".md"@,
        Some(i) => name.take(i) + ".md"@,
    }
}

/// The rendering context of one example page.
pub open spec fn spec_example_context(name: Seq<char>, code: Seq<char>) -> Seq<
    (Seq<char>, Seq<char>),
> {
    seq![("name"@, name), ("code"@, code)]
}

/// Whether every example page renders.
pub open spec fn spec_examples_ok(tpl: Seq<char>, files: Seq<(String, String)>) -> bool {
    forall|k: int|
        0 <= k < files.len() ==> spec_render_ok(
            tpl,
            spec_example_context((#[trigger] files[k]).0@, files[k].1@),
        )
}

/// The write one example produces.
pub open spec fn spec_example_write(tpl: Seq<char>, dir: Seq<char>, f: (String, String)) -> (
    Seq<char>,
    Seq<char>,
) {
    (
        spec_path_join(dir, spec_example_md_name(f.0@)),
        hbs_render(tpl, spec_example_context(f.0@, f.1@))->Some_0,
    )
}

/// The writes of a run of examples, in discovery order.
pub open spec fn spec_example_writes(
    tpl: Seq<char>,
    dir: Seq<char>,
    files: Seq<(String, String)>,
) -> Seq<(Seq<char>, Seq<char>)>
    decreases files.len(),
{
    if files.len() == 0 {
        Seq::empty()
    } else {
        spec_example_writes(tpl, dir, files.drop_last()) + seq![
            spec_example_write(tpl, dir, files.last()),
        ]
    }
}

/// Plans the example pages: each example source, given as its file name
/// and its code, renders through the example template into the examples
/// markdown directory; the returned identities seed the menu. Fails
/// exactly when the template refuses an example.
pub fn examples_plan(
    files: &Vec<(String, String)>,
    example_template: &str,
    examples_dir: &str,
) -> (r: Result<(Vec<(String, String)>, Vec<String>), Error>)
    ensures
        r is Ok <==> spec_examples_ok(example_template@, files@),
        r matches Ok(plan) ==> crate::api::pairs_of(plan.0@) == spec_example_writes(
            example_template@,
            examples_dir@,
            files@,
        ) && crate::pages::names_of(plan.1@) == files@.map_values(|f: (String, String)| f.0@),
        r matches Err(e) ==> e matches Error::Template { .. },
{
    let mut writes: Vec<(String, String)> = Vec::new();
    let mut ids: Vec<String> = Vec::new();
    let mut i: usize = 0;
    while i < files.len()
        invariant
            i <= files@.len(),
            crate::api::pairs_of(writes@) == spec_example_writes(
                example_template@,
                examples_dir@,
                files@.subrange(0, i as int),
            ),
            crate::pages::names_of(ids@) == files@.subrange(0, i as int).map_values(
                |f: (String, String)| f.0@,
            ),
            forall|k: int|
                0 <= k < i ==> spec_render_ok(
                    example_template@,
                    spec_example_context((#[trigger] files@[k]).0@, files@[k].1@),
                ),
        decreases files@.len() - i,
    {
        proof {
            assert(files@.subrange(0, i + 1).drop_last() =~= files@.subrange(0, i as int));
            assert(files@.subrange(0, i + 1).last() == files@[i as int]);
        }
        let name = &files[i].0;
        let code = &files[i].1;
        let mut ctx: Vec<(String, String)> = Vec::new();
        ctx.push((String::from_str("name"), name.clone()));
        ctx.push((String::from_str("code"), code.clone()));
        proof {
            assert(spec_pairs(ctx@) =~= spec_example_context(
                files@[i as int].0@,
                files@[i as int].1@,
            ));
        }
        let content = match try_render(example_template, &ctx) {
            Ok(s) => s,
            Err(m) => {
                return Err(Error::Template { message: m });
            },
        };
        let nv = str_to_chars(name.as_str());
        let mut stem: Vec<char> = Vec::new();
        match find_last(&nv, '.') {
            None => {
                stem = crate::text::copy_chars(&nv);
            },
            Some(p) => {
                proof {
                    lemma_last_index_of(nv@, '.');
                }
                let mut k: usize = 0;
                while k < p
                    invariant
                        p <= nv@.len(),
                        k <= p,
                        stem@ == nv@.subrange(0, k as int),
                    decreases p - k,
                {
                    stem.push(nv[k]);
                    k = k + 1;
                    assert(stem@ =~= nv@.subrange(0, k as int));
                }
            },
        }
        let md = str_to_chars(".md");
        proof {
            reveal_strlit(".md");
        }
        crate::text::append_chars(&mut stem, &md);
        proof {
            assert(stem@ =~= spec_example_md_name(name@));
        }
        let md_name = chars_to_string(&stem);
        let fpath = path_join(examples_dir, md_name.as_str());
        let ghost writes_pre = writes@;
        let ghost ids_pre = ids@;
        writes.push((fpath, content));
        ids.push(name.clone());
        proof {
            assert(crate::api::pairs_of(writes@) =~= crate::api::pairs_of(writes_pre).push(
                (writes@.last().0@, writes@.last().1@),
            ));
            assert(crate::api::pairs_of(writes@) =~= spec_example_writes(
                example_template@,
                examples_dir@,
                files@.subrange(0, i + 1),
            ));
            assert(crate::pages::names_of(ids@) =~= crate::pages::names_of(ids_pre).push(
                ids@.last()@,
            ));
            assert(crate::pages::names_of(ids@) =~= files@.subrange(0, i + 1).map_values(
                |f: (String, String)| f.0@,
            ));
        }
        i = i + 1;
    }
    proof {
        assert(files@.subrange(0, files@.len() as int) =~= files@);
    }
    Ok((writes, ids))
}

/// Where a published site lives: the public tree, pushed down by the
/// base path when one is configured, and the file whose presence says
/// the publishing repository is already wired up.
pub fn publish_paths(config: &Config) -> (r: (String, String))
    ensures
        r.0@ == if config.spec_base_url().len() > 0 {
            spec_path_join(
                spec_path_join(config.spec_output_path(), "public"@),
                config.spec_base_url(),
            )
        } else {
            spec_path_join(config.spec_output_path(), "public"@)
        },
        r.1@ == spec_path_join(r.0@, ".git/refs/heads/master"@),
{
    let public = config.public_path();
    let base = config.base_url();
    let target = if base.as_str().unicode_len() > 0 {
        path_join(public.as_str(), base.as_str())
    } else {
        public
    };
    let head = path_join(target.as_str(), ".git/refs/heads/master");
    (target, head)
}

} // verus!
