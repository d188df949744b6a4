//! Per-project configuration: where the manifest lives, where output
//! goes, and the optional base path the site is published under.
//!
//! All locations are derived from the manifest path by pure string
//! computation, so every getter has an exact contract.

use vstd::prelude::*;

use crate::paths::{last_index_of, lemma_last_index_of, spec_path_join, path_join, find_last};
use crate::text::{chars_to_string, str_to_chars};

verus! {

/// The directory part of a path: everything before its last `/`, or the
/// empty path when it has none.
pub open spec fn spec_parent_dir(p: Seq<char>) -> Seq<char> {
    match last_index_of(p, '/') {
        None => Seq::empty(),
        Some(i) => p.take(i),
    }
}

/// Holds where the documented project lives and where its rendered
/// output is placed.
#[derive(Debug, Clone)]
pub struct Config {
    /// Path to the `Cargo.toml` of the crate being documented.
    manifest_path: String,
    /// Where rendered output is placed, when overridden.
    output_path: Option<String>,
    /// The optional URL sub-path the whole site is published under.
    base_url: String,
}

impl Config {
    /// The manifest path, for contracts.
    pub closed spec fn spec_manifest_path(&self) -> Seq<char> {
        self.manifest_path@
    }

    /// The base path, for contracts.
    pub closed spec fn spec_base_url(&self) -> Seq<char> {
        self.base_url@
    }

    /// The output override, for contracts.
    pub closed spec fn spec_output_override(&self) -> Option<Seq<char>> {
        match self.output_path {
            None => None,
            Some(p) => Some(p@),
        }
    }

    /// The directory containing the manifest, for contracts.
    pub open spec fn spec_root_path(&self) -> Seq<char> {
        spec_parent_dir(self.spec_manifest_path())
    }

    /// The directory where output files are placed, for contracts.
    pub open spec fn spec_output_path(&self) -> Seq<char> {
        match self.spec_output_override() {
            Some(p) => p,
            None => spec_path_join(spec_path_join(self.spec_root_path(), "target"@), "docs"@),
        }
    }

    /// Builds a configuration around a manifest path, with the base path
    /// the project's configuration document supplies (empty when none).
    pub fn with_manifest_path(manifest_path: String, base_url: String) -> (r: Config)
        ensures
            r.spec_manifest_path() == manifest_path@,
            r.spec_base_url() == base_url@,
            r.spec_output_override() is None,
    {
        Config { manifest_path, output_path: None, base_url }
    }

    /// Returns the directory containing the `Cargo.toml` of the crate
    /// being documented.
    pub fn root_path(&self) -> (r: String)
        ensures
            r@ == self.spec_root_path(),
    {
        let v = str_to_chars(self.manifest_path.as_str());
        match find_last(&v, '/') {
            None => {
                let r = String::new();
                r
            },
            Some(i) => {
                proof {
                    lemma_last_index_of(v@, '/');
                }
                let mut out: Vec<char> = Vec::new();
                let mut k: usize = 0;
                while k < i
                    invariant
                        i <= v@.len(),
                        k <= i,
                        out@ == v@.subrange(0, k as int),
                    decreases i - k,
                {
                    out.push(v[k]);
                    k = k + 1;
                    assert(out@ =~= v@.subrange(0, k as int));
                }
                chars_to_string(&out)
            },
        }
    }

    /// Returns the directory where output files should be placed.
    pub fn output_path(&self) -> (r: String)
        ensures
            r@ == self.spec_output_path(),
    {
        match &self.output_path {
            Some(path) => path.clone(),
            None => {
                let root = self.root_path();
                let t = path_join(root.as_str(), "target");
                path_join(t.as_str(), "docs")
            },
        }
    }

    /// Set the directory where output files should be placed.
    pub fn set_output_path(&mut self, output_path: String)
        ensures
            final(self).spec_output_override() == Some(output_path@),
            final(self).spec_manifest_path() == old(self).spec_manifest_path(),
            final(self).spec_base_url() == old(self).spec_base_url(),
    {
        self.output_path = Some(output_path);
    }

    /// The project's own configuration document.
    pub fn config_path(&self) -> (r: String)
        ensures
            r@ == spec_path_join(self.spec_root_path(), "Doxidize.toml"@),
    {
        let root = self.root_path();
        path_join(root.as_str(), "Doxidize.toml")
    }

    /// The menu ordering document inside the markdown tree.
    pub fn menu_path(&self) -> (r: String)
        ensures
            r@ == spec_path_join(spec_path_join(self.spec_root_path(), "docs"@), "Menu.toml"@),
    {
        let md = self.markdown_path();
        path_join(md.as_str(), "Menu.toml")
    }

    /// Where the rendered site itself is placed.
    pub fn public_path(&self) -> (r: String)
        ensures
            r@ == spec_path_join(self.spec_output_path(), "public"@),
    {
        let out = self.output_path();
        path_join(out.as_str(), "public")
    }

    /// The top-level source document of the markdown tree.
    pub fn readme_path(&self) -> (r: String)
        ensures
            r@ == spec_path_join(spec_path_join(self.spec_root_path(), "docs"@), "README.md"@),
    {
        let md = self.markdown_path();
        path_join(md.as_str(), "README.md")
    }

    /// Where the analysis backend keeps its intermediate output.
    pub fn rls_target_path(&self) -> (r: String)
        ensures
            r@ == spec_path_join(spec_path_join(self.spec_root_path(), "target"@), "rls"@),
    {
        let root = self.root_path();
        let t = path_join(root.as_str(), "target");
        path_join(t.as_str(), "rls")
    }

    /// The project's example sources.
    pub fn examples_path(&self) -> (r: String)
        ensures
            r@ == spec_path_join(self.spec_root_path(), "examples"@),
    {
        let root = self.root_path();
        path_join(root.as_str(), "examples")
    }

    /// Where example sources are rendered to markdown.
    pub fn examples_markdown_path(&self) -> (r: String)
        ensures
            r@ == spec_path_join(
                spec_path_join(self.spec_root_path(), "docs"@),
                "examples"@,
            ),
    {
        let md = self.markdown_path();
        path_join(md.as_str(), "examples")
    }

    /// The root of the markdown source tree.
    pub fn markdown_path(&self) -> (r: String)
        ensures
            r@ == spec_path_join(self.spec_root_path(), "docs"@),
    {
        let root = self.root_path();
        path_join(root.as_str(), "docs")
    }

    /// Where the analysis-derived markdown is placed.
    pub fn api_markdown_path(&self) -> (r: String)
        ensures
            r@ == spec_path_join(spec_path_join(self.spec_root_path(), "docs"@), "api"@),
    {
        let md = self.markdown_path();
        path_join(md.as_str(), "api")
    }

    /// The crate-level page of the analysis-derived markdown.
    pub fn api_readme_path(&self) -> (r: String)
        ensures
            r@ == spec_path_join(
                spec_path_join(spec_path_join(self.spec_root_path(), "docs"@), "api"@),
                "README.md"@,
            ),
    {
        let api = self.api_markdown_path();
        path_join(api.as_str(), "README.md")
    }

    /// The module overview page of the analysis-derived markdown.
    pub fn api_module_overview_path(&self) -> (r: String)
        ensures
            r@ == spec_path_join(
                spec_path_join(spec_path_join(self.spec_root_path(), "docs"@), "api"@),
                "module-overview.md"@,
            ),
    {
        let api = self.api_markdown_path();
        path_join(api.as_str(), "module-overview.md")
    }

    /// The struct overview page of the analysis-derived markdown.
    pub fn api_struct_overview_path(&self) -> (r: String)
        ensures
            r@ == spec_path_join(
                spec_path_join(spec_path_join(self.spec_root_path(), "docs"@), "api"@),
                "struct-overview.md"@,
            ),
    {
        let api = self.api_markdown_path();
        path_join(api.as_str(), "struct-overview.md")
    }

    /// The trait overview page of the analysis-derived markdown.
    pub fn api_trait_overview_path(&self) -> (r: String)
        ensures
            r@ == spec_path_join(
                spec_path_join(spec_path_join(self.spec_root_path(), "docs"@), "api"@),
                "trait-overview.md"@,
            ),
    {
        let api = self.api_markdown_path();
        path_join(api.as_str(), "trait-overview.md")
    }

    /// The manifest of the crate being documented.
    pub fn manifest_path(&self) -> (r: &String)
        ensures
            r@ == self.spec_manifest_path(),
    {
        &self.manifest_path
    }

    /// Points the configuration at another manifest.
    pub fn set_manifest_path(&mut self, path: String)
        ensures
            final(self).spec_manifest_path() == path@,
            final(self).spec_base_url() == old(self).spec_base_url(),
            final(self).spec_output_override() == old(self).spec_output_override(),
    {
        self.manifest_path = path;
    }

    /// The optional URL sub-path the site is published under.
    pub fn base_url(&self) -> (r: &String)
        ensures
            r@ == self.spec_base_url(),
    {
        &self.base_url
    }
}

} // verus!
