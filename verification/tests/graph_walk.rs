use doxidize::api::{api_plan, ApiTemplates};
use doxidize::defs::{DefKind, DefSource, Definition};
use doxidize::error::Error;
use doxidize::tree::ModuleTree;
use doxidize::walker::walk;

fn def(id: u64, kind: DefKind, name: &str, qualname: &str, parent: Option<u64>) -> Definition {
    Definition {
        id,
        kind,
        name: String::from(name),
        qualname: String::from(qualname),
        parent,
        docs: String::new(),
        value: String::new(),
    }
}

/// A small crate: root 1 with modules `b` (3) and `a` (2), a struct in
/// `a` (4), a trait at the top (5), and a field under the struct (6).
fn sample() -> DefSource {
    DefSource {
        defs: vec![
            def(1, DefKind::Mod, "", "sample", None),
            def(3, DefKind::Mod, "b", "sample::b", Some(1)),
            def(2, DefKind::Mod, "a", "sample::a", Some(1)),
            def(4, DefKind::Struct, "S", "sample::a::S", Some(2)),
            def(5, DefKind::Trait, "T", "sample::T", Some(1)),
            def(6, DefKind::Field, "f", "sample::a::S::f", Some(4)),
        ],
    }
}

#[test]
fn traversal_visits_every_descendant_once_breadth_first() {
    let source = sample();
    let t = walk(&source, 1);
    assert_eq!(t.order, vec![3, 2, 5, 4, 6]);
    assert_eq!(t.module_ids, vec![3, 2]);
    assert_eq!(t.struct_ids, vec![4]);
    assert_eq!(t.trait_ids, vec![5]);
}

#[test]
fn traversal_is_stable_across_runs() {
    let source = sample();
    let first = walk(&source, 1);
    let second = walk(&source, 1);
    assert_eq!(first.order, second.order);
    assert_eq!(first.module_ids, second.module_ids);
    assert_eq!(first.struct_ids, second.struct_ids);
    assert_eq!(first.trait_ids, second.trait_ids);
}

#[test]
fn a_parent_cycle_does_not_hang_the_walk() {
    // Two declarations that claim each other as parent, unreachable
    // from the root: the pre-seen guard keeps the walk finite.
    let source = DefSource {
        defs: vec![
            def(1, DefKind::Mod, "", "c", None),
            def(7, DefKind::Mod, "x", "c::x", Some(8)),
            def(8, DefKind::Mod, "y", "c::y", Some(7)),
        ],
    };
    let t = walk(&source, 1);
    assert!(t.order.is_empty());
}

#[test]
fn the_module_tree_sorts_children_by_name() {
    let source = sample();
    let t = walk(&source, 1);
    let tree = ModuleTree::new(&source, 1, &t.module_ids);
    let ids: Vec<u64> = tree.lines.iter().map(|l| l.id).collect();
    let depths: Vec<usize> = tree.lines.iter().map(|l| l.depth).collect();
    assert_eq!(ids, vec![1, 2, 3]);
    assert_eq!(depths, vec![0, 1, 1]);
}

#[test]
fn definition_lookup_and_children() {
    let source = sample();
    assert_eq!(source.get_def(4).unwrap().name, "S");
    assert!(source.get_def(99).is_none());
    assert_eq!(source.children_of(1), vec![3, 2, 5]);
    let roots = source.def_roots();
    assert_eq!(roots.len(), 1);
    assert_eq!(roots[0].0, 1);
    assert_eq!(roots[0].1, "");
}

#[test]
fn a_missing_crate_is_reported_by_name() {
    let source = sample();
    match source.root_for(&String::from("sample")) {
        Err(Error::DeclarationNotFound(c)) => {
            assert_eq!(c.crate_name, "sample");
        }
        other => panic!("expected a missing crate, got {:?}", other),
    }
    assert_eq!(source.root_for(&String::from("")).unwrap(), 1);
}

fn templates() -> ApiTemplates {
    ApiTemplates {
        api: String::from("api:{{name}}"),
        mod_tpl: String::from("mod:{{name}}"),
        struct_tpl: String::from("struct:{{name}}:{{signature}}"),
        enum_tpl: String::from("enum:{{name}}"),
        trait_tpl: String::from("trait:{{name}}"),
        function_tpl: String::from("function:{{name}}"),
        type_tpl: String::from("type:{{name}}"),
        static_tpl: String::from("static:{{name}}"),
        const_tpl: String::from("const:{{name}}"),
    }
}

#[test]
fn the_analysis_plan_writes_each_documentable_page() {
    let source = sample();
    let t = walk(&source, 1);
    let plan = api_plan(
        &source,
        &t,
        &String::from("sample"),
        1,
        "",
        "docs/api",
        &templates(),
    )
    .unwrap();

    let paths: Vec<&str> = plan.writes.iter().map(|w| w.0.as_str()).collect();
    assert_eq!(
        paths,
        vec![
            "docs/api/README.md",
            "docs/api/b.md",
            "docs/api/a.md",
            "docs/api/T.md",
            "docs/api/a/S.md",
            "docs/api/module-overview.md",
            "docs/api/struct-overview.md",
            "docs/api/trait-overview.md",
        ]
    );
    assert_eq!(plan.writes[0].1, "api:sample");
    assert_eq!(plan.writes[4].1, "struct:S:");
    assert_eq!(
        plan.writes[5].1,
        "# Module overview\n\n* [sample](//api/index.html)\n  * [a](//api/a.html)\n  * [b](//api/b.html)\n"
    );
    assert_eq!(
        plan.writes[6].1,
        "# Struct overview\n\n* [S](//api/a/S.html)\n"
    );
    assert_eq!(
        plan.writes[7].1,
        "# Trait overview\n\n* [T](//api/T.html)\n"
    );

    // The artifact record holds exactly what the pass creates: the
    // crate page, each declaration's directory and page, the overviews.
    let arts: Vec<(&str, bool)> = plan
        .artifacts
        .iter()
        .map(|a| (a.path.as_str(), a.dir))
        .collect();
    assert_eq!(
        arts,
        vec![
            ("docs/api/README.md", false),
            ("docs/api", true),
            ("docs/api/b.md", false),
            ("docs/api", true),
            ("docs/api/a.md", false),
            ("docs/api", true),
            ("docs/api/T.md", false),
            ("docs/api/a", true),
            ("docs/api/a/S.md", false),
            ("docs/api/a/S", true),
            ("docs/api/module-overview.md", false),
            ("docs/api/struct-overview.md", false),
            ("docs/api/trait-overview.md", false),
        ]
    );
}

#[test]
fn a_rejected_template_fails_the_whole_pass() {
    let source = sample();
    let t = walk(&source, 1);
    let mut tpls = templates();
    tpls.struct_tpl = String::from("struct:{{missing}}");
    match api_plan(&source, &t, &String::from("sample"), 1, "", "docs/api", &tpls) {
        Err(Error::Template { .. }) => {}
        other => panic!("expected a template failure, got {:?}", other),
    }
}
