use doxidize::config::Config;
use doxidize::error::Error;
use doxidize::skeleton::{
    check_for_existing_docs, default_readme_content, examples_plan, menu_toml_content,
    publish_paths,
};
use doxidize::ui::{Ui, Verbosity};

#[test]
fn config_paths_derive_from_the_manifest() {
    let config = Config::with_manifest_path(String::from("proj/Cargo.toml"), String::new());
    assert_eq!(config.root_path(), "proj");
    assert_eq!(config.output_path(), "proj/target/docs");
    assert_eq!(config.config_path(), "proj/Doxidize.toml");
    assert_eq!(config.markdown_path(), "proj/docs");
    assert_eq!(config.menu_path(), "proj/docs/Menu.toml");
    assert_eq!(config.public_path(), "proj/target/docs/public");
    assert_eq!(config.readme_path(), "proj/docs/README.md");
    assert_eq!(config.rls_target_path(), "proj/target/rls");
    assert_eq!(config.examples_path(), "proj/examples");
    assert_eq!(config.examples_markdown_path(), "proj/docs/examples");
    assert_eq!(config.api_markdown_path(), "proj/docs/api");
    assert_eq!(config.api_readme_path(), "proj/docs/api/README.md");
    assert_eq!(
        config.api_module_overview_path(),
        "proj/docs/api/module-overview.md"
    );
    assert_eq!(
        config.api_struct_overview_path(),
        "proj/docs/api/struct-overview.md"
    );
    assert_eq!(
        config.api_trait_overview_path(),
        "proj/docs/api/trait-overview.md"
    );
    assert_eq!(config.manifest_path(), "proj/Cargo.toml");
}

#[test]
fn an_output_override_wins() {
    let mut config = Config::with_manifest_path(String::from("Cargo.toml"), String::new());
    assert_eq!(config.root_path(), "");
    assert_eq!(config.output_path(), "target/docs");
    config.set_output_path(String::from("elsewhere"));
    assert_eq!(config.output_path(), "elsewhere");
    assert_eq!(config.public_path(), "elsewhere/public");
}

#[test]
fn initialization_refuses_an_initialized_project() {
    assert!(check_for_existing_docs(false, false, &String::from("p")).is_ok());
    match check_for_existing_docs(true, false, &String::from("p")) {
        Err(Error::AlreadyInitialized(i)) => assert_eq!(i.location, "p"),
        other => panic!("expected already initialized, got {:?}", other),
    }
    assert!(check_for_existing_docs(false, true, &String::from("p")).is_err());
}

#[test]
fn the_seed_readme_declares_the_overview() {
    assert_eq!(
        default_readme_content(),
        "---\nid = \"overview\"\ntitle = \"Overview\"\n---\n# Overview\n\nAn overview of your project."
    );
}

#[test]
fn the_seed_menu_lists_each_example() {
    assert_eq!(
        menu_toml_content(&vec![]),
        "\"Getting Started\" = [\n    \"overview\",\n]\n\n\"Examples\" = [\n]"
    );
    assert_eq!(
        menu_toml_content(&vec![String::from("one.rs"), String::from("two.rs")]),
        "\"Getting Started\" = [\n    \"overview\",\n]\n\n\"Examples\" = [\n    \"one.rs\",\n    \"two.rs\",\n]"
    );
}

#[test]
fn example_sources_render_into_the_examples_tree() {
    let files = vec![(
        String::from("demo.rs"),
        String::from("fn main() {}"),
    )];
    let (writes, ids) = examples_plan(&files, "{{name}}:{{code}}", "docs/examples").unwrap();
    assert_eq!(writes.len(), 1);
    assert_eq!(writes[0].0, "docs/examples/demo.md");
    assert_eq!(writes[0].1, "demo.rs:fn main() {}");
    assert_eq!(ids, vec![String::from("demo.rs")]);
}

#[test]
fn publishing_targets_the_public_tree() {
    let config = Config::with_manifest_path(String::from("p/Cargo.toml"), String::new());
    let (target, head) = publish_paths(&config);
    assert_eq!(target, "p/target/docs/public");
    assert_eq!(head, "p/target/docs/public/.git/refs/heads/master");

    let config = Config::with_manifest_path(String::from("p/Cargo.toml"), String::from("base"));
    let (target, head) = publish_paths(&config);
    assert_eq!(target, "p/target/docs/public/base");
    assert_eq!(head, "p/target/docs/public/base/.git/refs/heads/master");
}

#[test]
fn verbosity_defaults_to_normal() {
    let ui = Ui::default();
    assert_eq!(*ui.verbosity(), Verbosity::Normal);
    let quiet = Ui::new(Verbosity::Quiet);
    assert!(!quiet.verbosity().is_audible());
    assert!(Verbosity::Verbose.is_audible());
}

#[test]
fn error_messages_name_their_cause() {
    let e = Error::DeclarationNotFound(doxidize::error::CrateErr {
        crate_name: String::from("missing"),
    });
    assert_eq!(e.message(), "crate not found: missing");
    let e = Error::Uninitialized(doxidize::error::UninitializedProject {
        location: String::from("p"),
        command: String::from("update"),
    });
    assert_eq!(
        e.message(),
        "package at p is not initialized; run `init` before `update`"
    );
}
