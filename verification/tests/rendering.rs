use doxidize::error::Error;
use doxidize::pages::{
    build_docs_plan, create_menu, menu_html, page_body, render_page, split_front_matter,
    build_step, BuildEvent, BuildState, DocPage, MenuEntry,
};
use doxidize::render::{markdown_to_html, render_template};

#[test]
fn markdown_conversion_matches_commonmark() {
    let html = markdown_to_html("# Testing\n\ntesting", "rust");
    assert_eq!(html, "<h1>Testing</h1>\n<p>testing</p>\n");
}

#[test]
fn templates_substitute_context_values() {
    let data = vec![(String::from("name"), String::from("world"))];
    let rendered = render_template("Hello {{name}}!", &data).unwrap();
    assert_eq!(rendered, "Hello world!");
}

#[test]
fn strict_templates_reject_missing_keys() {
    let data: Vec<(String, String)> = vec![];
    assert!(render_template("Hello {{name}}!", &data).is_err());
}

#[test]
fn a_template_defining_an_inline_partial_is_turned_away() {
    // Inline partials can make the engine expand partials without
    // bound, so the library refuses them before the engine sees them.
    let rendered = render_page(
        "{{#*inline \"a\"}}{{>b}}{{/inline}}{{#*inline \"b\"}}{{>a}}{{/inline}}{{>a}}",
        "x",
        0,
        "",
        "",
        "t",
        "s",
    );
    match rendered {
        Err(Error::Template { .. }) => {}
        other => panic!("expected a template refusal, got {:?}", other),
    }
    // Whitespace and trim markers inside the opener do not slip through.
    assert!(render_page("{{ ~ #  *inline \"a\"}}x{{/inline}}", "x", 0, "", "", "t", "s").is_err());
}

#[test]
fn literal_stars_in_a_template_are_fine() {
    // Markdown bullets use `*` freely; only a mustache opener leading to
    // the decorator marker is refused.
    let data = vec![(String::from("name"), String::from("w"))];
    let rendered = doxidize::render::try_render("* {{name}} *", &data).unwrap();
    assert_eq!(rendered, "* w *");
}

#[test]
fn front_matter_is_split_off() {
    let (meta, body) = split_front_matter("---\nid = \"x\"\n---\nbody text").unwrap();
    assert_eq!(meta, "\nid = \"x\"\n");
    assert_eq!(body, "body text");
}

#[test]
fn an_unterminated_block_is_malformed() {
    match split_front_matter("---\nid = \"x\"\n") {
        Err(Error::MalformedMetadata(_)) => {}
        other => panic!("expected malformed metadata, got {:?}", other),
    }
}

#[test]
fn a_document_without_a_block_is_taken_whole() {
    assert_eq!(page_body("# Title\n\nwords").unwrap(), "# Title\n\nwords");
}

#[test]
fn a_page_wraps_converted_markdown() {
    let rendered = render_page(
        "{{{contents}}}",
        "# Testing\n\ntesting",
        0,
        "",
        "",
        "Guide",
        "example",
    )
    .unwrap();
    assert_eq!(rendered, "<h1>Testing</h1>\n<p>testing</p>\n");
}

#[test]
fn a_page_sees_its_nesting_depth() {
    let rendered = render_page(
        "{{nest-count}}|{{up-dir}}|{{base-url}}",
        "x",
        2,
        "base",
        "",
        "t",
        "s",
    )
    .unwrap();
    assert_eq!(rendered, "2|../../|base/");
}

#[test]
fn the_docs_plan_renders_one_source_document() {
    let docs = vec![DocPage {
        rel_path: String::from("guide.md"),
        contents: String::from("# Testing\n\ntesting"),
        id: String::from("guide"),
        title: String::from("Guide"),
    }];
    let plan = build_docs_plan(&docs, "{{{contents}}}", "", "example", "").unwrap();
    assert_eq!(plan.writes.len(), 1);
    assert_eq!(plan.writes[0].0, "guide.html");
    assert_eq!(plan.writes[0].1, "<h1>Testing</h1>\n<p>testing</p>\n");
    assert!(plan.dirs.is_empty());
}

#[test]
fn the_docs_plan_keeps_nested_directories() {
    let docs = vec![DocPage {
        rel_path: String::from("nested/guide.md"),
        contents: String::from("---\nid = \"g\"\n---\n# Testing\n\ntesting"),
        id: String::from("g"),
        title: String::from("Guide"),
    }];
    let plan = build_docs_plan(&docs, "{{{contents}}}", "", "example", "").unwrap();
    assert_eq!(plan.writes[0].0, "nested/guide.html");
    assert_eq!(plan.writes[0].1, "<h1>Testing</h1>\n<p>testing</p>\n");
    assert_eq!(plan.dirs, vec![String::from("nested")]);
}

#[test]
fn the_menu_resolves_documents_by_identity() {
    let docs = vec![
        DocPage {
            rel_path: String::from("README.md"),
            contents: String::from("---\nx\n---\noverview"),
            id: String::from("overview"),
            title: String::from("Overview"),
        },
        DocPage {
            rel_path: String::from("guide.md"),
            contents: String::from("---\nx\n---\nguide"),
            id: String::from("guide"),
            title: String::from("The Guide"),
        },
    ];
    let entries = vec![MenuEntry {
        title: String::from("Getting Started"),
        ids: vec![String::from("overview"), String::from("guide")],
    }];
    let sections = create_menu(&entries, &docs).unwrap();
    assert_eq!(sections.len(), 1);
    assert_eq!(sections[0].title, "Getting Started");
    assert_eq!(sections[0].slug, "getting-started");
    assert_eq!(sections[0].items.len(), 2);
    assert_eq!(sections[0].items[0].target, "index.html");
    assert_eq!(sections[0].items[1].target, "guide.html");
    assert_eq!(sections[0].items[1].title, "The Guide");

    let html = menu_html("", &sections);
    assert_eq!(
        html,
        "<h2 id=\"getting-started\">Getting Started</h2>\n<ul>\n\
         <li><a href=\"//index.html\">Overview</a></li>\n\
         <li><a href=\"//guide.html\">The Guide</a></li>\n</ul>\n"
    );
}

#[test]
fn a_menu_entry_must_name_a_document() {
    let docs: Vec<DocPage> = vec![];
    let entries = vec![MenuEntry {
        title: String::from("Broken"),
        ids: vec![String::from("nowhere")],
    }];
    match create_menu(&entries, &docs) {
        Err(Error::MalformedMetadata(_)) => {}
        other => panic!("expected malformed metadata, got {:?}", other),
    }
}

#[test]
fn the_build_pass_advances_and_fails_closed() {
    let s = build_step(BuildState::Idle, BuildEvent::Begin);
    assert_eq!(s, BuildState::Discovering);
    let s = build_step(s, BuildEvent::Discovered);
    assert_eq!(s, BuildState::Rendering);
    assert_eq!(build_step(s, BuildEvent::Rendered), BuildState::Done);
    assert_eq!(build_step(s, BuildEvent::Errored), BuildState::Failed);
    assert_eq!(
        build_step(BuildState::Done, BuildEvent::Begin),
        BuildState::Done
    );
}
