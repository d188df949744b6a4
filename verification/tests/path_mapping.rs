use doxidize::paths::{markdown_output_path, page_nesting, path_join, up_dir_prefix};

#[test]
fn readme_becomes_index() {
    assert_eq!(markdown_output_path("README.md"), "index.html");
}

#[test]
fn markdown_becomes_html() {
    assert_eq!(markdown_output_path("guide.md"), "guide.html");
}

#[test]
fn nested_paths_are_kept() {
    assert_eq!(markdown_output_path("nested/guide.md"), "nested/guide.html");
}

#[test]
fn nested_readme_becomes_nested_index() {
    assert_eq!(markdown_output_path("nested/README.md"), "nested/index.html");
}

#[test]
fn a_readme_named_file_deeper_down_still_maps() {
    assert_eq!(
        markdown_output_path("a/b/README.md"),
        "a/b/index.html"
    );
}

#[test]
fn nesting_depth_counts_directories() {
    assert_eq!(page_nesting("a/b/page.html", ""), 2);
}

#[test]
fn nesting_depth_counts_the_base_path() {
    assert_eq!(page_nesting("a/b/page.html", "project"), 3);
}

#[test]
fn nesting_depth_of_a_root_page_is_zero() {
    assert_eq!(page_nesting("index.html", ""), 0);
}

#[test]
fn up_dir_prefix_climbs() {
    assert_eq!(up_dir_prefix(0), "");
    assert_eq!(up_dir_prefix(3), "../../../");
}

#[test]
fn path_join_skips_an_empty_left_part() {
    assert_eq!(path_join("", "docs"), "docs");
    assert_eq!(path_join("a", "b"), "a/b");
}
