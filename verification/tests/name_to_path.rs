use doxidize::paths::name_to_path;

#[test]
fn nest_level1() {
    let name = "doxidize::examples";

    assert_eq!(String::new(), name_to_path(name));
}

#[test]
fn nest_level2() {
    let name = "doxidize::examples::nested_module";

    let path = String::from("examples");
    assert_eq!(path, name_to_path(name));
}

#[test]
fn nest_level3() {
    let name = "doxidize::examples::nested_module::second_nested_module";

    let path = String::from("examples/nested_module");
    assert_eq!(path, name_to_path(name));
}

#[test]
fn nest_level4() {
    let name = "doxidize::examples::nested_module::second_nested_module::third";

    let path = String::from("examples/nested_module/second_nested_module");
    assert_eq!(path, name_to_path(name));
}
