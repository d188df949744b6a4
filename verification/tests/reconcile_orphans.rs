use doxidize::reconcile::{reconcile, Artifact};

fn file(path: &str) -> Artifact {
    Artifact {
        path: String::from(path),
        dir: false,
    }
}

fn dir(path: &str) -> Artifact {
    Artifact {
        path: String::from(path),
        dir: true,
    }
}

#[test]
fn orphan_file_is_deleted_and_live_directory_kept() {
    let previous = vec![file("dir/a.html"), file("dir/b.html"), dir("dir")];
    let current = vec![file("dir/a.html"), dir("dir")];
    let plan = reconcile(&previous, &current);
    assert_eq!(plan.files, vec![String::from("dir/b.html")]);
    assert_eq!(plan.dirs, Vec::<String>::new());
}

#[test]
fn emptied_directory_is_deleted_after_its_file() {
    let previous = vec![file("dir/a.html"), dir("dir")];
    let current: Vec<Artifact> = vec![];
    let plan = reconcile(&previous, &current);
    assert_eq!(plan.files, vec![String::from("dir/a.html")]);
    assert_eq!(plan.dirs, vec![String::from("dir")]);
}

#[test]
fn a_second_pass_with_identical_sets_deletes_nothing() {
    let current = vec![file("dir/a.html"), dir("dir"), file("index.html")];
    let plan = reconcile(&current, &current);
    assert!(plan.files.is_empty());
    assert!(plan.dirs.is_empty());
}

#[test]
fn orphan_directories_are_deleted_deepest_first() {
    let previous = vec![dir("a"), dir("a/b/c"), dir("a/b")];
    let current: Vec<Artifact> = vec![];
    let plan = reconcile(&previous, &current);
    assert_eq!(
        plan.dirs,
        vec![
            String::from("a/b/c"),
            String::from("a/b"),
            String::from("a"),
        ]
    );
}

#[test]
fn unchanged_artifacts_survive_a_rebuild() {
    let previous = vec![file("keep.html"), file("drop.html")];
    let current = vec![file("keep.html"), file("new.html")];
    let plan = reconcile(&previous, &current);
    assert_eq!(plan.files, vec![String::from("drop.html")]);
}
