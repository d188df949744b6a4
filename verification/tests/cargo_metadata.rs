use doxidize::cargo::{Target, TargetKind, TargetRecord};
use doxidize::error::Error;

fn record(name: &str, kinds: &[&str]) -> TargetRecord {
    TargetRecord {
        name: String::from(name),
        kinds: kinds.iter().map(|k| String::from(*k)).collect(),
    }
}

#[test]
fn target_from_metadata() {
    let metadata = vec![record("underscored_name", &["lib"])];
    let target = doxidize::cargo::target_from_metadata(&metadata).unwrap();
    assert_eq!(
        target,
        Target {
            kind: TargetKind::Library,
            name: "underscored_name".into(),
        }
    );
    assert_eq!(&target.crate_name(), "underscored_name");

    let metadata = vec![record("dashed-name", &["lib"])];
    let target = doxidize::cargo::target_from_metadata(&metadata).unwrap();
    assert_eq!(
        target,
        Target {
            kind: TargetKind::Library,
            name: "dashed-name".into(),
        }
    );
    assert_eq!(&target.crate_name(), "dashed_name");

    let metadata = vec![record("underscored_name", &["bin"])];
    let target = doxidize::cargo::target_from_metadata(&metadata).unwrap();
    assert_eq!(
        target,
        Target {
            kind: TargetKind::Binary,
            name: "underscored_name".into(),
        }
    );
    assert_eq!(&target.crate_name(), "underscored_name");

    let metadata = vec![record("library", &["lib"])];
    assert_eq!(
        doxidize::cargo::target_from_metadata(&metadata).unwrap().kind,
        TargetKind::Library
    );

    let metadata = vec![record("binary", &["bin"])];
    assert_eq!(
        doxidize::cargo::target_from_metadata(&metadata).unwrap().kind,
        TargetKind::Binary
    );

    let metadata = vec![record("library", &["lib"]), record("other_kind", &["test"])];
    assert_eq!(
        doxidize::cargo::target_from_metadata(&metadata).unwrap().kind,
        TargetKind::Library
    );
}

#[test]
fn target_from_metadata_prefers_the_library() {
    let metadata = vec![
        record("a_bin", &["bin"]),
        record("the_lib", &["lib"]),
        record("b_bin", &["bin"]),
    ];
    let target = doxidize::cargo::target_from_metadata(&metadata).unwrap();
    assert_eq!(target.kind, TargetKind::Library);
    assert_eq!(target.name, "the_lib");
}

#[test]
fn target_from_metadata_rejects_two_kinds() {
    let metadata = vec![record("odd", &["lib", "bin"])];
    match doxidize::cargo::target_from_metadata(&metadata) {
        Err(Error::MalformedMetadata(j)) => {
            assert_eq!(j.location, "expected one kind for target 'odd'");
        }
        other => panic!("expected malformed metadata, got {:?}", other),
    }
}

#[test]
fn target_from_metadata_needs_a_supported_kind() {
    let metadata = vec![record("only_tests", &["test"])];
    match doxidize::cargo::target_from_metadata(&metadata) {
        Err(Error::NoSupportedTargets) => {}
        other => panic!("expected no supported targets, got {:?}", other),
    }
}
