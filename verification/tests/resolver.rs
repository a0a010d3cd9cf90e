use rawbatch::paths::{ExistingPaths, FilePath, ResolveError, join_path};
use rawbatch::paths::{output_path, switch_base, unused_path, with_extension};
use rawbatch::policy::{ExistingAction, ParsableAction};

fn fp(parts: &[&str]) -> FilePath {
    FilePath { components: parts.iter().map(|s| s.to_string()).collect() }
}

fn taken(paths: &[&[&str]]) -> ExistingPaths {
    ExistingPaths { paths: paths.iter().map(|p| fp(p)).collect() }
}

fn parts(p: &FilePath) -> Vec<String> {
    p.components.clone()
}

#[test]
fn switch_base_rebases_the_tail() {
    let p = fp(&["in", "sub", "a.cr2"]);
    let q = switch_base(&p, &fp(&["in"]), &fp(&["out"])).unwrap();
    assert_eq!(parts(&q), vec!["out".to_string(), "sub".to_string(), "a.cr2".to_string()]);
}

#[test]
fn switch_base_rejects_path_outside_base() {
    let p = fp(&["elsewhere", "a.cr2"]);
    let r = switch_base(&p, &fp(&["in"]), &fp(&["out"]));
    assert_eq!(r.unwrap_err(), ResolveError::PathNotUnderBase);
}

#[test]
fn with_extension_replaces_only_the_extension() {
    let q = with_extension(&fp(&["out", "a.cr2"]), "jpg");
    assert_eq!(parts(&q), vec!["out".to_string(), "a.jpg".to_string()]);
    let q = with_extension(&fp(&["out", "archive.tar.gz"]), "jpg");
    assert_eq!(parts(&q), vec!["out".to_string(), "archive.tar.jpg".to_string()]);
    let q = with_extension(&fp(&["out", "README"]), "jpg");
    assert_eq!(parts(&q), vec!["out".to_string(), "README.jpg".to_string()]);
}

#[test]
fn resolve_parse_substitutes_target_extension() {
    let r = output_path(
        &fp(&["in", "photo.CR2"]),
        &fp(&["in"]),
        &fp(&["out"]),
        "jpg",
        ParsableAction::Parse,
        ExistingAction::Rename,
        &taken(&[]),
    )
    .unwrap();
    assert_eq!(parts(&r), vec!["out".to_string(), "photo.jpg".to_string()]);
}

#[test]
fn resolve_keeps_extension_for_other_combinations() {
    // A raw file that is merely copied keeps its extension.
    let r = output_path(
        &fp(&["in", "photo.CR2"]),
        &fp(&["in"]),
        &fp(&["out"]),
        "jpg",
        ParsableAction::Copy,
        ExistingAction::Rename,
        &taken(&[]),
    )
    .unwrap();
    assert_eq!(parts(&r), vec!["out".to_string(), "photo.CR2".to_string()]);
    // A non-raw file keeps its extension even under the Parse policy.
    let r = output_path(
        &fp(&["in", "note.txt"]),
        &fp(&["in"]),
        &fp(&["out"]),
        "jpg",
        ParsableAction::Parse,
        ExistingAction::Rename,
        &taken(&[]),
    )
    .unwrap();
    assert_eq!(parts(&r), vec!["out".to_string(), "note.txt".to_string()]);
}

#[test]
fn resolve_not_under_base_is_an_error() {
    let r = output_path(
        &fp(&["elsewhere", "photo.CR2"]),
        &fp(&["in"]),
        &fp(&["out"]),
        "jpg",
        ParsableAction::Parse,
        ExistingAction::Rename,
        &taken(&[]),
    );
    assert_eq!(r.unwrap_err(), ResolveError::PathNotUnderBase);
}

#[test]
fn rename_probes_take_the_first_free_number() {
    // a.jpg and a_1.jpg are taken: the resolver must pick a_2.jpg.
    let existing = taken(&[&["out", "a.jpg"], &["out", "a_1.jpg"]]);
    let r = output_path(
        &fp(&["in", "a.jpg"]),
        &fp(&["in"]),
        &fp(&["out"]),
        "jpg",
        ParsableAction::Parse,
        ExistingAction::Rename,
        &existing,
    )
    .unwrap();
    assert_eq!(parts(&r), vec!["out".to_string(), "a_2.jpg".to_string()]);
}

#[test]
fn rename_with_nothing_taken_keeps_the_original_name() {
    let r = output_path(
        &fp(&["in", "a.jpg"]),
        &fp(&["in"]),
        &fp(&["out"]),
        "jpg",
        ParsableAction::Parse,
        ExistingAction::Rename,
        &taken(&[]),
    )
    .unwrap();
    assert_eq!(parts(&r), vec!["out".to_string(), "a.jpg".to_string()]);
}

#[test]
fn ignore_policy_returns_the_taken_path_unchanged() {
    let existing = taken(&[&["out", "a.jpg"]]);
    let r = output_path(
        &fp(&["in", "a.jpg"]),
        &fp(&["in"]),
        &fp(&["out"]),
        "jpg",
        ParsableAction::Parse,
        ExistingAction::Ignore,
        &existing,
    )
    .unwrap();
    assert_eq!(parts(&r), vec!["out".to_string(), "a.jpg".to_string()]);
}

#[test]
fn unused_path_starts_at_one_and_keeps_the_extension() {
    let existing = taken(&[&["out", "b.png"]]);
    let r = unused_path(&fp(&["out", "b.png"]), &existing).unwrap();
    assert_eq!(parts(&r), vec!["out".to_string(), "b_1.png".to_string()]);
}

#[test]
fn unused_path_without_extension_appends_only_the_number() {
    let existing = taken(&[&["out", "README"]]);
    let r = unused_path(&fp(&["out", "README"]), &existing).unwrap();
    assert_eq!(parts(&r), vec!["out".to_string(), "README_1".to_string()]);
}

#[test]
fn unused_path_of_an_empty_path_fails() {
    let r = unused_path(&fp(&[]), &taken(&[]));
    assert_eq!(r.unwrap_err(), ResolveError::NoUnusedPath);
}

#[test]
fn join_path_uses_slashes() {
    assert_eq!(join_path(&fp(&["in", "sub", "a.cr2"])), "in/sub/a.cr2".to_string());
    assert_eq!(join_path(&fp(&["a.cr2"])), "a.cr2".to_string());
    assert_eq!(join_path(&fp(&[])), String::new());
}
