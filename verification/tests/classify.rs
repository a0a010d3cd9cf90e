use rawbatch::paths::FilePath;
use rawbatch::paths::file_kind;
use rawbatch::policy::FileKind;

fn fp(parts: &[&str]) -> FilePath {
    FilePath::from_components(parts.iter().map(|s| s.to_string()).collect())
}

#[test]
fn classify_raw_extensions() {
    assert_eq!(file_kind(&fp(&["photo.arw"])), FileKind::Raw);
    assert_eq!(file_kind(&fp(&["photo.cr2"])), FileKind::Raw);
    assert_eq!(file_kind(&fp(&["photo.raw"])), FileKind::Raw);
}

#[test]
fn classify_image_extensions() {
    assert_eq!(file_kind(&fp(&["pic.jpg"])), FileKind::Image);
    assert_eq!(file_kind(&fp(&["pic.jpeg"])), FileKind::Image);
    assert_eq!(file_kind(&fp(&["pic.png"])), FileKind::Image);
    assert_eq!(file_kind(&fp(&["pic.tiff"])), FileKind::Image);
}

#[test]
fn classify_case_does_not_matter() {
    assert_eq!(file_kind(&fp(&["photo.CR2"])), FileKind::Raw);
    assert_eq!(file_kind(&fp(&["photo.Arw"])), FileKind::Raw);
    assert_eq!(file_kind(&fp(&["photo.RAW"])), FileKind::Raw);
    assert_eq!(file_kind(&fp(&["pic.JPG"])), FileKind::Image);
    assert_eq!(file_kind(&fp(&["pic.TiFf"])), FileKind::Image);
}

#[test]
fn classify_same_path_twice_is_deterministic() {
    let p = fp(&["album", "photo.CR2"]);
    let first = file_kind(&p);
    let second = file_kind(&p);
    assert_eq!(first, second);
    assert_eq!(first, FileKind::Raw);
}

#[test]
fn classify_unknown_or_missing_extension_is_other() {
    assert_eq!(file_kind(&fp(&["note.txt"])), FileKind::Other);
    assert_eq!(file_kind(&fp(&["README"])), FileKind::Other);
    assert_eq!(file_kind(&fp(&[".bashrc"])), FileKind::Other);
    assert_eq!(file_kind(&fp(&["archive.tar.gz"])), FileKind::Other);
    assert_eq!(file_kind(&fp(&[])), FileKind::Other);
}

#[test]
fn classify_uses_only_the_file_name() {
    assert_eq!(file_kind(&fp(&["some.png", "note.txt"])), FileKind::Other);
    assert_eq!(file_kind(&fp(&["dir.txt", "pic.png"])), FileKind::Image);
}
