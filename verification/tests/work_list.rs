use bz2_fastdl::paths::artifact_path;
use bz2_fastdl::paths::bytes_equal;
use bz2_fastdl::paths::has_allowed_extension;
use bz2_fastdl::paths::is_hidden_name;
use bz2_fastdl::paths::path_has_hidden_component;
use bz2_fastdl::plan::build_work_list;
use bz2_fastdl::plan::ScanEntry;

fn entry(path: &[u8], is_file: bool) -> ScanEntry {
    ScanEntry { path: path.to_vec(), is_file }
}

#[test]
fn hidden_names() {
    assert!(is_hidden_name(&b".git".to_vec()));
    assert!(is_hidden_name(&b".hidden".to_vec()));
    assert!(!is_hidden_name(&b"git".to_vec()));
    assert!(!is_hidden_name(&b"model.mdl".to_vec()));
    assert!(!is_hidden_name(&b"".to_vec()));
}

#[test]
fn hidden_components() {
    assert!(path_has_hidden_component(&b".x".to_vec()));
    assert!(path_has_hidden_component(&b"a/.h/x.mdl".to_vec()));
    assert!(path_has_hidden_component(&b"a/b/.c".to_vec()));
    assert!(!path_has_hidden_component(&b"a/x.mdl".to_vec()));
    assert!(!path_has_hidden_component(&b"a/b.c".to_vec()));
    // a dot inside a name does not hide it
    assert!(!path_has_hidden_component(&b"a.b/c.d".to_vec()));
}

#[test]
fn allowed_extensions() {
    for ext in [
        &b"vmt"[..],
        b"vtf",
        b"vtx",
        b"phy",
        b"mdl",
        b"vvd",
        b"wav",
        b"mp3",
        b"bsp",
    ] {
        let mut p = b"dir/file.".to_vec();
        p.extend_from_slice(ext);
        assert!(has_allowed_extension(&p), "expected allowed: {:?}", ext);
    }
    assert!(!has_allowed_extension(&b"dir/file.txt".to_vec()));
    // exact case only
    assert!(!has_allowed_extension(&b"dir/file.MDL".to_vec()));
    // the allow-list matches whole extensions, not substrings
    assert!(!has_allowed_extension(&b"dir/file.mdl2".to_vec()));
    assert!(!has_allowed_extension(&b"dir/file.amdl".to_vec()));
    // no extension at all
    assert!(!has_allowed_extension(&b"dir/filemdl".to_vec()));
    // a leading dot starts a hidden name, not an extension
    assert!(!has_allowed_extension(&b"dir/.mdl".to_vec()));
    // the compressed suffix is not an asset type
    assert!(!has_allowed_extension(&b"dir/file.mdl.bz2".to_vec()));
    // the extension is the part after the last dot
    assert!(has_allowed_extension(&b"dir/file.tar.mdl".to_vec()));
    assert!(!has_allowed_extension(&b"dir/file.mdl.tar".to_vec()));
}

#[test]
fn artifact_names() {
    assert_eq!(artifact_path(&b"a/model.mdl".to_vec()), b"a/model.mdl.bz2".to_vec());
    assert_eq!(artifact_path(&b"tex.vtf".to_vec()), b"tex.vtf.bz2".to_vec());
}

#[test]
fn byte_equality() {
    assert!(bytes_equal(&b"abc".to_vec(), &b"abc".to_vec()));
    assert!(!bytes_equal(&b"abc".to_vec(), &b"abd".to_vec()));
    assert!(!bytes_equal(&b"abc".to_vec(), &b"ab".to_vec()));
    assert!(bytes_equal(&b"".to_vec(), &b"".to_vec()));
}

#[test]
fn scenario_mixed_tree() {
    // root holds a/model.mdl, a/.hidden/skip.mdl, b/readme.txt, b/tex.vtf,
    // and b/tex.vtf.bz2 already present
    let entries = vec![
        entry(b"a", false),
        entry(b"a/model.mdl", true),
        entry(b"a/.hidden", false),
        entry(b"a/.hidden/skip.mdl", true),
        entry(b"b", false),
        entry(b"b/readme.txt", true),
        entry(b"b/tex.vtf", true),
        entry(b"b/tex.vtf.bz2", true),
    ];
    let wl = build_work_list(&entries);
    assert_eq!(wl, vec![b"a/model.mdl".to_vec()]);
}

#[test]
fn allow_list_exactness() {
    let entries = vec![
        entry(b"x.vmt", true),
        entry(b"x.vtf", true),
        entry(b"x.vtx", true),
        entry(b"x.phy", true),
        entry(b"x.mdl", true),
        entry(b"x.vvd", true),
        entry(b"x.wav", true),
        entry(b"x.mp3", true),
        entry(b"x.bsp", true),
        entry(b"x.txt", true),
        entry(b"x.VMT", true),
        entry(b"x.mdl2", true),
        entry(b"xmdl", true),
        entry(b".mdl", true),
        entry(b"x.bz2", true),
    ];
    let wl = build_work_list(&entries);
    let expected: Vec<Vec<u8>> = vec![
        b"x.vmt".to_vec(),
        b"x.vtf".to_vec(),
        b"x.vtx".to_vec(),
        b"x.phy".to_vec(),
        b"x.mdl".to_vec(),
        b"x.vvd".to_vec(),
        b"x.wav".to_vec(),
        b"x.mp3".to_vec(),
        b"x.bsp".to_vec(),
    ];
    assert_eq!(wl, expected);
}

#[test]
fn hidden_entries_excluded() {
    let entries = vec![
        entry(b".top.mdl", true),
        entry(b"d/.sub/deep.mdl", true),
        entry(b".d/deep.wav", true),
        entry(b"d/keep.mdl", true),
    ];
    let wl = build_work_list(&entries);
    assert_eq!(wl, vec![b"d/keep.mdl".to_vec()]);
}

#[test]
fn existing_artifact_skipped() {
    // the sibling counts by its exact name, whatever it holds and even if
    // it is not a regular file
    let entries = vec![
        entry(b"foo.mdl", true),
        entry(b"foo.mdl.bz2", true),
        entry(b"bar.mdl", true),
        entry(b"bar.mdl.bz2", false),
        entry(b"baz.mdl", true),
    ];
    let wl = build_work_list(&entries);
    assert_eq!(wl, vec![b"baz.mdl".to_vec()]);
}

#[test]
fn directories_never_eligible() {
    let entries = vec![entry(b"dir.mdl", false), entry(b"dir.mdl/inner.wav", true)];
    let wl = build_work_list(&entries);
    assert_eq!(wl, vec![b"dir.mdl/inner.wav".to_vec()]);
}

#[test]
fn second_run_is_empty() {
    // running the pipeline again over the unchanged tree plus the artifacts
    // of the first run leaves nothing to do
    let mut entries = vec![
        entry(b"a", false),
        entry(b"a/model.mdl", true),
        entry(b"b/tex.vtf", true),
        entry(b"b/readme.txt", true),
    ];
    let first = build_work_list(&entries);
    assert_eq!(first.len(), 2);
    for item in &first {
        entries.push(ScanEntry { path: artifact_path(item), is_file: true });
    }
    let second = build_work_list(&entries);
    assert_eq!(second, Vec::<Vec<u8>>::new());
}

#[test]
fn empty_snapshot() {
    let entries: Vec<ScanEntry> = Vec::new();
    let wl = build_work_list(&entries);
    assert!(wl.is_empty());
}
