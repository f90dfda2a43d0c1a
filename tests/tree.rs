use bomper::error::BumpError;
use bomper::replacers::file::Replacer as PendingEdit;
use bomper::tree::{build_tree, EntryKind, TreeBuild, TreeEntry, TreeObject};

fn entry(mode: &str, name: &str, oid: u8, kind: EntryKind) -> TreeEntry {
    TreeEntry {
        mode: mode.as_bytes().to_vec(),
        name: name.as_bytes().to_vec(),
        oid: vec![oid; 20],
        kind,
    }
}

/// root: `a/` (b.txt, c.txt, sub -> submodule), `d.txt`
fn store() -> Vec<TreeObject> {
    vec![
        TreeObject {
            oid: vec![1; 20],
            entries: vec![
                entry("40000", "a", 2, EntryKind::Tree),
                entry("100644", "d.txt", 3, EntryKind::Blob),
            ],
        },
        TreeObject {
            oid: vec![2; 20],
            entries: vec![
                entry("100644", "b.txt", 4, EntryKind::Blob),
                entry("100644", "c.txt", 5, EntryKind::Blob),
                entry("160000", "sub", 6, EntryKind::Commit),
            ],
        },
    ]
}

fn edit(path: &str, contents: &str) -> PendingEdit {
    PendingEdit {
        path: path.to_string(),
        contents: contents.as_bytes().to_vec(),
    }
}

/// Splits a tree object's content into (mode, name, id) entries.
fn parse_tree(data: &[u8]) -> Vec<(String, String, Vec<u8>)> {
    let mut out = Vec::new();
    let mut i = 0;
    while i < data.len() {
        let space = i + data[i..].iter().position(|b| *b == b' ').unwrap();
        let nul = space + data[space..].iter().position(|b| *b == 0).unwrap();
        let mode = String::from_utf8(data[i..space].to_vec()).unwrap();
        let name = String::from_utf8(data[space + 1..nul].to_vec()).unwrap();
        let id = data[nul + 1..nul + 21].to_vec();
        out.push((mode, name, id));
        i = nul + 21;
    }
    out
}

fn written_tree(build: &TreeBuild, oid: &[u8]) -> Vec<(String, String, Vec<u8>)> {
    let object = build.written.iter().find(|o| o.tree && o.oid == oid).unwrap();
    parse_tree(&object.data)
}

fn hex(bytes: &[u8]) -> String {
    bytes.iter().map(|b| format!("{:02x}", b)).collect()
}

#[test]
fn rebuild_without_edits_keeps_root() {
    let build = build_tree(&store(), &vec![1; 20], &vec![]).unwrap();
    assert_eq!(build.root, vec![1; 20]);
    assert!(build.written.is_empty());
}

#[test]
fn rebuild_changes_only_the_edited_path() {
    let build = build_tree(&store(), &vec![1; 20], &vec![edit("a/b.txt", "hello\n")]).unwrap();
    assert_ne!(build.root, vec![1; 20]);
    assert_eq!(build.written.len(), 3);

    let root = written_tree(&build, &build.root);
    assert_eq!(root.len(), 2);
    assert_eq!((root[0].0.as_str(), root[0].1.as_str()), ("40000", "a"));
    assert_ne!(root[0].2, vec![2; 20]);
    assert_eq!((root[1].1.as_str(), &root[1].2), ("d.txt", &vec![3; 20]));

    let a = written_tree(&build, &root[0].2);
    assert_eq!(a.len(), 3);
    assert_eq!(a[0].1, "b.txt");
    assert_eq!(hex(&a[0].2), "ce013625030ba8dba906f756967f9e9ca394464a");
    assert_eq!((a[1].1.as_str(), &a[1].2), ("c.txt", &vec![5; 20]));
    assert_eq!((a[2].0.as_str(), a[2].1.as_str(), &a[2].2), ("160000", "sub", &vec![6; 20]));

    let blob = build.written.iter().find(|o| !o.tree).unwrap();
    assert_eq!(blob.data, b"hello\n".to_vec());
    assert_eq!(hex(&blob.oid), "ce013625030ba8dba906f756967f9e9ca394464a");
}

#[test]
fn rebuild_of_a_top_level_file_keeps_subtree() {
    let build = build_tree(&store(), &vec![1; 20], &vec![edit("d.txt", "new")]).unwrap();
    let root = written_tree(&build, &build.root);
    assert_eq!(root[0].2, vec![2; 20]);
    assert_ne!(root[1].2, vec![3; 20]);
    assert_eq!(build.written.len(), 2);
}

#[test]
fn empty_tree_hash_is_gits() {
    let store = vec![TreeObject {
        oid: vec![9; 20],
        entries: vec![entry("100644", "x", 7, EntryKind::Blob)],
    }];
    let build = build_tree(&store, &vec![9; 20], &vec![edit("x", "")]).unwrap();
    let blob = build.written.iter().find(|o| !o.tree).unwrap();
    assert_eq!(hex(&blob.oid), "e69de29bb2d1d6434b8b29ae775ad8c2e48c5391");
}

#[test]
fn stale_target_is_reported() {
    let r = build_tree(&store(), &vec![1; 20], &vec![edit("a/missing.txt", "x")]);
    assert!(matches!(r, Err(BumpError::StaleTarget(p)) if p == "a/missing.txt"));
    let r = build_tree(&store(), &vec![1; 20], &vec![edit("a", "x")]);
    assert!(matches!(r, Err(BumpError::StaleTarget(p)) if p == "a"));
}

#[test]
fn submodule_entry_is_never_a_target() {
    let r = build_tree(&store(), &vec![1; 20], &vec![edit("a/sub", "x")]);
    assert!(matches!(r, Err(BumpError::StaleTarget(p)) if p == "a/sub"));
}

#[test]
fn missing_tree_is_reported() {
    let mut trees = store();
    trees.pop();
    let r = build_tree(&trees, &vec![1; 20], &vec![edit("a/b.txt", "x")]);
    assert!(matches!(r, Err(BumpError::MissingTree)));
}
