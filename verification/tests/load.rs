use fast_check::load::{load_path, FsNode, LoadError, RootInfo};

fn file(path: &str) -> FsNode {
    FsNode::File { path: path.to_string() }
}

fn dir(entries: Vec<FsNode>) -> FsNode {
    FsNode::Dir { entries }
}

fn sorted(mut v: Vec<String>) -> Vec<String> {
    v.sort();
    v
}

#[test]
fn single_file_root_yields_exactly_that_path() {
    // A root that is itself a regular file: exactly one path, its canonical form.
    let r = load_path(RootInfo::File { path: "/data/a.txt".to_string() }).unwrap();
    assert_eq!(r, vec!["/data/a.txt".to_string()]);
}

#[test]
fn missing_root_is_not_found_and_nothing_is_scanned() {
    let r = load_path(RootInfo::NotFound);
    assert_eq!(r, Err(LoadError::NotFound));
}

#[test]
fn other_kind_of_root_yields_no_files() {
    let r = load_path(RootInfo::OtherKind).unwrap();
    assert!(r.is_empty());
}

#[test]
fn empty_directory_yields_no_files() {
    let r = load_path(RootInfo::Dir { node: dir(vec![]) }).unwrap();
    assert!(r.is_empty());
}

#[test]
fn nested_tree_yields_every_regular_file_exactly_once() {
    // /root
    //   a.txt
    //   sub/
    //     b.bin
    //     deeper/
    //       c.log
    //     (a socket, skipped)
    //   empty/
    let tree = dir(vec![
        file("/root/a.txt"),
        dir(vec![
            file("/root/sub/b.bin"),
            dir(vec![file("/root/sub/deeper/c.log")]),
            FsNode::OtherKind,
        ]),
        dir(vec![]),
    ]);
    let r = load_path(RootInfo::Dir { node: tree }).unwrap();
    assert_eq!(
        sorted(r),
        vec![
            "/root/a.txt".to_string(),
            "/root/sub/b.bin".to_string(),
            "/root/sub/deeper/c.log".to_string(),
        ]
    );
}

#[test]
fn unresolvable_entry_fails_the_whole_enumeration() {
    // A broken symlink deep in the tree: strict-fail, no partial listing.
    let tree = dir(vec![
        file("/root/a.txt"),
        dir(vec![FsNode::Unresolved]),
    ]);
    let r = load_path(RootInfo::Dir { node: tree });
    assert_eq!(r, Err(LoadError::Unresolved));
}

#[test]
fn unresolvable_directory_root_fails() {
    let r = load_path(RootInfo::Dir { node: FsNode::Unresolved });
    assert_eq!(r, Err(LoadError::Unresolved));
}
