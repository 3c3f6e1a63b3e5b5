use aeco_patch_config::tree::{make_tree, TreeEntry, TreeError, TreeRoot};

fn file(name: &str) -> TreeEntry {
    TreeEntry::File(name.to_string())
}

fn dir(name: &str, entries: Vec<TreeEntry>) -> TreeEntry {
    TreeEntry::Directory(name.to_string(), entries)
}

#[test]
fn listing_is_drawn_depth_first() {
    let root = TreeRoot::Directory(vec![
        file("a.txt"),
        dir("sub", vec![file("c.txt"), dir("deep", vec![file("d")]), dir("empty", vec![])]),
        file("z"),
    ]);
    let lines = make_tree(&root).expect("everything was read");
    assert_eq!(
        lines,
        vec![
            "\u{1f4dd} a.txt".to_string(),
            "\u{1f4c1} sub".to_string(),
            "  |\t\u{1f4dd} c.txt".to_string(),
            "  |\t\u{1f4c1} deep".to_string(),
            "  |\t  |\t\u{1f4dd} d".to_string(),
            "  |\t\u{1f4c1} empty".to_string(),
            "\u{1f4dd} z".to_string(),
        ]
    );
}

#[test]
fn empty_listing_has_no_lines() {
    assert_eq!(make_tree(&TreeRoot::Directory(vec![])), Ok(vec![]));
}

#[test]
fn path_that_is_no_directory() {
    assert_eq!(
        make_tree(&TreeRoot::NotDirectory(Some("/tmp/file".to_string()))),
        Err(TreeError::NotDirectory("/tmp/file is not a directory.".to_string()))
    );
    assert_eq!(
        make_tree(&TreeRoot::NotDirectory(None)),
        Err(TreeError::NotDirectory("Input path is not a directory".to_string()))
    );
}

#[test]
fn anything_unreadable_fails_the_drawing() {
    assert_eq!(
        make_tree(&TreeRoot::Directory(vec![TreeEntry::Unreadable])),
        Err(TreeError::ReadDirFailed)
    );
    assert_eq!(
        make_tree(&TreeRoot::Directory(vec![
            file("a"),
            dir("sub", vec![file("b"), dir("deep", vec![TreeEntry::Unreadable])]),
            file("z"),
        ])),
        Err(TreeError::ReadDirFailed)
    );
}
