use aeco_patch_config::error::PatchConfigError;
use aeco_patch_config::fsobject::{Archive, Directory, FSObject, File};
use aeco_patch_config::generate::emit;
use aeco_patch_config::layout::Layout;
use aeco_patch_config::process_archive::{process_new_archive, process_unpacked_archive};
use aeco_patch_config::process_directory::{process_dir, process_dir_entry, EntryAction, EntryKind};
use aeco_patch_config::process_file::FileAction;
use aeco_patch_config::status::ServerStatus;

/// A source tree held in memory, for walking it as a run would.
enum Source {
    File(&'static str, &'static [u8]),
    Header(&'static str, Vec<(&'static str, &'static [u8])>),
    Dir(&'static str, Vec<Source>),
    Special(&'static str),
}

impl Source {
    fn name(&self) -> &'static str {
        match self {
            Source::File(name, _) => name,
            Source::Header(name, _) => name,
            Source::Dir(name, _) => name,
            Source::Special(name) => name,
        }
    }

    fn kind(&self) -> EntryKind {
        match self {
            Source::File(..) | Source::Header(..) => EntryKind::File,
            Source::Dir(..) => EntryKind::Directory,
            Source::Special(..) => EntryKind::Other,
        }
    }
}

/// Walks `entries` and notes in `written` every path that a run would write.
fn walk(
    layout: &Layout,
    entries: &[Source],
    target: &str,
    name: &str,
    written: &mut Vec<String>,
) -> Result<Directory, PatchConfigError> {
    let mut results = Vec::new();
    for entry in entries {
        let action = process_dir_entry(layout, entry.name(), entry.kind());
        let result = match (action, entry) {
            (EntryAction::Reconcile { archive_name }, Source::Dir(dir_name, below)) => {
                let path = format!("{}/{}", target, dir_name);
                walk(layout, below, &path, &archive_name, written)
                    .and_then(|dir| process_unpacked_archive(dir, dir_name, &archive_name))
                    .map(|archive| Some(FSObject::Archive(archive)))
            }
            (EntryAction::Descend, Source::Dir(dir_name, below)) => {
                let path = format!("{}/{}", target, dir_name);
                walk(layout, below, &path, dir_name, written)
                    .map(|dir| Some(FSObject::Directory(dir)))
            }
            (EntryAction::File(FileAction::Skip), _) => Ok(None),
            (
                EntryAction::File(FileAction::Unpack { target_dir_name, archive_name }),
                Source::Header(_, members),
            ) => {
                let mut files = Vec::new();
                for (member, data) in members {
                    written.push(format!("{}/{}/{}", target, target_dir_name, member));
                    files.push(Ok(File::new(member, data)));
                }
                process_new_archive(&archive_name, files)
            }
            (EntryAction::File(FileAction::Copy), Source::File(file_name, data)) => {
                written.push(format!("{}/{}", target, file_name));
                Ok(Some(FSObject::File(File::new(file_name, data))))
            }
            (EntryAction::Ignore, _) => Ok(None),
            _ => panic!("the action does not fit the entry {}", entry.name()),
        };
        results.push(result);
    }
    process_dir(name, results)
}

#[test]
fn tree_with_a_packed_archive() {
    let source = vec![
        Source::File("a.txt", b"a"),
        Source::Header("b.hed", vec![("x.bin", b"x"), ("y.bin", b"y")]),
        Source::File("b.dat", b"payload"),
        Source::Dir("sub", vec![Source::File("c.txt", b"c")]),
    ];
    let mut written = Vec::new();
    let root = walk(&Layout::default(), &source, "patch", "patch", &mut written)
        .expect("nothing fails");
    assert_eq!(
        root,
        Directory {
            name: "patch".to_string(),
            children: vec![
                FSObject::File(File {
                    name: "a.txt".to_string(),
                    digest: "0cc175b9c0f1b6a831c399e269772661".to_string(),
                }),
                FSObject::Archive(Archive {
                    name: "b".to_string(),
                    files: vec![
                        File {
                            name: "x.bin".to_string(),
                            digest: "9dd4e461268c8034f5c8564e155c67a6".to_string(),
                        },
                        File {
                            name: "y.bin".to_string(),
                            digest: "415290769594460e2e485922904f345d".to_string(),
                        },
                    ],
                }),
                FSObject::Directory(Directory {
                    name: "sub".to_string(),
                    children: vec![FSObject::File(File {
                        name: "c.txt".to_string(),
                        digest: "4a8a08f09d37b73795649038408b5f33".to_string(),
                    })],
                }),
            ],
        }
    );
    assert_eq!(
        written,
        vec![
            "patch/a.txt".to_string(),
            "patch/b.archive/x.bin".to_string(),
            "patch/b.archive/y.bin".to_string(),
            "patch/sub/c.txt".to_string(),
        ]
    );
    let manifest = root.to_json();
    assert!(!manifest.contains("b.hed"));
    assert!(!manifest.contains("b.dat"));
    assert_eq!(Directory::from_json(&manifest), Some(root));
}

#[test]
fn tree_with_only_an_orphan_payload() {
    let source = vec![Source::File("orphan.dat", b"payload")];
    let mut written = Vec::new();
    let root = walk(&Layout::default(), &source, "patch", "patch", &mut written);
    assert_eq!(root, Ok(Directory { name: "patch".to_string(), children: vec![] }));
    assert!(written.is_empty());
}

#[test]
fn maintenance_flag_reaches_the_status_text() {
    let tree = Directory { name: "patch".to_string(), children: vec![] };
    let maintenance = emit(&Layout::default(), &tree, ServerStatus::from_maintenance(true));
    assert_eq!(ServerStatus::from_json(&maintenance.status), Some(ServerStatus::Maintenance));
    let online = emit(&Layout::default(), &tree, ServerStatus::from_maintenance(false));
    assert_eq!(ServerStatus::from_json(&online.status), Some(ServerStatus::Online));
}

#[test]
fn unpacked_archive_in_the_tree() {
    let source = vec![Source::Dir(
        "b.archive",
        vec![Source::File("x.bin", b"x"), Source::File("skipped.dat", b"d")],
    )];
    let mut written = Vec::new();
    let root = walk(&Layout::default(), &source, "patch", "patch", &mut written)
        .expect("nothing fails");
    assert_eq!(
        root.children,
        vec![FSObject::Archive(Archive {
            name: "b".to_string(),
            files: vec![File::new("x.bin", b"x")],
        })]
    );
    assert_eq!(written, vec!["patch/b.archive/x.bin".to_string()]);
}

#[test]
fn unpacked_archive_with_a_subdirectory_fails_the_run() {
    let source = vec![
        Source::File("a.txt", b"a"),
        Source::Dir(
            "b.archive",
            vec![Source::File("x.bin", b"x"), Source::Dir("inner", vec![])],
        ),
    ];
    let mut written = Vec::new();
    let root = walk(&Layout::default(), &source, "patch", "patch", &mut written);
    assert_eq!(
        root,
        Err(PatchConfigError::ArchiveContainsDirectory(
            "The archive directory b.archive does not contain exclusively files".to_string()
        ))
    );
}

#[test]
fn special_entries_are_left_out() {
    let source = vec![Source::Special("socket"), Source::File("a.txt", b"a")];
    let mut written = Vec::new();
    let root = walk(&Layout::default(), &source, "patch", "patch", &mut written)
        .expect("nothing fails");
    assert_eq!(root.children, vec![FSObject::File(File::new("a.txt", b"a"))]);
}

#[test]
fn same_source_gives_the_same_manifest() {
    let source = || {
        vec![
            Source::Dir("sub", vec![Source::File("c.txt", b"c"), Source::File("d.dat", b"d")]),
            Source::Header("b.hed", vec![("x.bin", b"x")]),
            Source::File("a.txt", b"a"),
        ]
    };
    let mut written = Vec::new();
    let first = walk(&Layout::default(), &source(), "one", "patch", &mut written)
        .expect("nothing fails");
    let second = walk(&Layout::default(), &source(), "two", "patch", &mut written)
        .expect("nothing fails");
    assert_eq!(first.to_json(), second.to_json());
    assert_eq!(first, second);
}

#[test]
fn recorded_digest_is_the_digest_of_the_bytes() {
    let data: Vec<u8> = (0..=255u8).collect();
    let recorded = File::new("all.bin", &data);
    assert_eq!(recorded.digest, aeco_patch_config::digest::digest(&data));
    assert_eq!(recorded.digest, "e2c865db4162bed963bfaa9ef6ac18f0");
    assert_eq!(recorded.digest.len(), 32);
}
