use aeco_patch_config::error::PatchConfigError;
use aeco_patch_config::fsobject::{Archive, Directory, FSObject, File};
use aeco_patch_config::process_archive::{
    check_archive_pair, process_new_archive, process_unpacked_archive,
};
use aeco_patch_config::process_directory::process_dir;

fn file(name: &str) -> File {
    File::new(name, name.as_bytes())
}

#[test]
fn directory_keeps_the_order_of_its_entries() {
    let results = vec![
        Ok(Some(FSObject::File(file("z")))),
        Ok(None),
        Ok(Some(FSObject::File(file("a")))),
        Ok(Some(FSObject::Directory(Directory { name: "m".to_string(), children: vec![] }))),
        Ok(None),
    ];
    let dir = process_dir("root", results).expect("nothing failed");
    assert_eq!(
        dir,
        Directory {
            name: "root".to_string(),
            children: vec![
                FSObject::File(file("z")),
                FSObject::File(file("a")),
                FSObject::Directory(Directory { name: "m".to_string(), children: vec![] }),
            ],
        }
    );
}

#[test]
fn directory_without_entries() {
    assert_eq!(
        process_dir("empty", vec![]),
        Ok(Directory { name: "empty".to_string(), children: vec![] })
    );
    assert_eq!(
        process_dir("skipped", vec![Ok(None), Ok(None)]),
        Ok(Directory { name: "skipped".to_string(), children: vec![] })
    );
}

#[test]
fn first_failure_of_a_directory_wins() {
    let results = vec![
        Ok(Some(FSObject::File(file("a")))),
        Err(PatchConfigError::ReadSourceFileFailed("first".to_string())),
        Ok(None),
        Err(PatchConfigError::WriteTargetFileFailed("second".to_string())),
    ];
    assert_eq!(
        process_dir("root", results),
        Err(PatchConfigError::ReadSourceFileFailed("first".to_string()))
    );
}

#[test]
fn archive_keeps_the_order_of_its_members() {
    let results = vec![Ok(file("y.bin")), Ok(file("x.bin")), Ok(file("y.bin"))];
    assert_eq!(
        process_new_archive("b", results),
        Ok(Some(FSObject::Archive(Archive {
            name: "b".to_string(),
            files: vec![file("y.bin"), file("x.bin"), file("y.bin")],
        })))
    );
    assert_eq!(
        process_new_archive("none", vec![]),
        Ok(Some(FSObject::Archive(Archive { name: "none".to_string(), files: vec![] })))
    );
}

#[test]
fn first_failure_of_an_archive_wins() {
    let results = vec![
        Ok(file("x.bin")),
        Err(PatchConfigError::ReadArchiveFailed("first".to_string())),
        Err(PatchConfigError::WriteTargetFileFailed("second".to_string())),
    ];
    assert_eq!(
        process_new_archive("b", results),
        Err(PatchConfigError::ReadArchiveFailed("first".to_string()))
    );
    assert_eq!(
        process_new_archive("b", vec![Err(PatchConfigError::ReadArchiveFailed("only".to_string()))]),
        Err(PatchConfigError::ReadArchiveFailed("only".to_string()))
    );
}

#[test]
fn unpacked_archive_of_files() {
    let dir = Directory {
        name: "b".to_string(),
        children: vec![FSObject::File(file("x.bin")), FSObject::File(file("y.bin"))],
    };
    assert_eq!(
        process_unpacked_archive(dir, "/src/b.archive", "b"),
        Ok(Archive { name: "b".to_string(), files: vec![file("x.bin"), file("y.bin")] })
    );
    let empty = Directory { name: "b".to_string(), children: vec![] };
    assert_eq!(
        process_unpacked_archive(empty, "/src/b.archive", "b"),
        Ok(Archive { name: "b".to_string(), files: vec![] })
    );
}

#[test]
fn unpacked_archive_with_a_directory_is_refused() {
    let dir = Directory {
        name: "b".to_string(),
        children: vec![
            FSObject::File(file("x.bin")),
            FSObject::Directory(Directory { name: "inner".to_string(), children: vec![] }),
            FSObject::File(file("y.bin")),
        ],
    };
    assert_eq!(
        process_unpacked_archive(dir, "/src/b.archive", "b"),
        Err(PatchConfigError::ArchiveContainsDirectory(
            "The archive directory /src/b.archive does not contain exclusively files".to_string()
        ))
    );
}

#[test]
fn unpacked_archive_with_an_archive_is_refused() {
    let dir = Directory {
        name: "b".to_string(),
        children: vec![FSObject::Archive(Archive { name: "inner".to_string(), files: vec![] })],
    };
    let refused = process_unpacked_archive(dir, "src", "b");
    assert!(matches!(refused, Err(PatchConfigError::ArchiveContainsDirectory(_))));
}

#[test]
fn both_components_of_a_packed_archive_are_needed() {
    assert_eq!(check_archive_pair("b.hed", true, "b.dat", true), Ok(()));
    assert_eq!(
        check_archive_pair("b.hed", false, "b.dat", true),
        Err(PatchConfigError::NoArchiveFile("Missing archive component b.hed".to_string()))
    );
    assert_eq!(
        check_archive_pair("b.hed", true, "b.dat", false),
        Err(PatchConfigError::NoArchiveFile("Missing archive component b.dat".to_string()))
    );
    assert_eq!(
        check_archive_pair("b.hed", false, "b.dat", false),
        Err(PatchConfigError::NoArchiveFile("Missing archive component b.hed".to_string()))
    );
}
