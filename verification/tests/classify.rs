use aeco_patch_config::layout::Layout;
use aeco_patch_config::process_directory::{
    archive_directory_stem, process_dir_entry, EntryAction, EntryKind,
};
use aeco_patch_config::process_file::{
    join_extension, payload_file_name, process_new_file, FileAction,
};

fn unpack(target_dir_name: &str, archive_name: &str) -> FileAction {
    FileAction::Unpack {
        target_dir_name: target_dir_name.to_string(),
        archive_name: archive_name.to_string(),
    }
}

#[test]
fn standard_layout() {
    let layout = Layout::default();
    assert_eq!(layout.patch_dir_name, "patch");
    assert_eq!(layout.metadata_dir_name, "meta");
    assert_eq!(layout.manifest_file_name, "patchlist.json");
    assert_eq!(layout.status_file_name, "status.json");
    assert_eq!(layout.header_extension, "hed");
    assert_eq!(layout.payload_extension, "dat");
    assert_eq!(layout.unpacked_extension, "archive");
}

#[test]
fn payload_file_is_skipped() {
    let layout = Layout::default();
    assert_eq!(process_new_file(&layout, "b.dat"), FileAction::Skip);
    assert_eq!(process_new_file(&layout, "orphan.dat"), FileAction::Skip);
    assert_eq!(process_new_file(&layout, "a.b.dat"), FileAction::Skip);
    assert_eq!(process_new_file(&layout, "x.hed.dat"), FileAction::Skip);
}

#[test]
fn header_file_is_unpacked() {
    let layout = Layout::default();
    assert_eq!(process_new_file(&layout, "b.hed"), unpack("b.archive", "b"));
    assert_eq!(process_new_file(&layout, "data.v2.hed"), unpack("data.v2.archive", "data"));
    assert_eq!(process_new_file(&layout, "x.dat.hed"), unpack("x.dat.archive", "x"));
}

#[test]
fn other_files_are_copied() {
    let layout = Layout::default();
    for name in ["a.txt", "hed", "dat", ".hed", ".dat", "b.HED", "b.Dat", "b.hed.bak", "b.", ""] {
        assert_eq!(process_new_file(&layout, name), FileAction::Copy, "{}", name);
    }
}

#[test]
fn payload_extension_is_looked_for_first() {
    let mut layout = Layout::default();
    layout.header_extension = "pak".to_string();
    layout.payload_extension = "pak".to_string();
    assert_eq!(process_new_file(&layout, "b.pak"), FileAction::Skip);
}

#[test]
fn layout_decides_the_extensions() {
    let mut layout = Layout::default();
    layout.header_extension = "idx".to_string();
    layout.payload_extension = "bin".to_string();
    layout.unpacked_extension = "dir".to_string();
    assert_eq!(process_new_file(&layout, "b.idx"), unpack("b.dir", "b"));
    assert_eq!(process_new_file(&layout, "b.bin"), FileAction::Skip);
    assert_eq!(process_new_file(&layout, "b.hed"), FileAction::Copy);
    assert_eq!(process_new_file(&layout, "b.dat"), FileAction::Copy);
    assert_eq!(payload_file_name(&layout, "b.idx"), "b.bin");
}

#[test]
fn payload_name_of_a_header() {
    let layout = Layout::default();
    assert_eq!(payload_file_name(&layout, "b.hed"), "b.dat");
    assert_eq!(payload_file_name(&layout, "data.v2.hed"), "data.v2.dat");
    assert_eq!(join_extension("b", "archive"), "b.archive");
    assert_eq!(join_extension("", ""), ".");
}

#[test]
fn unpacked_archive_directory_is_recognised() {
    let layout = Layout::default();
    assert_eq!(archive_directory_stem(&layout, "b.archive", true), Some("b".to_string()));
    assert_eq!(archive_directory_stem(&layout, "a.b.archive", true), Some("a.b".to_string()));
    assert_eq!(archive_directory_stem(&layout, "b.archive", false), None);
    assert_eq!(archive_directory_stem(&layout, "archive", true), None);
    assert_eq!(archive_directory_stem(&layout, ".archive", true), None);
    assert_eq!(archive_directory_stem(&layout, "b.hed", true), None);
    assert_eq!(archive_directory_stem(&layout, "sub", true), None);
}

#[test]
fn entry_is_dispatched_by_kind_and_name() {
    let layout = Layout::default();
    assert_eq!(
        process_dir_entry(&layout, "b.archive", EntryKind::Directory),
        EntryAction::Reconcile { archive_name: "b".to_string() }
    );
    assert_eq!(
        process_dir_entry(&layout, "a.b.archive", EntryKind::Directory),
        EntryAction::Reconcile { archive_name: "a".to_string() }
    );
    assert_eq!(process_dir_entry(&layout, "sub", EntryKind::Directory), EntryAction::Descend);
    assert_eq!(process_dir_entry(&layout, "b.hed", EntryKind::Directory), EntryAction::Descend);
    assert_eq!(process_dir_entry(&layout, "b.dat", EntryKind::Directory), EntryAction::Descend);
    assert_eq!(
        process_dir_entry(&layout, "a.txt", EntryKind::File),
        EntryAction::File(FileAction::Copy)
    );
    assert_eq!(
        process_dir_entry(&layout, "b.archive", EntryKind::File),
        EntryAction::File(FileAction::Copy)
    );
    assert_eq!(
        process_dir_entry(&layout, "b.dat", EntryKind::File),
        EntryAction::File(FileAction::Skip)
    );
    assert_eq!(
        process_dir_entry(&layout, "b.hed", EntryKind::File),
        EntryAction::File(unpack("b.archive", "b"))
    );
    assert_eq!(process_dir_entry(&layout, "a.txt", EntryKind::Other), EntryAction::Ignore);
    assert_eq!(process_dir_entry(&layout, "b.hed", EntryKind::Other), EntryAction::Ignore);
    assert_eq!(process_dir_entry(&layout, "b.archive", EntryKind::Other), EntryAction::Ignore);
}
