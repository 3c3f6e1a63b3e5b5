//! What is done with a regular file of the source tree, decided by its name.

use vstd::prelude::*;
use crate::layout::Layout;
use crate::naming::{extension, extension_of, file_stem, first_segment, leading_segment, stem_of};

verus! {

/// What is done with a regular file.
#[derive(Debug, PartialEq, Eq)]
pub enum FileAction {
    /// A payload file gets no node of its own: it is read with its header.
    Skip,
    /// A header file: its archive is unpacked into the directory
    /// `target_dir_name`, beside where a copy of the file would have gone, and
    /// listed as the archive `archive_name`.
    Unpack { target_dir_name: String, archive_name: String },
    /// Any other file is copied and listed under its own name.
    Copy,
}

/// What a `FileAction` stands for.
pub enum FileActionModel {
    Skip,
    Unpack { target_dir_name: Seq<char>, archive_name: Seq<char> },
    Copy,
}

impl View for FileAction {
    type V = FileActionModel;

    open spec fn view(&self) -> FileActionModel {
        match self {
            FileAction::Skip => FileActionModel::Skip,
            FileAction::Unpack { target_dir_name, archive_name } => FileActionModel::Unpack {
                target_dir_name: target_dir_name@,
                archive_name: archive_name@,
            },
            FileAction::Copy => FileActionModel::Copy,
        }
    }
}

/// `stem`, a dot and `extension`.
pub open spec fn with_extension(stem: Seq<char>, extension: Seq<char>) -> Seq<char> {
    stem + seq!['.'] + extension
}

/// The action for a file called `name`. The payload extension is looked for
/// first, then the header extension.
pub open spec fn file_action(layout: Layout, name: Seq<char>) -> FileActionModel {
    if extension_of(name) == Some(layout.payload_extension@) {
        FileActionModel::Skip
    } else if extension_of(name) == Some(layout.header_extension@) {
        FileActionModel::Unpack {
            target_dir_name: with_extension(stem_of(name), layout.unpacked_extension@),
            archive_name: leading_segment(name),
        }
    } else {
        FileActionModel::Copy
    }
}

/// `stem`, a dot and `extension` as one text.
pub fn join_extension(stem: &str, extension: &str) -> (name: String)
    ensures
        name@ == with_extension(stem@, extension@),
{
    let mut name = String::new();
    name.append(stem);
    name.push('.');
    name.append(extension);
    name
}

/// The name of the payload file that belongs to the header file `header_name`:
/// the same stem with the payload extension.
pub fn payload_file_name(layout: &Layout, header_name: &str) -> (name: String)
    ensures
        name@ == with_extension(stem_of(header_name@), layout.payload_extension@),
{
    let stem = file_stem(header_name);
    join_extension(stem.as_str(), layout.payload_extension.as_str())
}

/// Decides what is done with the regular file called `object_name`.
pub fn process_new_file(layout: &Layout, object_name: &str) -> (action: FileAction)
    ensures
        action@ == file_action(*layout, object_name@),
{
    match extension(object_name) {
        Some(ext) => {
            if ext == layout.payload_extension {
                FileAction::Skip
            } else if ext == layout.header_extension {
                let stem = file_stem(object_name);
                FileAction::Unpack {
                    target_dir_name: join_extension(
                        stem.as_str(),
                        layout.unpacked_extension.as_str(),
                    ),
                    archive_name: first_segment(object_name),
                }
            } else {
                FileAction::Copy
            }
        },
        None => FileAction::Copy,
    }
}

/// A file with the payload extension is skipped whatever else its name holds
/// and whatever stands beside it: the decision looks at the one name only.
pub proof fn lemma_payload_is_skipped(layout: Layout, name: Seq<char>)
    requires
        extension_of(name) == Some(layout.payload_extension@),
    ensures
        file_action(layout, name) == FileActionModel::Skip,
{
}

/// Only a file that is copied is listed under its own name, and such a file
/// has neither the payload nor the header extension.
pub proof fn lemma_copied_is_no_archive_part(layout: Layout, name: Seq<char>)
    requires
        file_action(layout, name) == FileActionModel::Copy,
    ensures
        extension_of(name) != Some(layout.payload_extension@),
        extension_of(name) != Some(layout.header_extension@),
{
}

} // verus!
