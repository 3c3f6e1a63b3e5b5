//! The start and the end of a run: what must hold of source and target before
//! anything is written, and the two texts that are written last.

use vstd::prelude::*;
use crate::error::PatchConfigError;
use crate::fsobject::{Directory, DirectoryModel, FSObject};
use crate::layout::Layout;
use crate::process_directory::{
    first_failure, lemma_gathering_is_deterministic, present_nodes, same_result,
};
use crate::manifest::directory_json;
use crate::status::ServerStatus;

verus! {

/// What is said of a source that is no directory.
pub open spec fn source_not_directory_message(source: Seq<char>) -> Seq<char> {
    "Source is not a directory: "@ + source
}

/// What is said of a target that is already there.
pub open spec fn target_exists_message(target: Seq<char>) -> Seq<char> {
    "Target already exists: "@ + target
}

/// A run starts only from a source that is a directory and towards a target
/// that does not exist yet. The source is looked at first.
pub fn check_roots(
    source: &str,
    source_is_dir: bool,
    target: &str,
    target_exists: bool,
) -> (checked: Result<(), PatchConfigError>)
    ensures
        if !source_is_dir {
            checked matches Err(PatchConfigError::SourceNotDirectory(message)) && message@
                == source_not_directory_message(source@)
        } else if target_exists {
            checked matches Err(PatchConfigError::TargetAlreadyExists(message)) && message@
                == target_exists_message(target@)
        } else {
            checked is Ok
        },
{
    if !source_is_dir {
        let mut message = String::new();
        message.append("Source is not a directory: ");
        message.append(source);
        return Err(PatchConfigError::SourceNotDirectory(message));
    }
    if target_exists {
        let mut message = String::new();
        message.append("Target already exists: ");
        message.append(target);
        return Err(PatchConfigError::TargetAlreadyExists(message));
    }
    Ok(())
}

/// What a run leaves in its metadata directory: two files, each with its
/// name in that directory and its text.
#[derive(Debug, PartialEq, Eq)]
pub struct Metadata {
    /// The name of the file that holds the manifest.
    pub manifest_file_name: String,
    /// The manifest: the mirrored tree as JSON.
    pub manifest: String,
    /// The name of the file that holds the server status.
    pub status_file_name: String,
    /// The server status as JSON.
    pub status: String,
}

/// Writes the mirrored tree and the server status, each as JSON text of its
/// own, for the files that the layout names.
pub fn emit(layout: &Layout, tree: &Directory, status: ServerStatus) -> (metadata: Metadata)
    ensures
        metadata.manifest_file_name@ == layout.manifest_file_name@,
        metadata.manifest@ == directory_json(tree@),
        metadata.status_file_name@ == layout.status_file_name@,
        metadata.status@ == status.json(),
{
    Metadata {
        manifest_file_name: layout.manifest_file_name.clone(),
        manifest: tree.to_json(),
        status_file_name: layout.status_file_name.clone(),
        status: status.to_json(),
    }
}

/// Two runs over the same source write the same manifest: where the entries
/// of the root came in the same order and gave the same results, none of
/// them a failure, the two trees have one text.
pub proof fn lemma_same_results_same_manifest(
    name: Seq<char>,
    first: Seq<Result<Option<FSObject>, PatchConfigError>>,
    second: Seq<Result<Option<FSObject>, PatchConfigError>>,
)
    requires
        first.len() == second.len(),
        forall|i: int| 0 <= i < first.len() ==> same_result(first[i], second[i]),
        first_failure(first) is None,
    ensures
        first_failure(second) is None,
        directory_json(DirectoryModel { name, children: present_nodes(first) }) == directory_json(
            DirectoryModel { name, children: present_nodes(second) },
        ),
{
    lemma_gathering_is_deterministic(first, second);
}

} // verus!
