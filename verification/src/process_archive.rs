//! Archives: the two files of a packed one, the members that come out of it,
//! and a directory that already holds the members of one.

use vstd::prelude::*;
use crate::error::PatchConfigError;
use crate::fsobject::{
    file_models, Archive, ArchiveModel, Directory, FSObject, File, FileModel, NodeModel,
};
use crate::process_directory::{first_failure, lemma_first_failure_stays};

verus! {

/// What is said of a component of a packed archive that is not there.
pub open spec fn missing_component_message(path: Seq<char>) -> Seq<char> {
    "Missing archive component "@ + path
}

/// What is said of an unpacked archive that holds more than files.
pub open spec fn not_only_files_message(source_dir: Seq<char>) -> Seq<char> {
    "The archive directory "@ + source_dir + " does not contain exclusively files"@
}

/// A packed archive can be opened only if its header and its payload are both
/// there. The header is looked at first.
pub fn check_archive_pair(
    header_path: &str,
    header_exists: bool,
    payload_path: &str,
    payload_exists: bool,
) -> (checked: Result<(), PatchConfigError>)
    ensures
        if !header_exists {
            checked matches Err(PatchConfigError::NoArchiveFile(message)) && message@
                == missing_component_message(header_path@)
        } else if !payload_exists {
            checked matches Err(PatchConfigError::NoArchiveFile(message)) && message@
                == missing_component_message(payload_path@)
        } else {
            checked is Ok
        },
{
    if !header_exists {
        let mut message = String::new();
        message.append("Missing archive component ");
        message.append(header_path);
        return Err(PatchConfigError::NoArchiveFile(message));
    }
    if !payload_exists {
        let mut message = String::new();
        message.append("Missing archive component ");
        message.append(payload_path);
        return Err(PatchConfigError::NoArchiveFile(message));
    }
    Ok(())
}

/// The files that the results hold, where none of them failed.
pub open spec fn member_models(results: Seq<Result<File, PatchConfigError>>) -> Seq<FileModel> {
    Seq::new(results.len(), |i: int| results[i]->Ok_0@)
}

/// Gathers the results of an archive's members into its node, in member
/// order. The first failure, in that order, is the failure of the whole.
pub fn process_new_archive(object_name: &str, results: Vec<Result<File, PatchConfigError>>) -> (out:
    Result<Option<FSObject>, PatchConfigError>)
    ensures
        match first_failure(results@) {
            Some(i) => out == Err::<Option<FSObject>, PatchConfigError>(results@[i]->Err_0),
            None => out matches Ok(Some(FSObject::Archive(archive))) && archive@ == (ArchiveModel {
                name: object_name@,
                files: member_models(results@),
            }),
        },
{
    let ghost all = results@;
    let mut files: Vec<File> = Vec::new();
    for result in it: results.into_iter()
        invariant
            it.seq() == all,
            first_failure(all.take(it.index() as int)) is None,
            file_models(files@) == member_models(all.take(it.index() as int)),
    {
        let ghost at = it.index() as int;
        assert(all.take(at + 1).drop_last() == all.take(at));
        match result {
            Ok(file) => {
                let ghost before = files@;
                assert(before.len() == at) by {
                    assert(file_models(before).len() == member_models(all.take(at)).len());
                }
                files.push(file);
                assert(file_models(files@) =~= member_models(all.take(at + 1))) by {
                    assert forall|k: int| 0 <= k < at + 1 implies file_models(files@)[k]
                        == member_models(all.take(at + 1))[k] by {
                        if k < at {
                            assert(file_models(before)[k] == member_models(all.take(at))[k]);
                        }
                    }
                }
            },
            Err(why) => {
                proof {
                    lemma_first_failure_stays(all, at);
                }
                return Err(why);
            },
        }
    }
    assert(all.take(all.len() as int) == all);
    Ok(Some(FSObject::Archive(Archive { name: object_name.to_owned(), files })))
}

/// True if every node is a file.
pub open spec fn only_files(nodes: Seq<NodeModel>) -> bool {
    forall|i: int| 0 <= i < nodes.len() ==> #[trigger] nodes[i] is File
}

/// The nodes as files, where every one of them is a file.
pub open spec fn as_files(nodes: Seq<NodeModel>) -> Seq<FileModel> {
    Seq::new(nodes.len(), |i: int| nodes[i]->File_0)
}

/// Turns the mirrored directory of an unpacked archive into the archive's
/// node. An archive holds files only: a directory with anything else in it is
/// refused.
pub fn process_unpacked_archive(dir: Directory, source_dir: &str, object_name: &str) -> (out:
    Result<Archive, PatchConfigError>)
    ensures
        if only_files(dir@.children) {
            out matches Ok(archive) && archive@ == (ArchiveModel {
                name: object_name@,
                files: as_files(dir@.children),
            })
        } else {
            out matches Err(PatchConfigError::ArchiveContainsDirectory(message)) && message@
                == not_only_files_message(source_dir@)
        },
{
    let ghost nodes = dir@.children;
    let ghost all = dir.children@;
    assert(nodes.len() == all.len());
    assert(forall|i: int| 0 <= i < all.len() ==> nodes[i] == all[i]@);
    let mut files: Vec<File> = Vec::new();
    for child in it: dir.children.into_iter()
        invariant
            it.seq() == all,
            nodes == dir@.children,
            nodes.len() == all.len(),
            forall|i: int| 0 <= i < all.len() ==> nodes[i] == all[i]@,
            only_files(nodes.take(it.index() as int)),
            file_models(files@) == as_files(nodes.take(it.index() as int)),
    {
        let ghost at = it.index() as int;
        match child {
            FSObject::File(file) => {
                let ghost before = files@;
                assert(before.len() == at) by {
                    assert(file_models(before).len() == as_files(nodes.take(at)).len());
                }
                files.push(file);
                assert(nodes[at] == NodeModel::File(file@));
                assert(only_files(nodes.take(at + 1))) by {
                    assert forall|k: int| 0 <= k < at + 1 implies #[trigger] nodes.take(at + 1)[k]
                        is File by {
                        if k < at {
                            assert(nodes.take(at)[k] is File);
                        }
                    }
                }
                assert(file_models(files@) =~= as_files(nodes.take(at + 1))) by {
                    assert forall|k: int| 0 <= k < at + 1 implies file_models(files@)[k]
                        == as_files(nodes.take(at + 1))[k] by {
                        if k < at {
                            assert(file_models(before)[k] == as_files(nodes.take(at))[k]);
                        }
                    }
                }
            },
            _ => {
                assert(!(nodes[at] is File));
                let mut message = String::new();
                message.append("The archive directory ");
                message.append(source_dir);
                message.append(" does not contain exclusively files");
                return Err(PatchConfigError::ArchiveContainsDirectory(message));
            },
        }
    }
    assert(nodes.take(nodes.len() as int) == nodes);
    Ok(Archive { name: object_name.to_owned(), files })
}

} // verus!
