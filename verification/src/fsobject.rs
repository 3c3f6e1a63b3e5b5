//! The tree that describes the mirrored output: files, directories and archives.

use vstd::prelude::*;
use crate::digest::{digest, digest_of};

verus! {

/// A file of the target tree: its name and the digest of its bytes.
#[derive(Debug, PartialEq, Eq)]
pub struct File {
    pub name: String,
    pub digest: String,
}

/// A directory of the target tree with its entries in enumeration order.
#[derive(Debug, PartialEq, Eq)]
pub struct Directory {
    pub name: String,
    pub children: Vec<FSObject>,
}

/// The flat files that came out of one archive, in member order.
#[derive(Debug, PartialEq, Eq)]
pub struct Archive {
    pub name: String,
    pub files: Vec<File>,
}

/// One entry of the target tree.
#[derive(Debug, PartialEq, Eq)]
pub enum FSObject {
    File(File),
    Directory(Directory),
    Archive(Archive),
}

/// What a `File` stands for.
pub struct FileModel {
    pub name: Seq<char>,
    pub digest: Seq<char>,
}

/// What an `Archive` stands for.
pub struct ArchiveModel {
    pub name: Seq<char>,
    pub files: Seq<FileModel>,
}

/// What a `Directory` stands for.
pub struct DirectoryModel {
    pub name: Seq<char>,
    pub children: Seq<NodeModel>,
}

/// What an `FSObject` stands for.
pub enum NodeModel {
    File(FileModel),
    Directory(DirectoryModel),
    Archive(ArchiveModel),
}

impl View for File {
    type V = FileModel;

    open spec fn view(&self) -> FileModel {
        FileModel { name: self.name@, digest: self.digest@ }
    }
}

/// What a sequence of files stands for, entry by entry.
pub open spec fn file_models(files: Seq<File>) -> Seq<FileModel> {
    Seq::new(files.len(), |i: int| files[i]@)
}

impl View for Archive {
    type V = ArchiveModel;

    open spec fn view(&self) -> ArchiveModel {
        ArchiveModel { name: self.name@, files: file_models(self.files@) }
    }
}

/// What a node stands for.
pub open spec fn node_model(node: FSObject) -> NodeModel
    decreases node, 0nat,
{
    match node {
        FSObject::File(file) => NodeModel::File(file@),
        FSObject::Directory(dir) => NodeModel::Directory(
            DirectoryModel { name: dir.name@, children: node_models(dir.children) },
        ),
        FSObject::Archive(archive) => NodeModel::Archive(archive@),
    }
}

/// What the entries of a directory stand for, entry by entry.
pub open spec fn node_models(nodes: Vec<FSObject>) -> Seq<NodeModel>
    decreases nodes, 1nat,
{
    Seq::new(
        nodes.len() as nat,
        |i: int|
            if 0 <= i < nodes.len() {
                node_model(nodes[i])
            } else {
                arbitrary()
            },
    )
}

impl View for Directory {
    type V = DirectoryModel;

    open spec fn view(&self) -> DirectoryModel {
        DirectoryModel { name: self.name@, children: node_models(self.children) }
    }
}

impl View for FSObject {
    type V = NodeModel;

    open spec fn view(&self) -> NodeModel {
        node_model(*self)
    }
}

/// The models of a vector are those of its elements: the empty vector has none.
pub(crate) proof fn lemma_node_models_empty(nodes: Vec<FSObject>)
    requires
        nodes@.len() == 0,
    ensures
        node_models(nodes) == Seq::<NodeModel>::empty(),
{
    assert(node_models(nodes) =~= Seq::<NodeModel>::empty());
}

/// Pushing a node onto a vector pushes its model onto the models.
pub(crate) proof fn lemma_node_models_push(before: Vec<FSObject>, after: Vec<FSObject>, node: FSObject)
    requires
        after@ == before@.push(node),
    ensures
        node_models(after) == node_models(before).push(node@),
{
    assert(node_models(after) =~= node_models(before).push(node@)) by {
        assert forall|i: int| 0 <= i < after@.len() implies node_models(after)[i] == node_models(
            before,
        ).push(node@)[i] by {
            if i < before@.len() {
                assert(after[i] == before[i]);
            } else {
                assert(after[i] == node);
            }
        }
    }
}

impl File {
    /// The manifest entry of a file called `name` that holds `data`.
    pub fn new(name: &str, data: &[u8]) -> (file: File)
        ensures
            file@.name == name@,
            file@.digest == digest_of(data@),
    {
        File { name: name.to_owned(), digest: digest(data) }
    }
}

} // verus!
