//! The manifest: the mirrored tree as JSON text, and that text read back.
//!
//! A file is written as an object with its `name` and `digest`. A directory is
//! an object with its `name` and the array of its `children`, each child an
//! object with one member that is named after its kind: `File`, `Directory` or
//! `Archive`. An archive is an object with its `name` and the array of its
//! `files`. Nothing stands between the tokens.

use vstd::prelude::*;
use crate::fsobject::{
    Archive, ArchiveModel, Directory, DirectoryModel, FSObject, File, FileModel, NodeModel,
};
use crate::json_text::{quoted, write_quoted};

verus! {

/// The items with a comma between each two of them.
pub open spec fn joined(items: Seq<Seq<char>>) -> Seq<char>
    decreases items.len(),
{
    if items.len() == 0 {
        Seq::empty()
    } else if items.len() == 1 {
        items[0]
    } else {
        joined(items.drop_last()) + ","@ + items.last()
    }
}

/// The items as a JSON array.
pub open spec fn listed(items: Seq<Seq<char>>) -> Seq<char> {
    "["@ + joined(items) + "]"@
}

/// A file as JSON.
pub open spec fn file_json(file: FileModel) -> Seq<char> {
    "{\"name\":"@ + quoted(file.name) + ",\"digest\":"@ + quoted(file.digest) + "}"@
}

/// Each file as JSON.
pub open spec fn files_json(files: Seq<FileModel>) -> Seq<Seq<char>> {
    Seq::new(files.len(), |i: int| file_json(files[i]))
}

/// An archive as JSON.
pub open spec fn archive_json(archive: ArchiveModel) -> Seq<char> {
    "{\"name\":"@ + quoted(archive.name) + ",\"files\":"@ + listed(files_json(archive.files))
        + "}"@
}

/// A node as JSON: an object whose one member is named after the node's kind.
pub open spec fn node_json(node: NodeModel) -> Seq<char>
    decreases node,
{
    match node {
        NodeModel::File(file) => "{\"File\":"@ + file_json(file) + "}"@,
        NodeModel::Directory(dir) => "{\"Directory\":"@ + directory_json(dir) + "}"@,
        NodeModel::Archive(archive) => "{\"Archive\":"@ + archive_json(archive) + "}"@,
    }
}

/// Each node as JSON.
pub open spec fn nodes_json(nodes: Seq<NodeModel>) -> Seq<Seq<char>>
    decreases nodes,
{
    Seq::new(
        nodes.len(),
        |i: int|
            if 0 <= i < nodes.len() {
                node_json(nodes[i])
            } else {
                arbitrary()
            },
    )
}

/// A directory as JSON. This is the form of the manifest.
pub open spec fn directory_json(dir: DirectoryModel) -> Seq<char>
    decreases dir,
{
    "{\"name\":"@ + quoted(dir.name) + ",\"children\":"@ + listed(nodes_json(dir.children))
        + "}"@
}

/// Joining one more item puts a comma before it, unless it is the first.
proof fn lemma_joined_push(items: Seq<Seq<char>>, item: Seq<char>)
    ensures
        joined(items.push(item)) == if items.len() == 0 {
            item
        } else {
            joined(items) + ","@ + item
        },
{
    assert(items.push(item).drop_last() == items);
}

fn write_file(out: &mut String, file: &File)
    ensures
        final(out)@ == old(out)@ + file_json(file@),
{
    let ghost before = out@;
    out.append("{\"name\":");
    write_quoted(out, file.name.as_str());
    out.append(",\"digest\":");
    write_quoted(out, file.digest.as_str());
    out.append("}");
    assert(out@ =~= before + file_json(file@));
}

fn write_archive(out: &mut String, archive: &Archive)
    ensures
        final(out)@ == old(out)@ + archive_json(archive@),
{
    let ghost before = out@;
    out.append("{\"name\":");
    write_quoted(out, archive.name.as_str());
    out.append(",\"files\":");
    out.append("[");
    let ghost opened = out@;
    let ghost all = files_json(archive@.files);
    let mut i: usize = 0;
    while i < archive.files.len()
        invariant
            i <= archive.files.len(),
            all == files_json(archive@.files),
            out@ == opened + joined(all.take(i as int)),
        decreases archive.files.len() - i,
    {
        proof {
            lemma_joined_push(all.take(i as int), all[i as int]);
            assert(all.take(i + 1) == all.take(i as int).push(all[i as int]));
        }
        if i > 0 {
            out.append(",");
        }
        write_file(out, &archive.files[i]);
        assert(out@ =~= opened + joined(all.take(i + 1)));
        i += 1;
    }
    assert(all.take(i as int) == all);
    out.append("]");
    out.append("}");
    assert(out@ =~= before + archive_json(archive@));
}

fn write_node(out: &mut String, node: &FSObject)
    ensures
        final(out)@ == old(out)@ + node_json(node@),
    decreases node,
{
    let ghost before = out@;
    match node {
        FSObject::File(file) => {
            out.append("{\"File\":");
            write_file(out, file);
        },
        FSObject::Directory(dir) => {
            out.append("{\"Directory\":");
            write_directory(out, dir);
        },
        FSObject::Archive(archive) => {
            out.append("{\"Archive\":");
            write_archive(out, archive);
        },
    }
    out.append("}");
    assert(out@ =~= before + node_json(node@));
}

fn write_directory(out: &mut String, dir: &Directory)
    ensures
        final(out)@ == old(out)@ + directory_json(dir@),
    decreases dir,
{
    let ghost before = out@;
    out.append("{\"name\":");
    write_quoted(out, dir.name.as_str());
    out.append(",\"children\":");
    out.append("[");
    let ghost opened = out@;
    let ghost all = nodes_json(dir@.children);
    let mut i: usize = 0;
    while i < dir.children.len()
        invariant
            i <= dir.children.len(),
            all == nodes_json(dir@.children),
            out@ == opened + joined(all.take(i as int)),
        decreases dir.children.len() - i,
    {
        proof {
            lemma_joined_push(all.take(i as int), all[i as int]);
            assert(all.take(i + 1) == all.take(i as int).push(all[i as int]));
            assert(all[i as int] == node_json(dir.children[i as int]@));
        }
        if i > 0 {
            out.append(",");
        }
        write_node(out, &dir.children[i]);
        assert(out@ =~= opened + joined(all.take(i + 1)));
        i += 1;
    }
    assert(all.take(i as int) == all);
    out.append("]");
    out.append("}");
    assert(out@ =~= before + directory_json(dir@));
}

impl Directory {
    /// Writes the tree below this directory as the text of a manifest.
    pub fn to_json(&self) -> (text: String)
        ensures
            text@ == directory_json(self@),
    {
        let mut text = String::new();
        write_directory(&mut text, self);
        assert(text@ =~= directory_json(self@));
        text
    }
}

} // verus!
