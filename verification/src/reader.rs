//! Reading a manifest back: what text gives what tree.
//!
//! The reader takes the text that the writer produces and nothing else, so a
//! text is read as a tree exactly if it is that tree's manifest.

use vstd::prelude::*;
use crate::fsobject::{
    file_models, lemma_node_models_empty, lemma_node_models_push, node_models, Archive,
    ArchiveModel, Directory, DirectoryModel, FSObject, File, FileModel, NodeModel,
};
use crate::json_text::{
    after_token, expect, holds_at, lemma_holds_at_concat, same_at, lemma_quoted_at_complete,
    lemma_quoted_at_sound, parse_quoted, quoted, quoted_at,
};
use crate::text::chars_of;
use crate::manifest::{
    archive_json, directory_json, file_json, files_json, joined, listed, node_json, nodes_json,
};

verus! {

/// The file whose JSON stands at `pos`, and the position behind it.
#[verifier::opaque]
spec fn file_at(s: Seq<char>, pos: int) -> Option<(FileModel, int)> {
    match after_token(s, pos, "{\"name\":"@) {
        Some(at_name) => match quoted_at(s, at_name) {
            Some((name, past_name)) => match after_token(s, past_name, ",\"digest\":"@) {
                Some(at_value) => match quoted_at(s, at_value) {
                    Some((digest, past_value)) => match after_token(s, past_value, "}"@) {
                        Some(end) => Some((FileModel { name, digest }, end)),
                        None => None,
                    },
                    None => None,
                },
                None => None,
            },
            None => None,
        },
        None => None,
    }
}

/// The files whose JSON stands at `pos`, with commas between them and a
/// closing bracket behind the last, and the position behind that bracket.
spec fn more_files_at(s: Seq<char>, pos: int) -> Option<(Seq<FileModel>, int)>
    decreases s.len() - pos,
{
    match file_at(s, pos) {
        Some((file, p)) => match after_token(s, p, ","@) {
            Some(q) => if q > pos {
                match more_files_at(s, q) {
                    Some((rest, end)) => Some((seq![file] + rest, end)),
                    None => None,
                }
            } else {
                None
            },
            None => match after_token(s, p, "]"@) {
                Some(end) => Some((seq![file], end)),
                None => None,
            },
        },
        None => None,
    }
}

/// The files whose JSON array stands at `pos`, and the position behind it.
#[verifier::opaque]
spec fn files_at(s: Seq<char>, pos: int) -> Option<(Seq<FileModel>, int)> {
    match after_token(s, pos, "["@) {
        Some(p) => match after_token(s, p, "]"@) {
            Some(end) => Some((Seq::empty(), end)),
            None => more_files_at(s, p),
        },
        None => None,
    }
}

/// The archive whose JSON stands at `pos`, and the position behind it.
#[verifier::opaque]
spec fn archive_at(s: Seq<char>, pos: int) -> Option<(ArchiveModel, int)> {
    match after_token(s, pos, "{\"name\":"@) {
        Some(at_name) => match quoted_at(s, at_name) {
            Some((name, past_name)) => match after_token(s, past_name, ",\"files\":"@) {
                Some(at_value) => match files_at(s, at_value) {
                    Some((files, past_value)) => match after_token(s, past_value, "}"@) {
                        Some(end) => Some((ArchiveModel { name, files }, end)),
                        None => None,
                    },
                    None => None,
                },
                None => None,
            },
            None => None,
        },
        None => None,
    }
}

/// The node whose JSON stands at `pos`, and the position behind it.
spec fn node_at(s: Seq<char>, pos: int) -> Option<(NodeModel, int)>
    decreases s.len() - pos, 0nat,
{
    match after_token(s, pos, "{\"File\":"@) {
        Some(p) => match file_at(s, p) {
            Some((file, q)) => match after_token(s, q, "}"@) {
                Some(end) => Some((NodeModel::File(file), end)),
                None => None,
            },
            None => None,
        },
        None => match after_token(s, pos, "{\"Directory\":"@) {
            Some(p) => if p > pos {
                match directory_at(s, p) {
                    Some((dir, q)) => match after_token(s, q, "}"@) {
                        Some(end) => Some((NodeModel::Directory(dir), end)),
                        None => None,
                    },
                    None => None,
                }
            } else {
                None
            },
            None => match after_token(s, pos, "{\"Archive\":"@) {
                Some(p) => match archive_at(s, p) {
                    Some((archive, q)) => match after_token(s, q, "}"@) {
                        Some(end) => Some((NodeModel::Archive(archive), end)),
                        None => None,
                    },
                    None => None,
                },
                None => None,
            },
        },
    }
}

/// The nodes whose JSON stands at `pos`, with commas between them and a
/// closing bracket behind the last, and the position behind that bracket.
spec fn more_nodes_at(s: Seq<char>, pos: int) -> Option<(Seq<NodeModel>, int)>
    decreases s.len() - pos, 1nat,
{
    match node_at(s, pos) {
        Some((node, p)) => match after_token(s, p, ","@) {
            Some(q) => if q > pos {
                match more_nodes_at(s, q) {
                    Some((rest, end)) => Some((seq![node] + rest, end)),
                    None => None,
                }
            } else {
                None
            },
            None => match after_token(s, p, "]"@) {
                Some(end) => Some((seq![node], end)),
                None => None,
            },
        },
        None => None,
    }
}

/// The nodes whose JSON array stands at `pos`, and the position behind it.
spec fn nodes_at(s: Seq<char>, pos: int) -> Option<(Seq<NodeModel>, int)>
    decreases s.len() - pos, 2nat,
{
    match after_token(s, pos, "["@) {
        Some(p) => match after_token(s, p, "]"@) {
            Some(end) => Some((Seq::empty(), end)),
            None => if p >= pos {
                more_nodes_at(s, p)
            } else {
                None
            },
        },
        None => None,
    }
}

/// The directory whose JSON stands at `pos`, and the position behind it.
spec fn directory_at(s: Seq<char>, pos: int) -> Option<(DirectoryModel, int)>
    decreases s.len() - pos, 3nat,
{
    match after_token(s, pos, "{\"name\":"@) {
        Some(at_name) => match quoted_at(s, at_name) {
            Some((name, past_name)) => match after_token(s, past_name, ",\"children\":"@) {
                Some(at_value) => if at_value >= pos {
                    match nodes_at(s, at_value) {
                        Some((children, past_value)) => match after_token(s, past_value, "}"@) {
                            Some(end) => Some((DirectoryModel { name, children }, end)),
                            None => None,
                        },
                        None => None,
                    }
                } else {
                    None
                },
                None => None,
            },
            None => None,
        },
        None => None,
    }
}

/// The tree of which `text` is the manifest, if it is the manifest of one.
pub closed spec fn tree_of_manifest(text: Seq<char>) -> Option<DirectoryModel> {
    match directory_at(text, 0) {
        Some((dir, end)) => if end == text.len() {
            Some(dir)
        } else {
            None
        },
        None => None,
    }
}

/// Three pieces stand in a row exactly if each stands behind the one before.
proof fn lemma_holds_at_three(s: Seq<char>, pos: int, a: Seq<char>, b: Seq<char>, c: Seq<char>)
    ensures
        holds_at(s, pos, a + b + c) == (holds_at(s, pos, a) && holds_at(s, pos + a.len(), b)
            && holds_at(s, pos + a.len() + b.len(), c)),
        (a + b + c).len() == a.len() + b.len() + c.len(),
{
    lemma_holds_at_concat(s, pos, a, b);
    lemma_holds_at_concat(s, pos, a + b, c);
}

/// Five pieces stand in a row exactly if each stands behind the one before.
proof fn lemma_holds_at_five(
    s: Seq<char>,
    pos: int,
    a: Seq<char>,
    b: Seq<char>,
    c: Seq<char>,
    d: Seq<char>,
    e: Seq<char>,
)
    ensures
        holds_at(s, pos, a + b + c + d + e) == (holds_at(s, pos, a) && holds_at(
            s,
            pos + a.len(),
            b,
        ) && holds_at(s, pos + a.len() + b.len(), c) && holds_at(
            s,
            pos + a.len() + b.len() + c.len(),
            d,
        ) && holds_at(s, pos + a.len() + b.len() + c.len() + d.len(), e)),
        (a + b + c + d + e).len() == a.len() + b.len() + c.len() + d.len() + e.len(),
{
    lemma_holds_at_concat(s, pos, a, b);
    lemma_holds_at_concat(s, pos, a + b, c);
    lemma_holds_at_concat(s, pos, a + b + c, d);
    lemma_holds_at_concat(s, pos, a + b + c + d, e);
}

/// A joined row of two or more items is its first item, a comma and the rest
/// joined.
proof fn lemma_joined_first(items: Seq<Seq<char>>)
    requires
        items.len() >= 2,
    ensures
        joined(items) == items[0] + ","@ + joined(items.drop_first()),
    decreases items.len(),
{
    if items.len() == 2 {
        assert(items.drop_last().len() == 1);
        assert(items.drop_first().len() == 1);
        assert(joined(items.drop_last()) == items[0]);
        assert(joined(items.drop_first()) == items[1]);
    } else {
        let front = items.drop_last();
        lemma_joined_first(front);
        assert(front.drop_first() == items.drop_first().drop_last());
        assert(joined(items.drop_first()) == joined(front.drop_first()) + ","@ + items.last());
        assert(joined(items) == (items[0] + ","@ + joined(front.drop_first())) + ","@
            + items.last());
        assert(joined(items) =~= items[0] + ","@ + joined(items.drop_first()));
    }
}

/// What `file_at` reads is the JSON of the file it gives.
proof fn lemma_file_at_sound(s: Seq<char>, pos: int)
    requires
        file_at(s, pos) is Some,
    ensures
        holds_at(s, pos, file_json(file_at(s, pos).unwrap().0)),
        file_at(s, pos).unwrap().1 == pos + file_json(file_at(s, pos).unwrap().0).len(),
{
    reveal(file_at);
    let (file, end) = file_at(s, pos).unwrap();
    let at_name = after_token(s, pos, "{\"name\":"@).unwrap();
    let at_value = after_token(s, quoted_at(s, at_name).unwrap().1, ",\"digest\":"@).unwrap();
    lemma_quoted_at_sound(s, at_name);
    lemma_quoted_at_sound(s, at_value);
    lemma_holds_at_five(
        s,
        pos,
        "{\"name\":"@,
        quoted(file.name),
        ",\"digest\":"@,
        quoted(file.digest),
        "}"@,
    );
}

/// Where the JSON of a file stands, `file_at` gives that file.
proof fn lemma_file_at_complete(s: Seq<char>, pos: int, file: FileModel)
    requires
        holds_at(s, pos, file_json(file)),
    ensures
        file_at(s, pos) == Some((file, pos + file_json(file).len())),
{
    reveal(file_at);
    lemma_holds_at_five(
        s,
        pos,
        "{\"name\":"@,
        quoted(file.name),
        ",\"digest\":"@,
        quoted(file.digest),
        "}"@,
    );
    let at_name = pos + "{\"name\":"@.len();
    lemma_quoted_at_complete(s, at_name, file.name);
    let at_value = at_name + quoted(file.name).len() + ",\"digest\":"@.len();
    lemma_quoted_at_complete(s, at_value, file.digest);
}

/// The first character of the JSON of a file is an opening brace.
proof fn lemma_file_json_starts(s: Seq<char>, pos: int, file: FileModel)
    requires
        holds_at(s, pos, file_json(file)),
    ensures
        pos < s.len(),
        s[pos] == '{',
{
    reveal(same_at);
    reveal_strlit("{\"name\":");
    lemma_holds_at_five(
        s,
        pos,
        "{\"name\":"@,
        quoted(file.name),
        ",\"digest\":"@,
        quoted(file.digest),
        "}"@,
    );
    assert(s.subrange(pos, pos + "{\"name\":"@.len())[0] == '{');
}

/// A single-character token stands at a position exactly if that character
/// does.
proof fn lemma_comma_and_bracket(s: Seq<char>, pos: int)
    ensures
        ","@.len() == 1,
        "]"@.len() == 1,
        "["@.len() == 1,
        "}"@.len() == 1,
        holds_at(s, pos, ","@) == (0 <= pos < s.len() && s[pos] == ','),
        holds_at(s, pos, "]"@) == (0 <= pos < s.len() && s[pos] == ']'),
        holds_at(s, pos, "["@) == (0 <= pos < s.len() && s[pos] == '['),
        holds_at(s, pos, "}"@) == (0 <= pos < s.len() && s[pos] == '}'),
{
    reveal(same_at);
    reveal_strlit(",");
    reveal_strlit("]");
    reveal_strlit("[");
    reveal_strlit("}");
    if 0 <= pos < s.len() {
        let one = s.subrange(pos, pos + 1);
        assert(one[0] == s[pos]);
        assert(one =~= seq![s[pos]]);
        assert(","@ =~= seq![',']);
        assert("]"@ =~= seq![']']);
        assert("["@ =~= seq!['[']);
        assert("}"@ =~= seq!['}']);
        assert(seq![s[pos]][0] == s[pos]);
    }
}

/// The JSON of files one after the other: that of the first, then that of the
/// rest.
proof fn lemma_files_json_first(files: Seq<FileModel>)
    requires
        files.len() > 0,
    ensures
        files_json(files)[0] == file_json(files[0]),
        files_json(files).drop_first() == files_json(files.drop_first()),
        files_json(files).len() == files.len(),
{
    assert(files_json(files).drop_first() =~= files_json(files.drop_first()));
}

/// What `more_files_at` reads is the joined JSON of the files it gives and
/// a closing bracket.
proof fn lemma_more_files_at_sound(s: Seq<char>, pos: int)
    requires
        more_files_at(s, pos) is Some,
    ensures
        more_files_at(s, pos).unwrap().0.len() > 0,
        holds_at(s, pos, joined(files_json(more_files_at(s, pos).unwrap().0)) + "]"@),
        more_files_at(s, pos).unwrap().1 == pos + joined(
            files_json(more_files_at(s, pos).unwrap().0),
        ).len() + 1,
    decreases s.len() - pos,
{
    let (files, end) = more_files_at(s, pos).unwrap();
    let (file, p) = file_at(s, pos).unwrap();
    lemma_file_at_sound(s, pos);
    lemma_comma_and_bracket(s, p);
    lemma_files_json_first(files);
    match after_token(s, p, ","@) {
        Some(q) => {
            let (rest, _) = more_files_at(s, q).unwrap();
            lemma_more_files_at_sound(s, q);
            assert(files.drop_first() =~= rest);
            assert(files[0] == file);
            lemma_joined_first(files_json(files));
            lemma_holds_at_three(s, pos, file_json(file), ","@, joined(files_json(rest)) + "]"@);
            assert(joined(files_json(files)) + "]"@ =~= file_json(file) + ","@ + (joined(
                files_json(rest),
            ) + "]"@));
        },
        None => {
            assert(files =~= seq![file]);
            assert(joined(files_json(files)) == file_json(file));
            lemma_holds_at_concat(s, pos, file_json(file), "]"@);
        },
    }
}

/// Where the joined JSON of one or more files stands before a closing
/// bracket, `more_files_at` gives those files.
proof fn lemma_more_files_at_complete(s: Seq<char>, pos: int, files: Seq<FileModel>)
    requires
        files.len() > 0,
        holds_at(s, pos, joined(files_json(files)) + "]"@),
    ensures
        more_files_at(s, pos) == Some((files, pos + joined(files_json(files)).len() + 1)),
    decreases files.len(),
{
    let file = files[0];
    let rest = files.drop_first();
    lemma_files_json_first(files);
    if files.len() == 1 {
        assert(joined(files_json(files)) == file_json(file));
        lemma_holds_at_concat(s, pos, file_json(file), "]"@);
        lemma_file_at_complete(s, pos, file);
        lemma_comma_and_bracket(s, pos + file_json(file).len());
        assert(files =~= seq![file]);
    } else {
        lemma_joined_first(files_json(files));
        assert(joined(files_json(files)) + "]"@ =~= file_json(file) + ","@ + (joined(
            files_json(rest),
        ) + "]"@));
        lemma_holds_at_three(s, pos, file_json(file), ","@, joined(files_json(rest)) + "]"@);
        lemma_file_at_complete(s, pos, file);
        lemma_comma_and_bracket(s, pos + file_json(file).len());
        lemma_more_files_at_complete(s, pos + file_json(file).len() + 1, rest);
        assert(seq![file] + rest =~= files);
    }
}

/// What `files_at` reads is the JSON array of the files it gives.
proof fn lemma_files_at_sound(s: Seq<char>, pos: int)
    requires
        files_at(s, pos) is Some,
    ensures
        holds_at(s, pos, listed(files_json(files_at(s, pos).unwrap().0))),
        files_at(s, pos).unwrap().1 == pos + listed(
            files_json(files_at(s, pos).unwrap().0),
        ).len(),
{
    reveal(files_at);
    reveal(same_at);
    let (files, end) = files_at(s, pos).unwrap();
    let p = after_token(s, pos, "["@).unwrap();
    lemma_comma_and_bracket(s, pos);
    lemma_comma_and_bracket(s, p);
    if after_token(s, p, "]"@) is Some {
        assert(joined(files_json(files)) =~= Seq::<char>::empty());
        lemma_holds_at_three(s, pos, "["@, joined(files_json(files)), "]"@);
        assert(s.subrange(p, p) =~= Seq::<char>::empty());
    } else {
        lemma_more_files_at_sound(s, p);
        lemma_holds_at_concat(s, pos, "["@, joined(files_json(files)) + "]"@);
        assert(listed(files_json(files)) =~= "["@ + (joined(files_json(files)) + "]"@));
    }
}

/// Where the JSON array of some files stands, `files_at` gives those files.
proof fn lemma_files_at_complete(s: Seq<char>, pos: int, files: Seq<FileModel>)
    requires
        holds_at(s, pos, listed(files_json(files))),
    ensures
        files_at(s, pos) == Some((files, pos + listed(files_json(files)).len())),
{
    reveal(files_at);
    lemma_comma_and_bracket(s, pos);
    lemma_comma_and_bracket(s, pos + 1);
    lemma_holds_at_three(s, pos, "["@, joined(files_json(files)), "]"@);
    if files.len() == 0 {
        assert(joined(files_json(files)) =~= Seq::<char>::empty());
        assert(files =~= Seq::<FileModel>::empty());
    } else {
        lemma_files_json_first(files);
        if files.len() >= 2 {
            lemma_joined_first(files_json(files));
            lemma_holds_at_three(
                s,
                pos + 1,
                file_json(files[0]),
                ","@,
                joined(files_json(files.drop_first())),
            );
        }
        lemma_file_json_starts(s, pos + 1, files[0]);
        assert(listed(files_json(files)) =~= "["@ + (joined(files_json(files)) + "]"@));
        lemma_holds_at_concat(s, pos, "["@, joined(files_json(files)) + "]"@);
        lemma_more_files_at_complete(s, pos + 1, files);
    }
}

/// What `archive_at` reads is the JSON of the archive it gives.
proof fn lemma_archive_at_sound(s: Seq<char>, pos: int)
    requires
        archive_at(s, pos) is Some,
    ensures
        holds_at(s, pos, archive_json(archive_at(s, pos).unwrap().0)),
        archive_at(s, pos).unwrap().1 == pos + archive_json(
            archive_at(s, pos).unwrap().0,
        ).len(),
{
    reveal(archive_at);
    let (archive, end) = archive_at(s, pos).unwrap();
    let at_name = after_token(s, pos, "{\"name\":"@).unwrap();
    let at_value = after_token(s, quoted_at(s, at_name).unwrap().1, ",\"files\":"@).unwrap();
    lemma_quoted_at_sound(s, at_name);
    lemma_files_at_sound(s, at_value);
    lemma_holds_at_five(
        s,
        pos,
        "{\"name\":"@,
        quoted(archive.name),
        ",\"files\":"@,
        listed(files_json(archive.files)),
        "}"@,
    );
}

/// Where the JSON of an archive stands, `archive_at` gives that archive.
proof fn lemma_archive_at_complete(s: Seq<char>, pos: int, archive: ArchiveModel)
    requires
        holds_at(s, pos, archive_json(archive)),
    ensures
        archive_at(s, pos) == Some((archive, pos + archive_json(archive).len())),
{
    reveal(archive_at);
    lemma_holds_at_five(
        s,
        pos,
        "{\"name\":"@,
        quoted(archive.name),
        ",\"files\":"@,
        listed(files_json(archive.files)),
        "}"@,
    );
    let at_name = pos + "{\"name\":"@.len();
    lemma_quoted_at_complete(s, at_name, archive.name);
    let at_value = at_name + quoted(archive.name).len() + ",\"files\":"@.len();
    lemma_files_at_complete(s, at_value, archive.files);
}

/// The three tokens that open a node differ in their third character, and
/// each starts with an opening brace.
proof fn lemma_kind_tokens(s: Seq<char>, pos: int)
    ensures
        "{\"File\":"@.len() == 8,
        "{\"Directory\":"@.len() == 13,
        "{\"Archive\":"@.len() == 11,
        holds_at(s, pos, "{\"File\":"@) ==> s[pos] == '{' && s[pos + 2] == 'F',
        holds_at(s, pos, "{\"Directory\":"@) ==> s[pos] == '{' && s[pos + 2] == 'D',
        holds_at(s, pos, "{\"Archive\":"@) ==> s[pos] == '{' && s[pos + 2] == 'A',
{
    reveal(same_at);
    reveal_strlit("{\"File\":");
    reveal_strlit("{\"Directory\":");
    reveal_strlit("{\"Archive\":");
    if holds_at(s, pos, "{\"File\":"@) {
        let part = s.subrange(pos, pos + 8);
        assert(part[0] == s[pos] && part[2] == s[pos + 2]);
    }
    if holds_at(s, pos, "{\"Directory\":"@) {
        let part = s.subrange(pos, pos + 13);
        assert(part[0] == s[pos] && part[2] == s[pos + 2]);
    }
    if holds_at(s, pos, "{\"Archive\":"@) {
        let part = s.subrange(pos, pos + 11);
        assert(part[0] == s[pos] && part[2] == s[pos + 2]);
    }
}

/// The first character of the JSON of a node is an opening brace.
proof fn lemma_node_json_starts(s: Seq<char>, pos: int, node: NodeModel)
    requires
        holds_at(s, pos, node_json(node)),
    ensures
        0 <= pos < s.len(),
        s[pos] == '{',
{
    lemma_kind_tokens(s, pos);
    match node {
        NodeModel::File(file) => {
            lemma_holds_at_three(s, pos, "{\"File\":"@, file_json(file), "}"@);
        },
        NodeModel::Directory(dir) => {
            lemma_holds_at_three(s, pos, "{\"Directory\":"@, directory_json(dir), "}"@);
        },
        NodeModel::Archive(archive) => {
            lemma_holds_at_three(s, pos, "{\"Archive\":"@, archive_json(archive), "}"@);
        },
    }
}

/// The JSON of nodes one after the other: that of the first, then that of the
/// rest.
proof fn lemma_nodes_json_first(nodes: Seq<NodeModel>)
    requires
        nodes.len() > 0,
    ensures
        nodes_json(nodes)[0] == node_json(nodes[0]),
        nodes_json(nodes).drop_first() == nodes_json(nodes.drop_first()),
        nodes_json(nodes).len() == nodes.len(),
{
    assert(nodes_json(nodes).drop_first() =~= nodes_json(nodes.drop_first()));
}

/// What `node_at` reads is the JSON of the node it gives.
proof fn lemma_node_at_sound(s: Seq<char>, pos: int)
    requires
        node_at(s, pos) is Some,
    ensures
        holds_at(s, pos, node_json(node_at(s, pos).unwrap().0)),
        node_at(s, pos).unwrap().1 == pos + node_json(node_at(s, pos).unwrap().0).len(),
    decreases s.len() - pos, 0nat,
{
    let (node, end) = node_at(s, pos).unwrap();
    match node {
        NodeModel::File(file) => {
            let p = after_token(s, pos, "{\"File\":"@).unwrap();
            lemma_file_at_sound(s, p);
            lemma_holds_at_three(s, pos, "{\"File\":"@, file_json(file), "}"@);
        },
        NodeModel::Directory(dir) => {
            let p = after_token(s, pos, "{\"Directory\":"@).unwrap();
            lemma_directory_at_sound(s, p);
            lemma_holds_at_three(s, pos, "{\"Directory\":"@, directory_json(dir), "}"@);
        },
        NodeModel::Archive(archive) => {
            let p = after_token(s, pos, "{\"Archive\":"@).unwrap();
            lemma_archive_at_sound(s, p);
            lemma_holds_at_three(s, pos, "{\"Archive\":"@, archive_json(archive), "}"@);
        },
    }
}

/// What `more_nodes_at` reads is the joined JSON of the nodes it gives and
/// a closing bracket.
proof fn lemma_more_nodes_at_sound(s: Seq<char>, pos: int)
    requires
        more_nodes_at(s, pos) is Some,
    ensures
        more_nodes_at(s, pos).unwrap().0.len() > 0,
        holds_at(s, pos, joined(nodes_json(more_nodes_at(s, pos).unwrap().0)) + "]"@),
        more_nodes_at(s, pos).unwrap().1 == pos + joined(
            nodes_json(more_nodes_at(s, pos).unwrap().0),
        ).len() + 1,
    decreases s.len() - pos, 1nat,
{
    let (nodes, end) = more_nodes_at(s, pos).unwrap();
    let (node, p) = node_at(s, pos).unwrap();
    lemma_node_at_sound(s, pos);
    lemma_comma_and_bracket(s, p);
    lemma_nodes_json_first(nodes);
    match after_token(s, p, ","@) {
        Some(q) => {
            let (rest, _) = more_nodes_at(s, q).unwrap();
            lemma_more_nodes_at_sound(s, q);
            assert(nodes.drop_first() =~= rest);
            assert(nodes[0] == node);
            lemma_joined_first(nodes_json(nodes));
            lemma_holds_at_three(s, pos, node_json(node), ","@, joined(nodes_json(rest)) + "]"@);
            assert(joined(nodes_json(nodes)) + "]"@ =~= node_json(node) + ","@ + (joined(
                nodes_json(rest),
            ) + "]"@));
        },
        None => {
            assert(nodes =~= seq![node]);
            assert(joined(nodes_json(nodes)) == node_json(node));
            lemma_holds_at_concat(s, pos, node_json(node), "]"@);
        },
    }
}

/// What `nodes_at` reads is the JSON array of the nodes it gives.
proof fn lemma_nodes_at_sound(s: Seq<char>, pos: int)
    requires
        nodes_at(s, pos) is Some,
    ensures
        holds_at(s, pos, listed(nodes_json(nodes_at(s, pos).unwrap().0))),
        nodes_at(s, pos).unwrap().1 == pos + listed(
            nodes_json(nodes_at(s, pos).unwrap().0),
        ).len(),
    decreases s.len() - pos, 2nat,
{
    reveal(same_at);
    let (nodes, end) = nodes_at(s, pos).unwrap();
    let p = after_token(s, pos, "["@).unwrap();
    lemma_comma_and_bracket(s, pos);
    lemma_comma_and_bracket(s, p);
    if after_token(s, p, "]"@) is Some {
        assert(joined(nodes_json(nodes)) =~= Seq::<char>::empty());
        lemma_holds_at_three(s, pos, "["@, joined(nodes_json(nodes)), "]"@);
        assert(s.subrange(p, p) =~= Seq::<char>::empty());
    } else {
        lemma_more_nodes_at_sound(s, p);
        lemma_holds_at_concat(s, pos, "["@, joined(nodes_json(nodes)) + "]"@);
        assert(listed(nodes_json(nodes)) =~= "["@ + (joined(nodes_json(nodes)) + "]"@));
    }
}

/// What `directory_at` reads is the JSON of the directory it gives.
proof fn lemma_directory_at_sound(s: Seq<char>, pos: int)
    requires
        directory_at(s, pos) is Some,
    ensures
        holds_at(s, pos, directory_json(directory_at(s, pos).unwrap().0)),
        directory_at(s, pos).unwrap().1 == pos + directory_json(
            directory_at(s, pos).unwrap().0,
        ).len(),
    decreases s.len() - pos, 3nat,
{
    let (dir, end) = directory_at(s, pos).unwrap();
    let at_name = after_token(s, pos, "{\"name\":"@).unwrap();
    let at_value = after_token(s, quoted_at(s, at_name).unwrap().1, ",\"children\":"@).unwrap();
    lemma_quoted_at_sound(s, at_name);
    lemma_nodes_at_sound(s, at_value);
    lemma_holds_at_five(
        s,
        pos,
        "{\"name\":"@,
        quoted(dir.name),
        ",\"children\":"@,
        listed(nodes_json(dir.children)),
        "}"@,
    );
}

/// Where the JSON of a file node stands, `node_at` gives that node.
proof fn lemma_file_node_at_complete(s: Seq<char>, pos: int, file: FileModel)
    requires
        holds_at(s, pos, node_json(NodeModel::File(file))),
    ensures
        node_at(s, pos) == Some(
            (NodeModel::File(file), pos + node_json(NodeModel::File(file)).len()),
        ),
{
    let token = "{\"File\":"@;
    let close = "}"@;
    let inner = file_json(file);
    lemma_holds_at_three(s, pos, token, inner, close);
    let p = pos + token.len();
    assert(after_token(s, pos, token) == Some(p));
    lemma_file_at_complete(s, p, file);
    assert(file_at(s, p) == Some((file, p + inner.len())));
    assert(after_token(s, p + inner.len(), close) == Some(p + inner.len() + close.len()));
}

/// Where the JSON of an archive node stands, `node_at` gives that node.
proof fn lemma_archive_node_at_complete(s: Seq<char>, pos: int, archive: ArchiveModel)
    requires
        holds_at(s, pos, node_json(NodeModel::Archive(archive))),
    ensures
        node_at(s, pos) == Some(
            (NodeModel::Archive(archive), pos + node_json(NodeModel::Archive(archive)).len()),
        ),
{
    let token = "{\"Archive\":"@;
    let close = "}"@;
    let inner = archive_json(archive);
    lemma_kind_tokens(s, pos);
    lemma_holds_at_three(s, pos, token, inner, close);
    let p = pos + token.len();
    assert(after_token(s, pos, "{\"File\":"@) is None);
    assert(after_token(s, pos, "{\"Directory\":"@) is None);
    assert(after_token(s, pos, token) == Some(p));
    lemma_archive_at_complete(s, p, archive);
    assert(archive_at(s, p) == Some((archive, p + inner.len())));
    assert(after_token(s, p + inner.len(), close) == Some(p + inner.len() + close.len()));
}

/// Where the JSON of a node stands, `node_at` gives that node.
proof fn lemma_node_at_complete(s: Seq<char>, pos: int, node: NodeModel)
    requires
        holds_at(s, pos, node_json(node)),
    ensures
        node_at(s, pos) == Some((node, pos + node_json(node).len())),
    decreases node, 0nat,
{
    match node {
        NodeModel::File(file) => {
            lemma_file_node_at_complete(s, pos, file);
        },
        NodeModel::Directory(dir) => {
            let token = "{\"Directory\":"@;
            let close = "}"@;
            let inner = directory_json(dir);
            lemma_kind_tokens(s, pos);
            lemma_holds_at_three(s, pos, token, inner, close);
            let p = pos + token.len();
            assert(after_token(s, pos, "{\"File\":"@) is None);
            assert(after_token(s, pos, token) == Some(p));
            lemma_directory_at_complete(s, p, dir);
            assert(directory_at(s, p) == Some((dir, p + inner.len())));
            assert(after_token(s, p + inner.len(), close) == Some(p + inner.len() + close.len()));
        },
        NodeModel::Archive(archive) => {
            lemma_archive_node_at_complete(s, pos, archive);
        },
    }
}

/// Where the joined JSON of one or more nodes stands before a closing
/// bracket, `more_nodes_at` gives those nodes.
proof fn lemma_more_nodes_at_complete(s: Seq<char>, pos: int, nodes: Seq<NodeModel>)
    requires
        nodes.len() > 0,
        holds_at(s, pos, joined(nodes_json(nodes)) + "]"@),
    ensures
        more_nodes_at(s, pos) == Some((nodes, pos + joined(nodes_json(nodes)).len() + 1)),
    decreases nodes, 0nat,
{
    let node = nodes[0];
    let rest = nodes.drop_first();
    lemma_nodes_json_first(nodes);
    if nodes.len() == 1 {
        assert(joined(nodes_json(nodes)) == node_json(node));
        lemma_holds_at_concat(s, pos, node_json(node), "]"@);
        lemma_node_at_complete(s, pos, node);
        lemma_comma_and_bracket(s, pos + node_json(node).len());
        assert(nodes =~= seq![node]);
    } else {
        lemma_joined_first(nodes_json(nodes));
        assert(joined(nodes_json(nodes)) + "]"@ =~= node_json(node) + ","@ + (joined(
            nodes_json(rest),
        ) + "]"@));
        lemma_holds_at_three(s, pos, node_json(node), ","@, joined(nodes_json(rest)) + "]"@);
        lemma_node_at_complete(s, pos, node);
        lemma_comma_and_bracket(s, pos + node_json(node).len());
        lemma_more_nodes_at_complete(s, pos + node_json(node).len() + 1, rest);
        assert(seq![node] + rest =~= nodes);
    }
}

/// Where the JSON array of some nodes stands, `nodes_at` gives those nodes.
proof fn lemma_nodes_at_complete(s: Seq<char>, pos: int, nodes: Seq<NodeModel>)
    requires
        holds_at(s, pos, listed(nodes_json(nodes))),
    ensures
        nodes_at(s, pos) == Some((nodes, pos + listed(nodes_json(nodes)).len())),
    decreases nodes, 1nat,
{
    lemma_comma_and_bracket(s, pos);
    lemma_comma_and_bracket(s, pos + 1);
    lemma_holds_at_three(s, pos, "["@, joined(nodes_json(nodes)), "]"@);
    if nodes.len() == 0 {
        assert(joined(nodes_json(nodes)) =~= Seq::<char>::empty());
        assert(nodes =~= Seq::<NodeModel>::empty());
    } else {
        lemma_nodes_json_first(nodes);
        if nodes.len() >= 2 {
            lemma_joined_first(nodes_json(nodes));
            lemma_holds_at_three(
                s,
                pos + 1,
                node_json(nodes[0]),
                ","@,
                joined(nodes_json(nodes.drop_first())),
            );
        }
        lemma_node_json_starts(s, pos + 1, nodes[0]);
        assert(listed(nodes_json(nodes)) =~= "["@ + (joined(nodes_json(nodes)) + "]"@));
        lemma_holds_at_concat(s, pos, "["@, joined(nodes_json(nodes)) + "]"@);
        lemma_more_nodes_at_complete(s, pos + 1, nodes);
    }
}

/// Where the JSON of a directory stands, `directory_at` gives that
/// directory.
proof fn lemma_directory_at_complete(s: Seq<char>, pos: int, dir: DirectoryModel)
    requires
        holds_at(s, pos, directory_json(dir)),
    ensures
        directory_at(s, pos) == Some((dir, pos + directory_json(dir).len())),
    decreases dir, 0nat,
{
    let t1 = "{\"name\":"@;
    let t2 = ",\"children\":"@;
    let t3 = "}"@;
    let name = quoted(dir.name);
    let list = listed(nodes_json(dir.children));
    assert(directory_json(dir) == t1 + name + t2 + list + t3);
    lemma_holds_at_five(s, pos, t1, name, t2, list, t3);
    let at_name = pos + t1.len();
    let past_name = at_name + name.len();
    let at_value = past_name + t2.len();
    let past_value = at_value + list.len();
    let end = past_value + t3.len();
    assert(after_token(s, pos, t1) == Some(at_name));
    lemma_quoted_at_complete(s, at_name, dir.name);
    assert(quoted_at(s, at_name) == Some((dir.name, past_name)));
    assert(after_token(s, past_name, t2) == Some(at_value));
    lemma_nodes_at_complete(s, at_value, dir.children);
    assert(nodes_at(s, at_value) == Some((dir.children, past_value)));
    assert(after_token(s, past_value, t3) == Some(end));
    assert(at_value >= pos);
    assert(directory_at(s, pos) == Some(
        (DirectoryModel { name: dir.name, children: dir.children }, end),
    ));
}

/// A manifest that is read back gives the tree it was written from.
pub proof fn lemma_manifest_round_trip(tree: DirectoryModel)
    ensures
        tree_of_manifest(directory_json(tree)) == Some(tree),
{
    reveal(same_at);
    let text = directory_json(tree);
    assert(text.subrange(0, text.len() as int) =~= text);
    lemma_directory_at_complete(text, 0, tree);
}

/// A text is read as a tree only if it is that tree's manifest.
pub proof fn lemma_manifest_read_sound(text: Seq<char>)
    requires
        tree_of_manifest(text) is Some,
    ensures
        text == directory_json(tree_of_manifest(text).unwrap()),
{
    reveal(same_at);
    lemma_directory_at_sound(text, 0);
    assert(text.subrange(0, text.len() as int) =~= text);
}

/// Two trees with the same manifest are the same tree: variant by variant,
/// name by name, digest by digest, child by child in order.
pub proof fn lemma_manifest_injective(a: DirectoryModel, b: DirectoryModel)
    requires
        directory_json(a) == directory_json(b),
    ensures
        a == b,
{
    lemma_manifest_round_trip(a);
    lemma_manifest_round_trip(b);
}

fn parse_file(chars: &[char], pos: usize) -> (out: Option<(File, usize)>)
    ensures
        match out {
            Some((file, end)) => file_at(chars@, pos as int) == Some((file@, end as int)) && pos
                < end <= chars@.len(),
            None => file_at(chars@, pos as int) is None,
        },
{
    proof {
        reveal(file_at);
    }
    let at_name = match expect(chars, pos, "{\"name\":") {
        Some(p) => p,
        None => {
            return None;
        },
    };
    let (name, past_name) = match parse_quoted(chars, at_name) {
        Some(read) => read,
        None => {
            return None;
        },
    };
    let at_value = match expect(chars, past_name, ",\"digest\":") {
        Some(p) => p,
        None => {
            return None;
        },
    };
    let (digest, past_value) = match parse_quoted(chars, at_value) {
        Some(read) => read,
        None => {
            return None;
        },
    };
    let end = match expect(chars, past_value, "}") {
        Some(p) => p,
        None => {
            return None;
        },
    };
    Some((File { name, digest }, end))
}

/// The items read so far, followed by what is read from here on.
spec fn continued_row<T>(done: Seq<T>, rest: Option<(Seq<T>, int)>) -> Option<
    (Seq<T>, int),
> {
    match rest {
        Some((items, end)) => Some((done + items, end)),
        None => None,
    }
}

fn parse_files(chars: &[char], pos: usize) -> (out: Option<(Vec<File>, usize)>)
    ensures
        match out {
            Some((files, end)) => files_at(chars@, pos as int) == Some(
                (file_models(files@), end as int),
            ) && pos < end <= chars@.len(),
            None => files_at(chars@, pos as int) is None,
        },
{
    proof {
        reveal(files_at);
    }
    let start = match expect(chars, pos, "[") {
        Some(p) => p,
        None => {
            return None;
        },
    };
    proof {
        lemma_comma_and_bracket(chars@, pos as int);
    }
    let mut files: Vec<File> = Vec::new();
    match expect(chars, start, "]") {
        Some(end) => {
            assert(file_models(files@) =~= Seq::<FileModel>::empty());
            return Some((files, end));
        },
        None => {},
    }
    let mut at: usize = start;
    proof {
        match more_files_at(chars@, at as int) {
            Some((items, end)) => {
                assert(file_models(files@) + items =~= items);
            },
            None => {},
        }
    }
    loop
        invariant
            pos < start <= at <= chars@.len(),
            files_at(chars@, pos as int) == continued_row(
                file_models(files@),
                more_files_at(chars@, at as int),
            ),
        decreases chars@.len() - at,
    {
        let (file, after) = match parse_file(chars, at) {
            Some(read) => read,
            None => {
                return None;
            },
        };
        let ghost done = file_models(files@);
        files.push(file);
        assert(file_models(files@) =~= done.push(file@));
        proof {
            lemma_comma_and_bracket(chars@, after as int);
        }
        match expect(chars, after, ",") {
            Some(next) => {
                proof {
                    match more_files_at(chars@, next as int) {
                        Some((items, end)) => {
                            assert(done + (seq![file@] + items) =~= done.push(file@) + items);
                        },
                        None => {},
                    }
                }
                at = next;
            },
            None => {
                match expect(chars, after, "]") {
                    Some(end) => {
                        assert(done + seq![file@] =~= done.push(file@));
                        return Some((files, end));
                    },
                    None => {
                        return None;
                    },
                }
            },
        }
    }
}

fn parse_archive(chars: &[char], pos: usize) -> (out: Option<(Archive, usize)>)
    ensures
        match out {
            Some((archive, end)) => archive_at(chars@, pos as int) == Some(
                (archive@, end as int),
            ) && pos < end <= chars@.len(),
            None => archive_at(chars@, pos as int) is None,
        },
{
    proof {
        reveal(archive_at);
    }
    let at_name = match expect(chars, pos, "{\"name\":") {
        Some(p) => p,
        None => {
            return None;
        },
    };
    let (name, past_name) = match parse_quoted(chars, at_name) {
        Some(read) => read,
        None => {
            return None;
        },
    };
    let at_value = match expect(chars, past_name, ",\"files\":") {
        Some(p) => p,
        None => {
            return None;
        },
    };
    let (files, past_value) = match parse_files(chars, at_value) {
        Some(read) => read,
        None => {
            return None;
        },
    };
    let end = match expect(chars, past_value, "}") {
        Some(p) => p,
        None => {
            return None;
        },
    };
    Some((Archive { name, files }, end))
}

fn parse_node(chars: &[char], pos: usize) -> (out: Option<(FSObject, usize)>)
    ensures
        match out {
            Some((node, end)) => node_at(chars@, pos as int) == Some((node@, end as int)) && pos
                < end <= chars@.len(),
            None => node_at(chars@, pos as int) is None,
        },
    decreases chars@.len() - pos, 0nat,
{
    proof {
        lemma_kind_tokens(chars@, pos as int);
    }
    match expect(chars, pos, "{\"File\":") {
        Some(p) => {
            let (file, q) = match parse_file(chars, p) {
                Some(read) => read,
                None => {
                    return None;
                },
            };
            match expect(chars, q, "}") {
                Some(end) => Some((FSObject::File(file), end)),
                None => None,
            }
        },
        None => match expect(chars, pos, "{\"Directory\":") {
            Some(p) => {
                let (dir, q) = match parse_directory(chars, p) {
                    Some(read) => read,
                    None => {
                        return None;
                    },
                };
                match expect(chars, q, "}") {
                    Some(end) => Some((FSObject::Directory(dir), end)),
                    None => None,
                }
            },
            None => match expect(chars, pos, "{\"Archive\":") {
                Some(p) => {
                    let (archive, q) = match parse_archive(chars, p) {
                        Some(read) => read,
                        None => {
                            return None;
                        },
                    };
                    match expect(chars, q, "}") {
                        Some(end) => Some((FSObject::Archive(archive), end)),
                        None => None,
                    }
                },
                None => None,
            },
        },
    }
}

fn parse_nodes(chars: &[char], pos: usize) -> (out: Option<(Vec<FSObject>, usize)>)
    ensures
        match out {
            Some((nodes, end)) => nodes_at(chars@, pos as int) == Some(
                (node_models(nodes), end as int),
            ) && pos < end <= chars@.len(),
            None => nodes_at(chars@, pos as int) is None,
        },
    decreases chars@.len() - pos, 2nat,
{
    let start = match expect(chars, pos, "[") {
        Some(p) => p,
        None => {
            return None;
        },
    };
    proof {
        lemma_comma_and_bracket(chars@, pos as int);
    }
    let mut nodes: Vec<FSObject> = Vec::new();
    proof {
        lemma_node_models_empty(nodes);
    }
    match expect(chars, start, "]") {
        Some(end) => {
            return Some((nodes, end));
        },
        None => {},
    }
    let mut at: usize = start;
    proof {
        match more_nodes_at(chars@, at as int) {
            Some((items, end)) => {
                assert(node_models(nodes) + items =~= items);
            },
            None => {},
        }
    }
    loop
        invariant
            pos < start <= at <= chars@.len(),
            nodes_at(chars@, pos as int) == continued_row(
                node_models(nodes),
                more_nodes_at(chars@, at as int),
            ),
        decreases chars@.len() - at,
    {
        let (node, after) = match parse_node(chars, at) {
            Some(read) => read,
            None => {
                return None;
            },
        };
        let ghost before = nodes;
        let ghost done = node_models(nodes);
        nodes.push(node);
        proof {
            lemma_node_models_push(before, nodes, node);
            lemma_comma_and_bracket(chars@, after as int);
        }
        match expect(chars, after, ",") {
            Some(next) => {
                proof {
                    match more_nodes_at(chars@, next as int) {
                        Some((items, end)) => {
                            assert(done + (seq![node@] + items) =~= done.push(node@) + items);
                        },
                        None => {},
                    }
                }
                at = next;
            },
            None => {
                match expect(chars, after, "]") {
                    Some(end) => {
                        assert(done + seq![node@] =~= done.push(node@));
                        return Some((nodes, end));
                    },
                    None => {
                        return None;
                    },
                }
            },
        }
    }
}

fn parse_directory(chars: &[char], pos: usize) -> (out: Option<(Directory, usize)>)
    ensures
        match out {
            Some((dir, end)) => directory_at(chars@, pos as int) == Some((dir@, end as int))
                && pos < end <= chars@.len(),
            None => directory_at(chars@, pos as int) is None,
        },
    decreases chars@.len() - pos, 3nat,
{
    let at_name = match expect(chars, pos, "{\"name\":") {
        Some(p) => p,
        None => {
            return None;
        },
    };
    let (name, past_name) = match parse_quoted(chars, at_name) {
        Some(read) => read,
        None => {
            return None;
        },
    };
    let at_value = match expect(chars, past_name, ",\"children\":") {
        Some(p) => p,
        None => {
            return None;
        },
    };
    let (children, past_value) = match parse_nodes(chars, at_value) {
        Some(read) => read,
        None => {
            return None;
        },
    };
    let end = match expect(chars, past_value, "}") {
        Some(p) => p,
        None => {
            return None;
        },
    };
    Some((Directory { name, children }, end))
}

impl Directory {
    /// Reads a tree back from the text of its manifest. A text that is no
    /// tree's manifest is refused.
    pub fn from_json(text: &str) -> (tree: Option<Directory>)
        ensures
            match tree {
                Some(dir) => text@ == directory_json(dir@) && tree_of_manifest(text@) == Some(dir@),
                None => tree_of_manifest(text@) is None && forall|any: DirectoryModel|
                    text@ != directory_json(any),
            },
    {
        let chars = chars_of(text);
        let read = parse_directory(chars.as_slice(), 0);
        proof {
            if tree_of_manifest(text@) is Some {
                lemma_manifest_read_sound(text@);
            } else {
                assert forall|any: DirectoryModel| text@ != directory_json(any) by {
                    if text@ == directory_json(any) {
                        lemma_manifest_round_trip(any);
                    }
                }
            }
        }
        match read {
            Some((dir, end)) => {
                if end == chars.len() {
                    Some(dir)
                } else {
                    None
                }
            },
            None => None,
        }
    }
}

} // verus!
