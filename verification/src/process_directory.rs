//! One level of the walk: what is done with each entry of a directory, and how
//! the results of its entries become the directory's node.

use vstd::prelude::*;
use crate::error::PatchConfigError;
use crate::fsobject::{
    lemma_node_models_empty, lemma_node_models_push, node_models, Directory, DirectoryModel,
    FSObject, FileModel, NodeModel,
};
use crate::layout::Layout;
use crate::naming::{
    extension, extension_of, file_stem, first_segment, leading_segment, stem_of, text_view,
};
use crate::process_file::{file_action, process_new_file, FileAction, FileActionModel};

verus! {

/// What the file system says an entry is.
#[derive(Debug, Clone, Copy, PartialEq, Eq, Structural)]
pub enum EntryKind {
    Directory,
    File,
    /// Neither a directory nor a regular file.
    Other,
}

/// What is done with an entry of a source directory.
#[derive(Debug, PartialEq, Eq)]
pub enum EntryAction {
    /// A directory that holds an unpacked archive: it is mirrored under its own
    /// name and listed as the archive `archive_name`.
    Reconcile { archive_name: String },
    /// Any other directory is mirrored and listed under its own name.
    Descend,
    /// A regular file, with what is done with it.
    File(FileAction),
    /// An entry of any other kind is left out.
    Ignore,
}

/// What an `EntryAction` stands for.
pub enum EntryActionModel {
    Reconcile { archive_name: Seq<char> },
    Descend,
    File(FileActionModel),
    Ignore,
}

impl View for EntryAction {
    type V = EntryActionModel;

    open spec fn view(&self) -> EntryActionModel {
        match self {
            EntryAction::Reconcile { archive_name } => EntryActionModel::Reconcile {
                archive_name: archive_name@,
            },
            EntryAction::Descend => EntryActionModel::Descend,
            EntryAction::File(action) => EntryActionModel::File(action@),
            EntryAction::Ignore => EntryActionModel::Ignore,
        }
    }
}

/// The stem of a directory's name, where the name marks an unpacked archive.
pub open spec fn unpacked_archive_stem(layout: Layout, name: Seq<char>, is_dir: bool) -> Option<
    Seq<char>,
> {
    if is_dir && extension_of(name) == Some(layout.unpacked_extension@) {
        Some(stem_of(name))
    } else {
        None
    }
}

/// The action for an entry called `name` of the given kind.
pub open spec fn entry_action(
    layout: Layout,
    name: Seq<char>,
    kind: EntryKind,
) -> EntryActionModel {
    match kind {
        EntryKind::Directory => if unpacked_archive_stem(layout, name, true) is Some {
            EntryActionModel::Reconcile { archive_name: leading_segment(name) }
        } else {
            EntryActionModel::Descend
        },
        EntryKind::File => EntryActionModel::File(file_action(layout, name)),
        EntryKind::Other => EntryActionModel::Ignore,
    }
}

/// If the entry is a directory that holds an unpacked archive, its name
/// without the extension.
pub fn archive_directory_stem(layout: &Layout, name: &str, is_dir: bool) -> (stem: Option<String>)
    ensures
        text_view(stem) == unpacked_archive_stem(*layout, name@, is_dir),
{
    if is_dir {
        match extension(name) {
            Some(ext) => {
                if ext == layout.unpacked_extension {
                    return Some(file_stem(name));
                }
            },
            None => {},
        }
    }
    None
}

/// Decides what is done with the entry called `object_name`.
pub fn process_dir_entry(layout: &Layout, object_name: &str, kind: EntryKind) -> (action:
    EntryAction)
    ensures
        action@ == entry_action(*layout, object_name@, kind),
{
    match kind {
        EntryKind::Directory => {
            match archive_directory_stem(layout, object_name, true) {
                Some(_) => EntryAction::Reconcile { archive_name: first_segment(object_name) },
                None => EntryAction::Descend,
            }
        },
        EntryKind::File => EntryAction::File(process_new_file(layout, object_name)),
        EntryKind::Other => EntryAction::Ignore,
    }
}

/// The position of the first result that failed, if one did.
pub open spec fn first_failure<T>(results: Seq<Result<T, PatchConfigError>>) -> Option<int>
    decreases results.len(),
{
    if results.len() == 0 {
        None
    } else {
        match first_failure(results.drop_last()) {
            Some(i) => Some(i),
            None => if results.last() is Err {
                Some(results.len() - 1)
            } else {
                None
            },
        }
    }
}

/// The nodes that the results hold, in the order of the results. An entry
/// without a node leaves no gap.
pub open spec fn present_nodes(
    results: Seq<Result<Option<FSObject>, PatchConfigError>>,
) -> Seq<NodeModel>
    decreases results.len(),
{
    if results.len() == 0 {
        Seq::empty()
    } else {
        let before = present_nodes(results.drop_last());
        match results.last() {
            Ok(Some(node)) => before.push(node@),
            _ => before,
        }
    }
}

/// Gathers the results of a directory's entries into its node. The first
/// failure, in the order of the entries, is the failure of the whole.
pub fn process_dir(
    object_name: &str,
    results: Vec<Result<Option<FSObject>, PatchConfigError>>,
) -> (out: Result<Directory, PatchConfigError>)
    ensures
        match first_failure(results@) {
            Some(i) => out == Err::<Directory, PatchConfigError>(results@[i]->Err_0),
            None => out matches Ok(dir) && dir@ == (DirectoryModel {
                name: object_name@,
                children: present_nodes(results@),
            }),
        },
{
    let ghost all = results@;
    let mut children: Vec<FSObject> = Vec::new();
    proof {
        lemma_node_models_empty(children);
    }
    for result in it: results.into_iter()
        invariant
            it.seq() == all,
            first_failure(all.take(it.index() as int)) is None,
            node_models(children) == present_nodes(all.take(it.index() as int)),
    {
        let ghost at = it.index() as int;
        assert(all.take(at + 1).drop_last() == all.take(at));
        match result {
            Ok(Some(child)) => {
                let ghost before = children;
                children.push(child);
                proof {
                    lemma_node_models_push(before, children, child);
                }
            },
            Ok(None) => {},
            Err(why) => {
                proof {
                    lemma_first_failure_stays(all, at);
                }
                return Err(why);
            },
        }
    }
    assert(all.take(all.len() as int) == all);
    Ok(Directory { name: object_name.to_owned(), children })
}

/// A failure that is the first among the results up to it is the first among
/// all of them.
pub(crate) proof fn lemma_first_failure_stays<T>(results: Seq<Result<T, PatchConfigError>>, at: int)
    requires
        0 <= at < results.len(),
        first_failure(results.take(at + 1)) == Some(at),
    ensures
        first_failure(results) == Some(at),
    decreases results.len(),
{
    if results.len() > at + 1 {
        assert(results.drop_last().take(at + 1) == results.take(at + 1));
        lemma_first_failure_stays(results.drop_last(), at);
    } else {
        assert(results.take(at + 1) == results);
    }
}

/// True if two results of one entry say the same: both failed with the same
/// error, both hold no node, or both hold a node that stands for the same.
pub open spec fn same_result(
    a: Result<Option<FSObject>, PatchConfigError>,
    b: Result<Option<FSObject>, PatchConfigError>,
) -> bool {
    match (a, b) {
        (Ok(Some(x)), Ok(Some(y))) => x@ == y@,
        (Ok(None), Ok(None)) => true,
        (Err(x), Err(y)) => x == y,
        _ => false,
    }
}

/// Two runs over one directory whose entries came in the same order and gave
/// the same results gather the same: the same failure comes first, or the
/// same nodes stand in the same order.
pub proof fn lemma_gathering_is_deterministic(
    first: Seq<Result<Option<FSObject>, PatchConfigError>>,
    second: Seq<Result<Option<FSObject>, PatchConfigError>>,
)
    requires
        first.len() == second.len(),
        forall|i: int| 0 <= i < first.len() ==> same_result(first[i], second[i]),
    ensures
        first_failure(first) == first_failure(second),
        first_failure(first) matches Some(i) ==> first[i]->Err_0 == second[i]->Err_0,
        present_nodes(first) == present_nodes(second),
    decreases first.len(),
{
    if first.len() > 0 {
        lemma_gathering_is_deterministic(first.drop_last(), second.drop_last());
        assert(same_result(first.last(), second.last()));
        lemma_first_failure_is_first(first);
    }
}

/// The first failure is the failed result before which none failed; there is
/// none exactly if no result failed.
pub proof fn lemma_first_failure_is_first<T>(results: Seq<Result<T, PatchConfigError>>)
    ensures
        match first_failure(results) {
            Some(i) => 0 <= i < results.len() && results[i] is Err && forall|j: int|
                0 <= j < i ==> results[j] is Ok,
            None => forall|j: int| 0 <= j < results.len() ==> results[j] is Ok,
        },
    decreases results.len(),
{
    if results.len() > 0 {
        let front = results.drop_last();
        lemma_first_failure_is_first(front);
        match first_failure(front) {
            Some(i) => {
                assert forall|j: int| 0 <= j < i implies results[j] is Ok by {
                    assert(front[j] is Ok);
                }
                assert(front[i] is Err);
            },
            None => {
                assert forall|j: int| 0 <= j < results.len() - 1 implies results[j] is Ok by {
                    assert(front[j] is Ok);
                }
            },
        }
    }
}

/// True if no file with the payload extension stands as a node of its own in
/// or below `node`. The members of an archive are no nodes of their own.
pub open spec fn lists_no_payload(layout: Layout, node: NodeModel) -> bool
    decreases node,
{
    match node {
        NodeModel::File(file) => extension_of(file.name) != Some(layout.payload_extension@),
        NodeModel::Directory(dir) => forall|i: int|
            0 <= i < dir.children.len() ==> lists_no_payload(layout, #[trigger] dir.children[i]),
        NodeModel::Archive(_) => true,
    }
}

/// A file that is copied, listed under its own name, is no payload file.
pub proof fn lemma_copied_file_lists_no_payload(layout: Layout, name: Seq<char>, digest: Seq<char>)
    requires
        entry_action(layout, name, EntryKind::File) == EntryActionModel::File(
            FileActionModel::Copy,
        ),
    ensures
        lists_no_payload(layout, NodeModel::File(FileModel { name, digest })),
{
}

/// True if the result holds a node that stands for `model`.
pub open spec fn holds_node(
    result: Result<Option<FSObject>, PatchConfigError>,
    model: NodeModel,
) -> bool {
    result matches Ok(Some(node)) && node@ == model
}

/// True if one of the results holds a node that stands for `model`.
pub open spec fn is_given(
    results: Seq<Result<Option<FSObject>, PatchConfigError>>,
    model: NodeModel,
) -> bool {
    exists|i: int| 0 <= i < results.len() && holds_node(#[trigger] results[i], model)
}

/// Every gathered node is the node of one of the results.
pub proof fn lemma_present_nodes_are_given(
    results: Seq<Result<Option<FSObject>, PatchConfigError>>,
)
    ensures
        forall|k: int|
            0 <= k < present_nodes(results).len() ==> is_given(
                results,
                #[trigger] present_nodes(results)[k],
            ),
    decreases results.len(),
{
    if results.len() > 0 {
        let front = results.drop_last();
        let last = results.len() - 1;
        lemma_present_nodes_are_given(front);
        assert forall|k: int| 0 <= k < present_nodes(results).len() implies is_given(
            results,
            #[trigger] present_nodes(results)[k],
        ) by {
            let model = present_nodes(results)[k];
            if k < present_nodes(front).len() {
                assert(model == present_nodes(front)[k]);
                assert(is_given(front, model));
                let i = choose|i: int| 0 <= i < front.len() && holds_node(#[trigger] front[i], model);
                assert(holds_node(results[i], model));
            } else {
                assert(holds_node(results[last], model));
            }
        }
    }
}

/// Gathering adds no node: where no result holds a payload file as a node of
/// its own, neither does the directory that is gathered from them. With the
/// law before, a tree whose file nodes all come from copied files holds no
/// payload file at any depth, whether or not a header stands beside it.
pub proof fn lemma_gathered_lists_no_payload(
    layout: Layout,
    name: Seq<char>,
    results: Seq<Result<Option<FSObject>, PatchConfigError>>,
)
    requires
        forall|i: int, model: NodeModel|
            0 <= i < results.len() && holds_node(#[trigger] results[i], model)
                ==> #[trigger] lists_no_payload(layout, model),
    ensures
        lists_no_payload(
            layout,
            NodeModel::Directory(DirectoryModel { name, children: present_nodes(results) }),
        ),
{
    lemma_present_nodes_are_given(results);
    let children = present_nodes(results);
    assert forall|k: int| 0 <= k < children.len() implies lists_no_payload(
        layout,
        #[trigger] children[k],
    ) by {
        assert(is_given(results, children[k]));
        let i = choose|i: int|
            0 <= i < results.len() && holds_node(#[trigger] results[i], children[k]);
        assert(lists_no_payload(layout, children[k]));
    }
}

} // verus!
