//! A directory listing drawn as indented lines of text.

use vstd::prelude::*;

verus! {

/// Why no drawing could be made.
#[derive(Debug, PartialEq, Eq)]
pub enum TreeError {
    NotDirectory(String),
    ReadDirFailed,
}

/// One entry of a listing, as it was read.
#[derive(Debug, PartialEq, Eq)]
pub enum TreeEntry {
    /// A file and its name.
    File(String),
    /// A directory, its name and its own entries in listing order.
    Directory(String, Vec<TreeEntry>),
    /// An entry, or the listing of a directory, that could not be read.
    Unreadable,
}

/// What stands at the path that is to be drawn.
#[derive(Debug, PartialEq, Eq)]
pub enum TreeRoot {
    /// Not a directory; the path as text, where it is valid text.
    NotDirectory(Option<String>),
    /// A directory with its entries in listing order.
    Directory(Vec<TreeEntry>),
}

/// What is added to the prefix for each level below the root.
pub open spec fn indent() -> Seq<char> {
    "  |\t"@
}

/// True if nothing in or below the entry failed to be read.
pub open spec fn entry_readable(entry: TreeEntry) -> bool
    decreases entry,
{
    match entry {
        TreeEntry::File(_) => true,
        TreeEntry::Directory(_, entries) => forall|i: int|
            0 <= i < entries.len() ==> entry_readable(#[trigger] entries[i]),
        TreeEntry::Unreadable => false,
    }
}

/// True if every entry of the listing is readable.
pub open spec fn listing_readable(entries: Seq<TreeEntry>) -> bool {
    forall|i: int| 0 <= i < entries.len() ==> entry_readable(#[trigger] entries[i])
}

/// The lines for one readable entry: its own line, then those of what it holds,
/// one level deeper.
pub open spec fn entry_lines(entry: TreeEntry, prefix: Seq<char>) -> Seq<Seq<char>>
    decreases entry, 0nat,
{
    match entry {
        TreeEntry::File(name) => seq![prefix + "📝 "@ + name@],
        TreeEntry::Directory(name, entries) => seq![prefix + "📁 "@ + name@] + lines_below(
            entries,
            prefix + indent(),
        ).flatten(),
        TreeEntry::Unreadable => seq![],
    }
}

/// The lines of each entry of a directory, entry by entry.
pub open spec fn lines_below(entries: Vec<TreeEntry>, prefix: Seq<char>) -> Seq<Seq<Seq<char>>>
    decreases entries, 1nat,
{
    Seq::new(
        entries.len() as nat,
        |i: int|
            if 0 <= i < entries.len() {
                entry_lines(entries[i], prefix)
            } else {
                arbitrary()
            },
    )
}

/// The lines for a listing: those of each entry, in order.
pub open spec fn listing_lines(entries: Seq<TreeEntry>, prefix: Seq<char>) -> Seq<Seq<char>> {
    Seq::new(entries.len(), |i: int| entry_lines(entries[i], prefix)).flatten()
}

/// The texts of a vector of strings.
pub open spec fn texts(lines: Seq<String>) -> Seq<Seq<char>> {
    Seq::new(lines.len(), |i: int| lines[i]@)
}

proof fn lemma_listing_lines_step(entries: Seq<TreeEntry>, prefix: Seq<char>, i: int)
    requires
        0 <= i < entries.len(),
    ensures
        listing_lines(entries.take(i + 1), prefix) == listing_lines(entries.take(i), prefix)
            + entry_lines(entries[i], prefix),
{
    let before = Seq::new(i as nat, |k: int| entry_lines(entries.take(i)[k], prefix));
    let after = Seq::new((i + 1) as nat, |k: int| entry_lines(entries.take(i + 1)[k], prefix));
    assert(after =~= before.push(entry_lines(entries[i], prefix)));
    before.lemma_flatten_push(entry_lines(entries[i], prefix));
}

proof fn lemma_directory_lines(name: String, entries: Vec<TreeEntry>, prefix: Seq<char>)
    ensures
        entry_lines(TreeEntry::Directory(name, entries), prefix) == seq![prefix + "📁 "@ + name@]
            + listing_lines(entries@, prefix + indent()),
{
    let deeper = prefix + indent();
    assert(lines_below(entries, deeper) =~= Seq::new(
        entries@.len(),
        |i: int| entry_lines(entries@[i], deeper),
    ));
}

/// Appends to `result` the lines for `entries`, each behind `prefix`.
fn get_dir_tree(entries: &Vec<TreeEntry>, result: &mut Vec<String>, prefix: &str) -> (done: Result<
    (),
    TreeError,
>)
    ensures
        listing_readable(entries@) ==> done is Ok && texts(final(result)@) == texts(old(result)@)
            + listing_lines(entries@, prefix@),
        !listing_readable(entries@) ==> done == Err::<(), TreeError>(TreeError::ReadDirFailed)
            && texts(old(result)@).is_prefix_of(texts(final(result)@)),
    decreases entries,
{
    let mut i: usize = 0;
    while i < entries.len()
        invariant
            i <= entries.len(),
            listing_readable(entries@.take(i as int)),
            texts(result@) == texts(old(result)@) + listing_lines(
                entries@.take(i as int),
                prefix@,
            ),
        decreases entries.len() - i,
    {
        proof {
            lemma_listing_lines_step(entries@, prefix@, i as int);
        }
        let ghost before = texts(result@);
        match &entries[i] {
            TreeEntry::File(name) => {
                let mut line = String::new();
                line.append(prefix);
                line.append("📝 ");
                line.append(name.as_str());
                result.push(line);
                assert(texts(result@) =~= before + entry_lines(entries@[i as int], prefix@));
            },
            TreeEntry::Directory(name, below) => {
                let mut line = String::new();
                line.append(prefix);
                line.append("📁 ");
                line.append(name.as_str());
                result.push(line);
                assert(texts(result@) =~= before + seq![prefix@ + "📁 "@ + name@]);
                let mut deeper = String::new();
                deeper.append(prefix);
                deeper.append("  |\t");
                proof {
                    lemma_directory_lines(*name, *below, prefix@);
                }
                match get_dir_tree(below, result, deeper.as_str()) {
                    Ok(()) => {},
                    Err(why) => {
                        assert(!entry_readable(entries@[i as int]));
                        return Err(why);
                    },
                }
                assert(listing_readable(below@));
                assert(texts(result@) =~= before + entry_lines(entries@[i as int], prefix@));
            },
            TreeEntry::Unreadable => {
                assert(!entry_readable(entries@[i as int]));
                return Err(TreeError::ReadDirFailed);
            },
        }
        assert(listing_readable(entries@.take(i + 1))) by {
            assert forall|k: int| 0 <= k < i + 1 implies entry_readable(
                #[trigger] entries@.take(i + 1)[k],
            ) by {
                if k < i {
                    assert(entries@.take(i + 1)[k] == entries@.take(i as int)[k]);
                }
            }
        }
        i += 1;
    }
    assert(entries@.take(i as int) == entries@);
    Ok(())
}

/// What a refusal says of a path that is no directory.
pub open spec fn not_directory_message(path: Option<String>) -> Seq<char> {
    match path {
        Some(p) => p@ + " is not a directory."@,
        None => "Input path is not a directory"@,
    }
}

/// Draws the listing below a directory: one line per entry, a directory's
/// entries right below its own line and one level deeper.
pub fn make_tree(root: &TreeRoot) -> (drawn: Result<Vec<String>, TreeError>)
    ensures
        match *root {
            TreeRoot::NotDirectory(path) => drawn matches Err(TreeError::NotDirectory(message))
                && message@ == not_directory_message(path),
            TreeRoot::Directory(entries) => if listing_readable(entries@) {
                drawn matches Ok(lines) && texts(lines@) == listing_lines(entries@, Seq::empty())
            } else {
                drawn == Err::<Vec<String>, TreeError>(TreeError::ReadDirFailed)
            },
        },
{
    match root {
        TreeRoot::NotDirectory(path) => {
            let message = match path {
                Some(p) => {
                    let mut m = String::new();
                    m.append(p.as_str());
                    m.append(" is not a directory.");
                    m
                },
                None => "Input path is not a directory".to_owned(),
            };
            Err(TreeError::NotDirectory(message))
        },
        TreeRoot::Directory(entries) => {
            let mut result: Vec<String> = Vec::new();
            let empty = String::new();
            match get_dir_tree(entries, &mut result, empty.as_str()) {
                Ok(()) => {
                    assert(texts(result@) =~= listing_lines(entries@, Seq::empty()));
                    Ok(result)
                },
                Err(why) => Err(why),
            }
        },
    }
}

} // verus!
