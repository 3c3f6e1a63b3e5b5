//! How an entry's name is taken apart: extension, stem and leading segment.
//!
//! A name here is the last component of a path, as a directory listing gives it.

use vstd::prelude::*;
use crate::text::{chars_of, text_of};

verus! {

/// The part of `name` after its last dot. A name without a dot has none, nor
/// has one whose only dot is its first character, nor the name `..`.
pub open spec fn extension_of(name: Seq<char>) -> Option<Seq<char>> {
    match name.index_of_last('.') {
        Some(dot) => if dot == 0 || name == seq!['.', '.'] {
            None
        } else {
            Some(name.subrange(dot + 1, name.len() as int))
        },
        None => None,
    }
}

/// The name without its extension and the dot before it.
pub open spec fn stem_of(name: Seq<char>) -> Seq<char> {
    if extension_of(name) is Some {
        name.subrange(0, name.index_of_last('.').unwrap())
    } else {
        name
    }
}

/// The part of `name` before its first dot; the whole name if it has no dot.
pub open spec fn leading_segment(name: Seq<char>) -> Seq<char> {
    match name.index_of_first('.') {
        Some(dot) => name.subrange(0, dot),
        None => name,
    }
}

/// The view of an optional text.
pub open spec fn text_view(text: Option<String>) -> Option<Seq<char>> {
    match text {
        Some(t) => Some(t@),
        None => None,
    }
}

fn last_dot(chars: &[char]) -> (at: Option<usize>)
    ensures
        match at {
            Some(i) => i < chars@.len() && chars@.index_of_last('.') == Some(i as int),
            None => chars@.index_of_last('.') is None,
        },
{
    let mut i: usize = chars.len();
    while i > 0
        invariant
            i <= chars@.len(),
            forall|j: int| i <= j < chars@.len() ==> chars@[j] != '.',
        decreases i,
    {
        i -= 1;
        if chars[i] == '.' {
            proof {
                chars@.index_of_last_ensures('.');
            }
            return Some(i);
        }
    }
    proof {
        chars@.index_of_last_ensures('.');
    }
    None
}

fn first_dot(chars: &[char]) -> (at: Option<usize>)
    ensures
        match at {
            Some(i) => i < chars@.len() && chars@.index_of_first('.') == Some(i as int),
            None => chars@.index_of_first('.') is None,
        },
{
    let mut i: usize = 0;
    while i < chars.len()
        invariant
            i <= chars@.len(),
            forall|j: int| 0 <= j < i ==> chars@[j] != '.',
        decreases chars@.len() - i,
    {
        if chars[i] == '.' {
            proof {
                chars@.index_of_first_ensures('.');
            }
            return Some(i);
        }
        i += 1;
    }
    proof {
        chars@.index_of_first_ensures('.');
    }
    None
}

fn is_dot_dot(chars: &[char]) -> (yes: bool)
    ensures
        yes == (chars@ == seq!['.', '.']),
{
    let yes = chars.len() == 2 && chars[0] == '.' && chars[1] == '.';
    assert(yes ==> chars@ =~= seq!['.', '.']);
    yes
}

/// The extension of `name`, if it has one.
pub fn extension(name: &str) -> (ext: Option<String>)
    ensures
        text_view(ext) == extension_of(name@),
{
    let chars = chars_of(name);
    match last_dot(chars.as_slice()) {
        Some(dot) => {
            if dot == 0 || is_dot_dot(chars.as_slice()) {
                None
            } else {
                assert(dot < chars.len());
                Some(text_of(chars.as_slice(), dot + 1, chars.len()))
            }
        },
        None => None,
    }
}

/// The stem of `name`.
pub fn file_stem(name: &str) -> (stem: String)
    ensures
        stem@ == stem_of(name@),
{
    let chars = chars_of(name);
    match last_dot(chars.as_slice()) {
        Some(dot) => {
            if dot == 0 || is_dot_dot(chars.as_slice()) {
                name.to_owned()
            } else {
                text_of(chars.as_slice(), 0, dot)
            }
        },
        None => name.to_owned(),
    }
}

/// The leading segment of `name`.
pub fn first_segment(name: &str) -> (segment: String)
    ensures
        segment@ == leading_segment(name@),
{
    let chars = chars_of(name);
    match first_dot(chars.as_slice()) {
        Some(dot) => text_of(chars.as_slice(), 0, dot),
        None => name.to_owned(),
    }
}

} // verus!
