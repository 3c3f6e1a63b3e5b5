//! JSON strings as the manifest holds them: how a text is quoted and escaped,
//! and how a quoted text is read back.
//!
//! Only the one spelling that `write_quoted` produces is read: a quote or a
//! backslash behind a backslash, the letters `b f n r t` for the control
//! characters that have one, `\u00` and two lowercase hexadecimal digits for
//! the other characters below U+0020, and every other character as it is.

use vstd::prelude::*;
use crate::digest::{
    hex_digit, hex_digit_char, hex_digit_value, lemma_hex_digit_of_value,
    lemma_value_of_hex_digit,
};

verus! {

/// The letter that stands behind the backslash for `c`, where `c` has one.
pub open spec fn escape_letter(c: char) -> Option<char> {
    if c == '"' {
        Some('"')
    } else if c == '\\' {
        Some('\\')
    } else if c == '\u{8}' {
        Some('b')
    } else if c == '\u{c}' {
        Some('f')
    } else if c == '\n' {
        Some('n')
    } else if c == '\r' {
        Some('r')
    } else if c == '\t' {
        Some('t')
    } else {
        None
    }
}

/// The character for which `letter` stands behind a backslash.
pub open spec fn escaped_by(letter: char) -> Option<char> {
    if letter == '"' {
        Some('"')
    } else if letter == '\\' {
        Some('\\')
    } else if letter == 'b' {
        Some('\u{8}')
    } else if letter == 'f' {
        Some('\u{c}')
    } else if letter == 'n' {
        Some('\n')
    } else if letter == 'r' {
        Some('\r')
    } else if letter == 't' {
        Some('\t')
    } else {
        None
    }
}

/// How one character is written inside a string.
pub open spec fn escaped_char(c: char) -> Seq<char> {
    match escape_letter(c) {
        Some(letter) => seq!['\\', letter],
        None => if (c as u32) < 0x20 {
            seq![
                '\\',
                'u',
                '0',
                '0',
                hex_digit(c as u32 as int / 16),
                hex_digit(c as u32 as int % 16),
            ]
        } else {
            seq![c]
        },
    }
}

/// How a text is written inside a string: character by character.
pub open spec fn escaped(text: Seq<char>) -> Seq<char>
    decreases text.len(),
{
    if text.len() == 0 {
        Seq::empty()
    } else {
        escaped(text.drop_last()) + escaped_char(text.last())
    }
}

/// A text as a JSON string.
pub open spec fn quoted(text: Seq<char>) -> Seq<char> {
    seq!['"'] + escaped(text) + seq!['"']
}

/// Escaping goes through a concatenation.
proof fn lemma_escaped_concat(a: Seq<char>, b: Seq<char>)
    ensures
        escaped(a + b) == escaped(a) + escaped(b),
    decreases b.len(),
{
    if b.len() == 0 {
        assert(a + b == a);
        assert(escaped(a) + escaped(b) == escaped(a));
    } else {
        assert((a + b).drop_last() == a + b.drop_last());
        lemma_escaped_concat(a, b.drop_last());
        assert(escaped(a + b) == (escaped(a) + escaped(b.drop_last())) + escaped_char(b.last()));
        assert(escaped(a) + escaped(b) == (escaped(a) + escaped(b.drop_last())) + escaped_char(
            b.last(),
        ));
    }
}

/// The escaped form of a text with one character in front.
proof fn lemma_escaped_first(text: Seq<char>)
    requires
        text.len() > 0,
    ensures
        escaped(text) == escaped_char(text.first()) + escaped(text.drop_first()),
{
    let head = seq![text.first()];
    assert(text == head + text.drop_first());
    lemma_escaped_concat(head, text.drop_first());
    assert(head.drop_last() == Seq::<char>::empty());
    assert(escaped(head) == escaped(Seq::<char>::empty()) + escaped_char(text.first()));
    assert(escaped(head) == escaped_char(text.first()));
}

fn write_escaped_char(out: &mut String, c: char)
    ensures
        final(out)@ == old(out)@ + escaped_char(c),
{
    let ghost before = out@;
    if c == '"' {
        out.push('\\');
        out.push('"');
    } else if c == '\\' {
        out.push('\\');
        out.push('\\');
    } else if c == '\u{8}' {
        out.push('\\');
        out.push('b');
    } else if c == '\u{c}' {
        out.push('\\');
        out.push('f');
    } else if c == '\n' {
        out.push('\\');
        out.push('n');
    } else if c == '\r' {
        out.push('\\');
        out.push('r');
    } else if c == '\t' {
        out.push('\\');
        out.push('t');
    } else if (c as u32) < 0x20 {
        let code: u8 = c as u32 as u8;
        out.push('\\');
        out.push('u');
        out.push('0');
        out.push('0');
        out.push(hex_digit_char(code / 16));
        out.push(hex_digit_char(code % 16));
    } else {
        out.push(c);
    }
    assert(out@ =~= before + escaped_char(c));
}

/// Appends `text` to `out` as a JSON string.
pub fn write_quoted(out: &mut String, text: &str)
    ensures
        final(out)@ == old(out)@ + quoted(text@),
{
    let ghost before = out@;
    out.push('"');
    for c in it: text.chars()
        invariant
            it.seq() == text@,
            out@ == before + seq!['"'] + escaped(text@.take(it.index() as int)),
    {
        let ghost at = it.index() as int;
        assert(text@.take(at + 1).drop_last() == text@.take(at));
        write_escaped_char(out, c);
    }
    assert(text@.take(text@.len() as int) == text@);
    out.push('"');
    assert(out@ =~= before + quoted(text@));
}

/// True if the characters of `s` from `pos` on are those of `piece`.
#[verifier::opaque]
pub open spec fn same_at(s: Seq<char>, pos: int, piece: Seq<char>) -> bool {
    s.subrange(pos, pos + piece.len()) == piece
}

/// True if `piece` stands in `s` at `pos`.
pub open spec fn holds_at(s: Seq<char>, pos: int, piece: Seq<char>) -> bool {
    0 <= pos && pos + piece.len() <= s.len() && same_at(s, pos, piece)
}

/// A concatenation stands at a position exactly if its first part stands
/// there and its second part right behind.
pub(crate) proof fn lemma_holds_at_concat(s: Seq<char>, pos: int, a: Seq<char>, b: Seq<char>)
    ensures
        holds_at(s, pos, a + b) == (holds_at(s, pos, a) && holds_at(s, pos + a.len(), b)),
{
    reveal(same_at);
    if 0 <= pos && pos + a.len() + b.len() <= s.len() {
        let whole = s.subrange(pos, pos + (a + b).len());
        let first = s.subrange(pos, pos + a.len());
        let second = s.subrange(pos + a.len(), pos + a.len() + b.len());
        assert(whole =~= first + second);
        if whole == a + b {
            assert(first =~= a) by {
                assert forall|i: int| 0 <= i < a.len() implies first[i] == a[i] by {
                    assert(whole[i] == (a + b)[i]);
                }
            }
            assert(second =~= b) by {
                assert forall|i: int| 0 <= i < b.len() implies second[i] == b[i] by {
                    assert(whole[a.len() + i] == (a + b)[a.len() + i]);
                }
            }
        }
    }
}

/// The character whose escaped form stands at `pos`, and the position behind
/// that form.
spec fn char_at(s: Seq<char>, pos: int) -> Option<(char, int)> {
    if !(0 <= pos < s.len()) {
        None
    } else if s[pos] == '\\' {
        if pos + 1 >= s.len() {
            None
        } else if s[pos + 1] == 'u' {
            if pos + 6 <= s.len() && s[pos + 2] == '0' && s[pos + 3] == '0' {
                match (hex_digit_value(s[pos + 4]), hex_digit_value(s[pos + 5])) {
                    (Some(high), Some(low)) => {
                        let code = high * 16 + low;
                        if code < 0x20 && escape_letter(code as u8 as char) is None {
                            Some((code as u8 as char, pos + 6))
                        } else {
                            None
                        }
                    },
                    _ => None,
                }
            } else {
                None
            }
        } else {
            match escaped_by(s[pos + 1]) {
                Some(c) => Some((c, pos + 2)),
                None => None,
            }
        }
    } else if s[pos] == '"' || (s[pos] as u32) < 0x20 {
        None
    } else {
        Some((s[pos], pos + 1))
    }
}

/// The text whose escaped form stands at `pos` before a closing quote, and
/// the position behind that quote.
spec fn text_at(s: Seq<char>, pos: int) -> Option<(Seq<char>, int)>
    decreases s.len() - pos,
{
    if !(0 <= pos < s.len()) {
        None
    } else if s[pos] == '"' {
        Some((Seq::empty(), pos + 1))
    } else {
        match char_at(s, pos) {
            Some((c, next)) => if next > pos {
                match text_at(s, next) {
                    Some((rest, end)) => Some((seq![c] + rest, end)),
                    None => None,
                }
            } else {
                None
            },
            None => None,
        }
    }
}

/// The text of the JSON string that stands at `pos`, and the position behind
/// the string.
#[verifier::opaque]
pub closed spec fn quoted_at(s: Seq<char>, pos: int) -> Option<(Seq<char>, int)> {
    if 0 <= pos < s.len() && s[pos] == '"' {
        text_at(s, pos + 1)
    } else {
        None
    }
}

/// What `char_at` reads is the escaped form of the character it gives.
proof fn lemma_char_at_sound(s: Seq<char>, pos: int)
    requires
        char_at(s, pos) is Some,
    ensures
        holds_at(s, pos, escaped_char(char_at(s, pos).unwrap().0)),
        char_at(s, pos).unwrap().1 == pos + escaped_char(char_at(s, pos).unwrap().0).len(),
{
    reveal(same_at);
    let (c, next) = char_at(s, pos).unwrap();
    assert(s.subrange(pos, next) =~= escaped_char(c)) by {
        if s[pos] == '\\' && s[pos + 1] == 'u' {
            let high = hex_digit_value(s[pos + 4]).unwrap();
            let low = hex_digit_value(s[pos + 5]).unwrap();
            let code = high * 16 + low;
            assert(c as u32 as int == code);
            assert(code / 16 == high && code % 16 == low);
            lemma_hex_digit_of_value(s[pos + 4]);
            lemma_hex_digit_of_value(s[pos + 5]);
        }
    }
}

/// Where the escaped form of a character stands, `char_at` gives that
/// character.
proof fn lemma_char_at_complete(s: Seq<char>, pos: int, c: char)
    requires
        holds_at(s, pos, escaped_char(c)),
    ensures
        char_at(s, pos) == Some((c, pos + escaped_char(c).len())),
        s[pos] != '"',
{
    reveal(same_at);
    let form = escaped_char(c);
    assert forall|i: int| 0 <= i < form.len() implies s[pos + i] == form[i] by {
        assert(s.subrange(pos, pos + form.len())[i] == form[i]);
    }
    assert(s[pos] == form[0]);
    if escape_letter(c) is Some {
        assert(s[pos + 1] == form[1]);
    } else if (c as u32) < 0x20 {
        let code = c as u32 as int;
        assert(s[pos + 1] == form[1]);
        assert(s[pos + 2] == form[2]);
        assert(s[pos + 3] == form[3]);
        assert(s[pos + 4] == form[4]);
        assert(s[pos + 5] == form[5]);
        lemma_value_of_hex_digit(code / 16);
        lemma_value_of_hex_digit(code % 16);
        assert((code / 16) * 16 + code % 16 == code);
        assert(code as u8 as char == c);
    }
}

/// What `text_at` reads is the escaped form of the text it gives and a quote.
proof fn lemma_text_at_sound(s: Seq<char>, pos: int)
    requires
        text_at(s, pos) is Some,
    ensures
        holds_at(s, pos, escaped(text_at(s, pos).unwrap().0) + seq!['"']),
        text_at(s, pos).unwrap().1 == pos + escaped(text_at(s, pos).unwrap().0).len() + 1,
    decreases s.len() - pos,
{
    reveal(same_at);
    let (text, end) = text_at(s, pos).unwrap();
    if s[pos] == '"' {
        assert(escaped(text) + seq!['"'] =~= seq!['"']);
        assert(s.subrange(pos, pos + 1) =~= seq!['"']);
    } else {
        let (c, next) = char_at(s, pos).unwrap();
        let (rest, _) = text_at(s, next).unwrap();
        lemma_char_at_sound(s, pos);
        lemma_text_at_sound(s, next);
        assert(text.first() == c && text.drop_first() =~= rest);
        lemma_escaped_first(text);
        lemma_holds_at_concat(s, pos, escaped_char(c), escaped(rest) + seq!['"']);
        assert(escaped(text) + seq!['"'] =~= escaped_char(c) + (escaped(rest) + seq!['"']));
    }
}

/// Where the escaped form of a text stands before a quote, `text_at` gives
/// that text.
proof fn lemma_text_at_complete(s: Seq<char>, pos: int, text: Seq<char>)
    requires
        holds_at(s, pos, escaped(text) + seq!['"']),
    ensures
        text_at(s, pos) == Some((text, pos + escaped(text).len() + 1)),
    decreases text.len(),
{
    reveal(same_at);
    if text.len() == 0 {
        assert(escaped(text) + seq!['"'] =~= seq!['"']);
        assert(s.subrange(pos, pos + 1)[0] == '"');
        assert(text_at(s, pos).unwrap().0 =~= text);
    } else {
        let c = text.first();
        let rest = text.drop_first();
        lemma_escaped_first(text);
        assert(escaped(text) + seq!['"'] =~= escaped_char(c) + (escaped(rest) + seq!['"']));
        lemma_holds_at_concat(s, pos, escaped_char(c), escaped(rest) + seq!['"']);
        lemma_char_at_complete(s, pos, c);
        lemma_text_at_complete(s, pos + escaped_char(c).len(), rest);
        assert(seq![c] + rest =~= text);
    }
}

/// What `quoted_at` reads is the text it gives as a JSON string.
pub(crate) proof fn lemma_quoted_at_sound(s: Seq<char>, pos: int)
    requires
        quoted_at(s, pos) is Some,
    ensures
        holds_at(s, pos, quoted(quoted_at(s, pos).unwrap().0)),
        quoted_at(s, pos).unwrap().1 == pos + quoted(quoted_at(s, pos).unwrap().0).len(),
{
    reveal(quoted_at);
    reveal(same_at);
    let (text, end) = quoted_at(s, pos).unwrap();
    lemma_text_at_sound(s, pos + 1);
    assert(quoted(text) =~= seq!['"'] + (escaped(text) + seq!['"']));
    assert(holds_at(s, pos, seq!['"'])) by {
        assert(s.subrange(pos, pos + 1) =~= seq!['"']);
    }
    lemma_holds_at_concat(s, pos, seq!['"'], escaped(text) + seq!['"']);
}

/// Where a text stands as a JSON string, `quoted_at` gives that text.
pub(crate) proof fn lemma_quoted_at_complete(s: Seq<char>, pos: int, text: Seq<char>)
    requires
        holds_at(s, pos, quoted(text)),
    ensures
        quoted_at(s, pos) == Some((text, pos + quoted(text).len())),
{
    reveal(quoted_at);
    reveal(same_at);
    assert(quoted(text) =~= seq!['"'] + (escaped(text) + seq!['"']));
    lemma_holds_at_concat(s, pos, seq!['"'], escaped(text) + seq!['"']);
    assert(s.subrange(pos, pos + 1)[0] == '"');
    lemma_text_at_complete(s, pos + 1, text);
}

/// The position behind `token`, where it stands at `pos`.
pub open spec fn after_token(s: Seq<char>, pos: int, token: Seq<char>) -> Option<int> {
    if holds_at(s, pos, token) {
        Some(pos + token.len())
    } else {
        None
    }
}

/// Steps over `token` if it stands at `pos`.
pub fn expect(chars: &[char], pos: usize, token: &str) -> (out: Option<usize>)
    ensures
        match out {
            Some(next) => after_token(chars@, pos as int, token@) == Some(next as int) && pos
                <= next <= chars@.len(),
            None => after_token(chars@, pos as int, token@) is None,
        },
{
    let mut at: usize = pos;
    for c in it: token.chars()
        invariant
            it.seq() == token@,
            at == pos + it.index(),
            at <= chars@.len() || it.index() == 0,
            it.index() > 0 ==> chars@.subrange(pos as int, at as int) == token@.take(
                it.index() as int,
            ),
    {
        if at >= chars.len() || chars[at] != c {
            proof {
                reveal(same_at);
                let whole = chars@.subrange(pos as int, pos + token@.len());
                if holds_at(chars@, pos as int, token@) {
                    assert(whole[it.index() as int] == token@[it.index() as int]);
                }
            }
            return None;
        }
        proof {
            let seen = chars@.subrange(pos as int, at as int);
            let wanted = token@.take(it.index() as int);
            let seen_next = chars@.subrange(pos as int, at + 1);
            let wanted_next = token@.take(it.index() + 1);
            if it.index() > 0 {
                assert(seen == wanted);
                assert(seen_next =~= seen.push(chars@[at as int]));
                assert(wanted_next =~= wanted.push(c));
            } else {
                assert(seen_next =~= wanted_next);
            }
        }
        at += 1;
    }
    proof {
        reveal(same_at);
        assert(token@.take(token@.len() as int) == token@);
        if token@.len() == 0 {
            assert(pos <= chars@.len() ==> chars@.subrange(pos as int, pos as int) =~= token@);
        }
    }
    if at > chars.len() {
        return None;
    }
    Some(at)
}

fn hex_value(c: char) -> (value: Option<u8>)
    ensures
        match value {
            Some(v) => hex_digit_value(c) == Some(v as int),
            None => hex_digit_value(c) is None,
        },
{
    let code: u32 = c as u32;
    if 48 <= code && code <= 57 {
        Some((code - 48) as u8)
    } else if 97 <= code && code <= 102 {
        Some((code - 87) as u8)
    } else {
        None
    }
}

fn letter_value(letter: char) -> (c: Option<char>)
    ensures
        c == escaped_by(letter),
{
    if letter == '"' {
        Some('"')
    } else if letter == '\\' {
        Some('\\')
    } else if letter == 'b' {
        Some('\u{8}')
    } else if letter == 'f' {
        Some('\u{c}')
    } else if letter == 'n' {
        Some('\n')
    } else if letter == 'r' {
        Some('\r')
    } else if letter == 't' {
        Some('\t')
    } else {
        None
    }
}

fn parse_char(chars: &[char], pos: usize) -> (out: Option<(char, usize)>)
    ensures
        match out {
            Some((c, next)) => char_at(chars@, pos as int) == Some((c, next as int)) && pos
                < next <= chars@.len(),
            None => char_at(chars@, pos as int) is None,
        },
{
    if pos >= chars.len() {
        return None;
    }
    let first = chars[pos];
    if first == '\\' {
        if chars.len() - pos < 2 {
            return None;
        }
        let letter = chars[pos + 1];
        if letter == 'u' {
            if chars.len() - pos < 6 || chars[pos + 2] != '0' || chars[pos + 3] != '0' {
                return None;
            }
            match (hex_value(chars[pos + 4]), hex_value(chars[pos + 5])) {
                (Some(high), Some(low)) => {
                    if high >= 2 {
                        return None;
                    }
                    let code: u8 = high * 16 + low;
                    let c = code as char;
                    if code == 8 || code == 9 || code == 10 || code == 12 || code == 13 {
                        return None;
                    }
                    Some((c, pos + 6))
                },
                _ => None,
            }
        } else {
            match letter_value(letter) {
                Some(c) => Some((c, pos + 2)),
                None => None,
            }
        }
    } else if first == '"' || (first as u32) < 0x20 {
        None
    } else {
        Some((first, pos + 1))
    }
}

/// The text read so far, followed by what is read from here on.
spec fn continued(done: Seq<char>, rest: Option<(Seq<char>, int)>) -> Option<
    (Seq<char>, int),
> {
    match rest {
        Some((text, end)) => Some((done + text, end)),
        None => None,
    }
}

/// Reads the JSON string that stands at `pos`: the text whose quoted form
/// stands there, and the position behind it. Where no text's quoted form
/// stands, nothing is read.
pub fn parse_quoted(chars: &[char], pos: usize) -> (out: Option<(String, usize)>)
    ensures
        match out {
            Some((text, end)) => holds_at(chars@, pos as int, quoted(text@)) && end == pos
                + quoted(text@).len() && quoted_at(chars@, pos as int) == Some(
                (text@, end as int),
            ),
            None => quoted_at(chars@, pos as int) is None && forall|text: Seq<char>|
                !holds_at(chars@, pos as int, quoted(text)),
        },
{
    let out = scan_quoted(chars, pos);
    proof {
        if quoted_at(chars@, pos as int) is Some {
            lemma_quoted_at_sound(chars@, pos as int);
        } else {
            assert forall|text: Seq<char>| !holds_at(chars@, pos as int, quoted(text)) by {
                if holds_at(chars@, pos as int, quoted(text)) {
                    lemma_quoted_at_complete(chars@, pos as int, text);
                }
            }
        }
    }
    out
}

fn scan_quoted(chars: &[char], pos: usize) -> (out: Option<(String, usize)>)
    ensures
        match out {
            Some((text, end)) => quoted_at(chars@, pos as int) == Some((text@, end as int))
                && pos < end <= chars@.len(),
            None => quoted_at(chars@, pos as int) is None,
        },
{
    proof {
        reveal(quoted_at);
    }
    if pos >= chars.len() || chars[pos] != '"' {
        return None;
    }
    let mut text = String::new();
    let mut at: usize = pos + 1;
    assert(continued(text@, text_at(chars@, at as int)) =~= text_at(chars@, at as int)) by {
        match text_at(chars@, at as int) {
            Some((t, e)) => {
                assert(text@ + t =~= t);
            },
            None => {},
        }
    }
    loop
        invariant
            pos < at <= chars@.len(),
            quoted_at(chars@, pos as int) == continued(text@, text_at(chars@, at as int)),
        decreases chars@.len() - at,
    {
        if at >= chars.len() {
            return None;
        }
        if chars[at] == '"' {
            assert(text@ + Seq::<char>::empty() =~= text@);
            return Some((text, at + 1));
        }
        match parse_char(chars, at) {
            Some((c, next)) => {
                let ghost before = text@;
                text.push(c);
                proof {
                    match text_at(chars@, next as int) {
                        Some((t, e)) => {
                            assert(before + (seq![c] + t) =~= before.push(c) + t);
                        },
                        None => {},
                    }
                }
                at = next;
            },
            None => {
                return None;
            },
        }
    }
}

} // verus!
