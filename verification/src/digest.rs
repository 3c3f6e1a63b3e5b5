//! Content digests: the MD5 sum of a byte buffer, written as lowercase hexadecimal.

use vstd::prelude::*;

verus! {

/// The MD5 sum of `data`, byte by byte.
pub uninterp spec fn md5_sum(data: Seq<u8>) -> Seq<u8>;

/// `md5::compute` hashes the whole buffer; the sixteen bytes it returns are a
/// function of the bytes alone, which this contract names `md5_sum`.
#[verifier::external_body]
fn md5_compute(data: &[u8]) -> (sum: [u8; 16])
    ensures
        sum@ == md5_sum(data@),
{
    md5::compute(data).0
}

/// The lowercase hexadecimal digit of a value below 16.
pub open spec fn hex_digit(n: int) -> char {
    if n < 10 {
        (n + 48) as char
    } else {
        (n + 87) as char
    }
}

/// Two lowercase hexadecimal digits per byte, high nibble first.
pub open spec fn hex_lower(bytes: Seq<u8>) -> Seq<char> {
    Seq::new(
        2 * bytes.len(),
        |i: int|
            if i % 2 == 0 {
                hex_digit(bytes[i / 2] as int / 16)
            } else {
                hex_digit(bytes[i / 2] as int % 16)
            },
    )
}

/// The value of a lowercase hexadecimal digit.
pub open spec fn hex_digit_value(c: char) -> Option<int> {
    let code = c as u32 as int;
    if 48 <= code <= 57 {
        Some(code - 48)
    } else if 97 <= code <= 102 {
        Some(code - 87)
    } else {
        None
    }
}

/// A lowercase hexadecimal digit is the digit of its value.
pub(crate) proof fn lemma_hex_digit_of_value(c: char)
    requires
        hex_digit_value(c) is Some,
    ensures
        0 <= hex_digit_value(c).unwrap() < 16,
        hex_digit(hex_digit_value(c).unwrap()) == c,
{
    let code = c as u32 as int;
    assert(code as char == c);
    if 48 <= code <= 57 {
        assert(((code - 48) + 48) as char == c);
    } else {
        assert(((code - 87) + 87) as char == c);
    }
}

/// The value of the digit of a number below 16 is that number.
pub(crate) proof fn lemma_value_of_hex_digit(n: int)
    requires
        0 <= n < 16,
    ensures
        hex_digit_value(hex_digit(n)) == Some(n),
{
    if n < 10 {
        assert(((n + 48) as char) as u32 as int == n + 48);
    } else {
        assert(((n + 87) as char) as u32 as int == n + 87);
    }
}

/// The text of any bytes has two characters for each byte, and every one of
/// them is a digit or a letter from `a` to `f`.
pub proof fn lemma_hex_lower_shape(bytes: Seq<u8>)
    ensures
        hex_lower(bytes).len() == 2 * bytes.len(),
        forall|i: int|
            0 <= i < hex_lower(bytes).len() ==> hex_digit_value(#[trigger] hex_lower(bytes)[i])
                is Some,
{
    assert forall|i: int| 0 <= i < hex_lower(bytes).len() implies hex_digit_value(
        #[trigger] hex_lower(bytes)[i],
    ) is Some by {
        let byte = bytes[i / 2] as int;
        lemma_value_of_hex_digit(byte / 16);
        lemma_value_of_hex_digit(byte % 16);
    }
}

/// The digest of `data` as it stands in a manifest.
pub open spec fn digest_of(data: Seq<u8>) -> Seq<char> {
    hex_lower(md5_sum(data))
}

/// The digit for a value below 16.
pub(crate) fn hex_digit_char(n: u8) -> (c: char)
    requires
        n < 16,
    ensures
        c == hex_digit(n as int),
{
    if n < 10 {
        (n + 48) as char
    } else {
        (n + 87) as char
    }
}

/// Writes `bytes` as lowercase hexadecimal text.
pub fn to_hex(bytes: &[u8]) -> (text: String)
    ensures
        text@ == hex_lower(bytes@),
{
    let mut text = String::new();
    let mut i: usize = 0;
    while i < bytes.len()
        invariant
            i <= bytes.len(),
            text@ == hex_lower(bytes@.take(i as int)),
        decreases bytes.len() - i,
    {
        let b: u8 = bytes[i];
        text.push(hex_digit_char(b / 16));
        text.push(hex_digit_char(b % 16));
        i += 1;
    }
    assert(bytes@.take(i as int) == bytes@);
    text
}

/// The content fingerprint of a byte buffer: 32 lowercase hexadecimal digits.
pub fn digest(data: &[u8]) -> (text: String)
    ensures
        text@ == digest_of(data@),
        text@.len() == 32,
        forall|i: int| 0 <= i < 32 ==> hex_digit_value(#[trigger] text@[i]) is Some,
{
    let sum = md5_compute(data);
    proof {
        lemma_hex_lower_shape(sum@);
    }
    to_hex(&sum)
}

} // verus!
