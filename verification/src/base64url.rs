//! Byte strings that JSON carries as base64url text.

use base64::Engine;
use vstd::prelude::*;

verus! {

/// The character that stands for six bits.
pub open spec fn symbol(six: int) -> char {
    if six < 26 {
        ('A' as int + six) as char
    } else if six < 52 {
        ('a' as int + six - 26) as char
    } else if six < 62 {
        ('0' as int + six - 52) as char
    } else if six == 62 {
        '-'
    } else {
        '_'
    }
}

/// The byte at an index, 0 behind the last one.
pub open spec fn byte_at(bytes: Seq<u8>, i: int) -> int {
    if 0 <= i < bytes.len() {
        bytes[i] as int
    } else {
        0
    }
}

/// Bits `6 * i` to `6 * i + 5` of a byte string: three bytes make four groups.
pub open spec fn six_bits(bytes: Seq<u8>, i: int) -> int {
    let first = byte_at(bytes, i / 4 * 3);
    let second = byte_at(bytes, i / 4 * 3 + 1);
    let third = byte_at(bytes, i / 4 * 3 + 2);
    if i % 4 == 0 {
        first / 4
    } else if i % 4 == 1 {
        first % 4 * 16 + second / 16
    } else if i % 4 == 2 {
        second % 16 * 4 + third / 64
    } else {
        third % 64
    }
}

/// The base64url text of a byte string, without padding: as many characters as its
/// bits fill groups of six, the last one filled up with zeros.
pub open spec fn encoding(bytes: Seq<u8>) -> Seq<char> {
    Seq::new(((8 * bytes.len() + 5) / 6) as nat, |i: int| symbol(six_bits(bytes, i)))
}

/// The bytes that a text encodes in base64url without padding, if it does.
pub open spec fn base64url(text: Seq<char>) -> Option<Seq<u8>> {
    if exists|bytes: Seq<u8>| encoding(bytes) == text {
        Some(choose|bytes: Seq<u8>| encoding(bytes) == text)
    } else {
        None
    }
}

/// `decode` of base64's `URL_SAFE_NO_PAD` engine on a text, the kind of a failure
/// dropped. It gives the bytes whose encoding the text is, and fails on every text
/// that is no byte string's encoding: on other characters, padding among them, on a
/// single character left over, and on bits behind the last byte that are not zero.
#[verifier::external_body]
pub(crate) fn decode_base64url(text: &str) -> (bytes: Option<Vec<u8>>)
    ensures
        match bytes {
            Some(decoded) => base64url(text@) == Some(decoded@),
            None => base64url(text@) is None,
        },
{
    base64::engine::general_purpose::URL_SAFE_NO_PAD.decode(text).ok()
}

proof fn lemma_encoding_is_injective(a: Seq<u8>, b: Seq<u8>)
    requires
        encoding(a) == encoding(b),
    ensures
        a == b,
{
    let text = encoding(a);
    assert(text.len() == (8 * a.len() + 5) / 6);
    assert(text.len() == (8 * b.len() + 5) / 6);
    assert forall|i: int| 0 <= i < text.len() implies six_bits(a, i) == six_bits(b, i) by {
        assert(text[i] == symbol(six_bits(a, i)));
        assert(text[i] == symbol(six_bits(b, i)));
    }
    assert forall|k: int| 0 <= k < a.len() implies a[k] == b[k] by {
        let i = k / 3 * 4 + k % 3;
        assert(six_bits(a, i) == six_bits(b, i));
        assert(six_bits(a, i + 1) == six_bits(b, i + 1));
        assert(i / 4 == k / 3 && i % 4 == k % 3);
        assert((i + 1) / 4 == k / 3 && (i + 1) % 4 == k % 3 + 1);
    }
    assert(a =~= b);
}

/// The text of a byte string reads back as that byte string.
pub proof fn encoding_reads_back(bytes: Seq<u8>)
    ensures
        base64url(encoding(bytes)) == Some(bytes),
{
    let text = encoding(bytes);
    let chosen = choose|other: Seq<u8>| encoding(other) == text;
    lemma_encoding_is_injective(chosen, bytes);
}

/// A text reads as a byte string exactly where it is its encoding.
pub proof fn text_reads_as_what_it_encodes(text: Seq<char>, bytes: Seq<u8>)
    ensures
        base64url(text) == Some(bytes) <==> text == encoding(bytes),
{
    if text == encoding(bytes) {
        encoding_reads_back(bytes);
    }
}

/// The characters stand in the order of the alphabet.
pub proof fn symbols_are_the_alphabet(six: int)
    requires
        0 <= six < 64,
    ensures
        symbol(six) == "ABCDEFGHIJKLMNOPQRSTUVWXYZabcdefghijklmnopqrstuvwxyz0123456789-_"@[six],
{
    reveal_strlit("ABCDEFGHIJKLMNOPQRSTUVWXYZabcdefghijklmnopqrstuvwxyz0123456789-_");
}

/// Four groups of six bits make the number that their three bytes make, bytes behind
/// the last one counting as 0, and a text has as many characters as it takes for the
/// bits of the bytes.
pub proof fn six_bits_make_up_the_bytes(bytes: Seq<u8>, group: int)
    requires
        0 <= group,
    ensures
        ({
            let at = |i: int|
                if i < bytes.len() {
                    bytes[i] as int
                } else {
                    0
                };
            let four = |i: int| six_bits(bytes, 4 * group + i);
            &&& ((four(0) * 64 + four(1)) * 64 + four(2)) * 64 + four(3) == (at(3 * group) * 256
                + at(3 * group + 1)) * 256 + at(3 * group + 2)
            &&& 0 <= four(0) < 64 && 0 <= four(1) < 64 && 0 <= four(2) < 64 && 0 <= four(3) < 64
        }),
        6 * encoding(bytes).len() >= 8 * bytes.len() > 6 * encoding(bytes).len() - 6,
        forall|i: int|
            0 <= i < encoding(bytes).len() ==> #[trigger] encoding(bytes)[i] == symbol(
                six_bits(bytes, i),
            ),
{
    assert((4 * group) / 4 * 3 == 3 * group && (4 * group) % 4 == 0);
    assert((4 * group + 1) / 4 * 3 == 3 * group && (4 * group + 1) % 4 == 1);
    assert((4 * group + 2) / 4 * 3 == 3 * group && (4 * group + 2) % 4 == 2);
    assert((4 * group + 3) / 4 * 3 == 3 * group && (4 * group + 3) % 4 == 3);
    assert(encoding(bytes).len() == (8 * bytes.len() + 5) / 6);
}

} // verus!
