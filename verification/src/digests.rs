//! Digests of bytes and their texts.

use sha2::Digest;
use vstd::prelude::*;

use crate::domain;

verus! {

/// How many characters the text of a digest has.
pub const DIGEST_LENGTH: usize = 64;

/// The SHA-256 digest of some bytes.
pub uninterp spec fn sha256(bytes: Seq<u8>) -> Seq<u8>;

/// Calls `sha2::Sha256::digest`, which gives the 32 bytes of the SHA-256 digest
/// of its argument.
#[verifier::external_body]
pub(crate) fn sha256_bytes(bytes: &[u8]) -> (r: Vec<u8>)
    ensures
        r@ == sha256(bytes@),
        r@.len() == 32,
{
    sha2::Sha256::digest(bytes).to_vec()
}

/// The text of bytes: two hexadecimal digits for each, in lower case.
pub open spec fn hex_of(bytes: Seq<u8>) -> Seq<char>
    decreases bytes.len(),
{
    if bytes.len() == 0 {
        Seq::empty()
    } else {
        hex_of(bytes.drop_last()) + domain::hex(bytes.last() as nat, 2)
    }
}

fn digit_text(digit: u8) -> (r: char)
    requires
        digit < 16,
    ensures
        r == domain::hex_digit(digit as int),
{
    if digit < 10 {
        (48u8 + digit) as char
    } else {
        (97u8 + (digit - 10)) as char
    }
}

/// Writes bytes in hexadecimal.
pub fn write_hex(bytes: &[u8]) -> (r: String)
    ensures
        r@ == hex_of(bytes@),
{
    let mut out = String::new();
    let mut i: usize = 0;
    assert(bytes@.take(0) =~= Seq::<u8>::empty());
    while i < bytes.len()
        invariant
            i <= bytes.len(),
            out@ == hex_of(bytes@.take(i as int)),
        decreases bytes.len() - i,
    {
        let byte: u8 = bytes[i];
        let ghost before = out@;
        proof {
            assert(bytes@.take(i as int + 1).drop_last() =~= bytes@.take(i as int));
            assert(bytes@.take(i as int + 1).last() == byte);
            lemma_two_digits(byte);
        }
        out.push(digit_text(byte / 16));
        out.push(digit_text(byte % 16));
        assert(out@ =~= before + domain::hex(byte as nat, 2));
        i += 1;
    }
    assert(bytes@.take(i as int) =~= bytes@);
    out
}

proof fn lemma_two_digits(byte: u8)
    ensures
        domain::hex(byte as nat, 2) == seq![
            domain::hex_digit((byte / 16) as int),
            domain::hex_digit((byte % 16) as int),
        ],
{
    reveal_with_fuel(domain::hex, 3);
    assert((byte as nat / 16) % 16 == byte / 16) by {
        assert(byte / 16 < 16);
    }
    assert(domain::hex(byte as nat, 2) =~= seq![
        domain::hex_digit((byte / 16) as int),
        domain::hex_digit((byte % 16) as int),
    ]);
}

/// The text of the SHA-256 digest of some bytes.
pub fn digest_text(bytes: &[u8]) -> (r: String)
    ensures
        r@ == hex_of(sha256(bytes@)),
        valid_digest(r@),
{
    let digest = sha256_bytes(bytes);
    let text = write_hex(digest.as_slice());
    proof {
        lemma_hex_is_valid(digest@);
    }
    text
}

/// A hexadecimal digit in lower case.
pub open spec fn lower_hex(c: char) -> bool {
    '0' <= c <= '9' || 'a' <= c <= 'f'
}

/// Whether a text could be that of a SHA-256 digest.
pub open spec fn valid_digest(text: Seq<char>) -> bool {
    text.len() == DIGEST_LENGTH && forall|i: int|
        0 <= i < text.len() ==> lower_hex(#[trigger] text[i])
}

proof fn lemma_hex_is_valid(bytes: Seq<u8>)
    ensures
        hex_of(bytes).len() == 2 * bytes.len(),
        forall|i: int| 0 <= i < hex_of(bytes).len() ==> lower_hex(#[trigger] hex_of(bytes)[i]),
    decreases bytes.len(),
{
    if bytes.len() > 0 {
        lemma_hex_is_valid(bytes.drop_last());
        lemma_two_digits(bytes.last());
        let before = hex_of(bytes.drop_last());
        let pair = domain::hex(bytes.last() as nat, 2);
        assert forall|i: int| 0 <= i < hex_of(bytes).len() implies lower_hex(
            #[trigger] hex_of(bytes)[i],
        ) by {
            if i < before.len() {
                assert(hex_of(bytes)[i] == before[i]);
            } else {
                assert(hex_of(bytes)[i] == pair[i - before.len()]);
            }
        }
    }
}

/// Whether a text could be that of a SHA-256 digest.
pub fn is_digest(text: &str) -> (r: bool)
    ensures
        r == valid_digest(text@),
{
    let chars = crate::text::chars_of(text);
    if chars.len() != DIGEST_LENGTH {
        return false;
    }
    let mut i: usize = 0;
    while i < chars.len()
        invariant
            i <= chars.len(),
            chars@ == text@,
            forall|j: int| 0 <= j < i ==> lower_hex(#[trigger] text@[j]),
        decreases chars.len() - i,
    {
        let c: char = chars[i];
        if !(('0' <= c && c <= '9') || ('a' <= c && c <= 'f')) {
            assert(!lower_hex(text@[i as int]));
            return false;
        }
        i += 1;
    }
    true
}

/// Every digest has a text that is accepted as one.
pub proof fn law_digests_have_valid_texts(bytes: Seq<u8>)
    requires
        bytes.len() == 32,
    ensures
        valid_digest(hex_of(bytes)),
{
    lemma_hex_is_valid(bytes);
}

/// The text of bytes has two digits for each of them, the higher first, and tells them apart.
pub proof fn law_texts_tell_bytes_apart(one: Seq<u8>, other: Seq<u8>, i: int)
    requires
        0 <= i < one.len(),
    ensures
        hex_of(one).len() == 2 * one.len(),
        hex_of(one)[2 * i] == if one[i] < 160 {
            (48 + one[i] / 16) as char
        } else {
            (87 + one[i] / 16) as char
        },
        hex_of(one)[2 * i + 1] == if one[i] % 16 < 10 {
            (48 + one[i] % 16) as char
        } else {
            (87 + one[i] % 16) as char
        },
        hex_of(one) == hex_of(other) ==> one == other,
{
    lemma_hex_positions(one, i);
    if hex_of(one) == hex_of(other) {
        lemma_hex_is_valid(other);
        assert forall|k: int| 0 <= k < one.len() implies one[k] == other[k] by {
            lemma_hex_positions(one, k);
            lemma_hex_positions(other, k);
            lemma_digits_differ((one[k] / 16) as int, (other[k] / 16) as int);
            lemma_digits_differ((one[k] % 16) as int, (other[k] % 16) as int);
        }
        assert(one =~= other);
    }
}

proof fn lemma_digits_differ(one: int, other: int)
    requires
        0 <= one < 16,
        0 <= other < 16,
        domain::hex_digit(one) == domain::hex_digit(other),
    ensures
        one == other,
{
}

proof fn lemma_hex_positions(bytes: Seq<u8>, i: int)
    requires
        0 <= i < bytes.len(),
    ensures
        hex_of(bytes).len() == 2 * bytes.len(),
        hex_of(bytes)[2 * i] == domain::hex_digit((bytes[i] / 16) as int),
        hex_of(bytes)[2 * i + 1] == domain::hex_digit((bytes[i] % 16) as int),
    decreases bytes.len(),
{
    lemma_hex_is_valid(bytes);
    lemma_hex_is_valid(bytes.drop_last());
    lemma_two_digits(bytes.last());
    if i < bytes.len() - 1 {
        lemma_hex_positions(bytes.drop_last(), i);
    }
}

/// A text is accepted as that of a digest exactly where it is the text of thirty-two bytes.
pub proof fn law_valid_texts_are_of_digests(text: Seq<char>)
    ensures
        valid_digest(text) <==> exists|bytes: Seq<u8>| #[trigger]
            hex_of(bytes) == text && bytes.len() == 32,
{
    if valid_digest(text) {
        let bytes = lemma_read_hex(text);
        assert(hex_of(bytes) == text);
    }
    if exists|bytes: Seq<u8>| #[trigger] hex_of(bytes) == text && bytes.len() == 32 {
        let bytes = choose|bytes: Seq<u8>| #[trigger] hex_of(bytes) == text && bytes.len() == 32;
        lemma_hex_is_valid(bytes);
    }
}

/// The number that a hexadecimal digit stands for.
spec fn digit_value(c: char) -> int {
    if c <= '9' {
        c as int - 48
    } else {
        c as int - 87
    }
}

proof fn lemma_read_hex(text: Seq<char>) -> (bytes: Seq<u8>)
    requires
        text.len() % 2 == 0,
        forall|i: int| 0 <= i < text.len() ==> lower_hex(#[trigger] text[i]),
    ensures
        hex_of(bytes) == text,
        2 * bytes.len() == text.len(),
    decreases text.len(),
{
    if text.len() == 0 {
        assert(text =~= Seq::<char>::empty());
        Seq::<u8>::empty()
    } else {
        let shorter = text.take(text.len() - 2);
        let before = lemma_read_hex(shorter);
        let high = digit_value(text[text.len() - 2]);
        let low = digit_value(text[text.len() - 1]);
        assert(lower_hex(text[text.len() - 2]) && lower_hex(text[text.len() - 1]));
        let byte = (16 * high + low) as u8;
        let bytes = before.push(byte);
        lemma_two_digits(byte);
        assert(bytes.drop_last() =~= before);
        assert(text =~= shorter + seq![text[text.len() - 2], text[text.len() - 1]]);
        bytes
    }
}

} // verus!
