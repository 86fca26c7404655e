//! Content digests: SHA-1 over the bytes, rendered as lowercase hexadecimal.

use sha1::{Digest, Sha1};
use vstd::prelude::*;
use vstd::string::*;

verus! {

/// Number of bytes in a raw digest.
pub const DIGEST_BYTES: usize = 20;

/// Number of characters in the text form of a digest.
pub const DIGEST_CHARS: usize = 40;

/// Content of this many bytes or more cannot be digested.
pub const MAX_CONTENT_BYTES: u64 = 0x2000_0000_0000_0000;

/// The sixteen hexadecimal digits, in order of value.
pub open spec fn hex_alphabet() -> Seq<char> {
    seq!['0', '1', '2', '3', '4', '5', '6', '7', '8', '9', 'a', 'b', 'c', 'd', 'e', 'f']
}

/// The digit that stands for a value below sixteen.
pub open spec fn hex_char(nibble: int) -> char {
    hex_alphabet()[nibble]
}

/// Whether `c` is one of `0`-`9` or `a`-`f`.
pub open spec fn is_lower_hex(c: char) -> bool {
    ('0' <= c && c <= '9') || ('a' <= c && c <= 'f')
}

/// The character at position `i` of the hexadecimal text of `bytes`: even
/// positions carry the high four bits of a byte, odd positions the low four.
pub open spec fn hex_at(bytes: Seq<u8>, i: int) -> char {
    let b = bytes[i / 2];
    if i % 2 == 0 {
        hex_char((b >> 4) as int)
    } else {
        hex_char((b & 0x0f) as int)
    }
}

/// Two lowercase hexadecimal characters per byte, most significant first.
pub open spec fn hex(bytes: Seq<u8>) -> Seq<char> {
    Seq::new(2 * bytes.len(), |i: int| hex_at(bytes, i))
}

/// The SHA-1 digest of a byte sequence, as the `sha1` crate computes it.
pub uninterp spec fn sha1_digest(bytes: Seq<u8>) -> Seq<u8>;

/// The text under which content is stored and indexed.
pub open spec fn hex_digest(bytes: Seq<u8>) -> Seq<char> {
    hex(sha1_digest(bytes))
}

/// Whether `bytes` is short enough to be digested: SHA-1 is defined for
/// messages of fewer than 2^64 bits.
pub open spec fn digestible(bytes: Seq<u8>) -> bool {
    bytes.len() < MAX_CONTENT_BYTES
}

/// Whether `text` has the form of a digest: forty lowercase hexadecimal
/// characters.
pub open spec fn is_digest_text(text: Seq<char>) -> bool {
    &&& text.len() == DIGEST_CHARS
    &&& forall|i: int| 0 <= i < text.len() ==> is_lower_hex(#[trigger] text[i])
}

/// Runs `Sha1::new`, `update` and `finalize` of the `sha1` crate over `bytes`.
///
/// Trusted: the twenty bytes that come back depend on `bytes` alone. The
/// length bound keeps the hasher's count of message bits within the 64 bits
/// it has for it.
#[verifier::external_body]
fn sha1_raw(bytes: &[u8]) -> (digest: [u8; DIGEST_BYTES])
    requires
        digestible(bytes@),
    ensures
        digest@ == sha1_digest(bytes@),
{
    let mut hasher = Sha1::new();
    hasher.update(bytes);
    hasher.finalize().into()
}

proof fn lemma_alphabet()
    ensures
        hex_char(0) == '0' && hex_char(1) == '1' && hex_char(2) == '2' && hex_char(3) == '3',
        hex_char(4) == '4' && hex_char(5) == '5' && hex_char(6) == '6' && hex_char(7) == '7',
        hex_char(8) == '8' && hex_char(9) == '9' && hex_char(10) == 'a' && hex_char(11) == 'b',
        hex_char(12) == 'c' && hex_char(13) == 'd' && hex_char(14) == 'e' && hex_char(15) == 'f',
{
}

proof fn lemma_nibbles(b: u8)
    ensures
        (b >> 4) < 16,
        (b & 0x0f) < 16,
        b == (b >> 4) * 16 + (b & 0x0f),
{
    assert((b >> 4) < 16) by (bit_vector);
    assert((b & 0x0f) < 16) by (bit_vector);
    assert(b == (b >> 4) * 16 + (b & 0x0f)) by (bit_vector);
}

/// Equal content has the same digest: the text is a function of the bytes
/// and of nothing else, so hashing again, now or later, gives it again.
pub proof fn lemma_digest_depends_on_content_alone(first: Seq<u8>, second: Seq<u8>)
    requires
        first =~= second,
    ensures
        hex_digest(first) == hex_digest(second),
{
}

/// Every hexadecimal digit is a lowercase one.
pub proof fn lemma_hex_char_is_lower_hex(nibble: int)
    requires
        0 <= nibble < 16,
    ensures
        is_lower_hex(hex_char(nibble)),
{
    lemma_alphabet();
}

/// The hexadecimal text has two characters per byte, all lowercase digits.
pub proof fn lemma_hex_shape(bytes: Seq<u8>)
    ensures
        hex(bytes).len() == 2 * bytes.len(),
        forall|i: int| 0 <= i < hex(bytes).len() ==> is_lower_hex(#[trigger] hex(bytes)[i]),
{
    assert forall|i: int| 0 <= i < hex(bytes).len() implies is_lower_hex(
        #[trigger] hex(bytes)[i],
    ) by {
        let b = bytes[i / 2];
        lemma_nibbles(b);
        lemma_hex_char_is_lower_hex((b >> 4) as int);
        lemma_hex_char_is_lower_hex((b & 0x0f) as int);
    }
}

/// The digit for `nibble`, as a one-character string.
fn hex_digit(nibble: u8) -> (digit: &'static str)
    requires
        nibble < 16,
    ensures
        digit@ == seq![hex_char(nibble as int)],
{
    proof {
        reveal_strlit("0");
        reveal_strlit("1");
        reveal_strlit("2");
        reveal_strlit("3");
        reveal_strlit("4");
        reveal_strlit("5");
        reveal_strlit("6");
        reveal_strlit("7");
        reveal_strlit("8");
        reveal_strlit("9");
        reveal_strlit("a");
        reveal_strlit("b");
        reveal_strlit("c");
        reveal_strlit("d");
        reveal_strlit("e");
        reveal_strlit("f");
    }
    let digit = match nibble {
        0 => "0",
        1 => "1",
        2 => "2",
        3 => "3",
        4 => "4",
        5 => "5",
        6 => "6",
        7 => "7",
        8 => "8",
        9 => "9",
        10 => "a",
        11 => "b",
        12 => "c",
        13 => "d",
        14 => "e",
        _ => "f",
    };
    assert(digit@ =~= seq![hex_char(nibble as int)]);
    digit
}

/// Different values below sixteen have different digits.
proof fn lemma_hex_char_is_injective(first: int, second: int)
    requires
        0 <= first < 16,
        0 <= second < 16,
        hex_char(first) == hex_char(second),
    ensures
        first == second,
{
    lemma_alphabet();
}

/// The hexadecimal text loses nothing: bytes with the same text are the same
/// bytes. So two digests have the same text only if they are the same digest.
pub proof fn lemma_hex_is_injective(first: Seq<u8>, second: Seq<u8>)
    requires
        hex(first) == hex(second),
    ensures
        first == second,
{
    assert(hex(first).len() == 2 * first.len());
    assert(hex(second).len() == 2 * second.len());
    assert forall|k: int| 0 <= k < first.len() implies first[k] == second[k] by {
        let a = first[k];
        let b = second[k];
        lemma_nibbles(a);
        lemma_nibbles(b);
        assert((2 * k) / 2 == k && (2 * k) % 2 == 0);
        assert((2 * k + 1) / 2 == k && (2 * k + 1) % 2 == 1);
        assert(hex(first)[2 * k] == hex_at(first, 2 * k));
        assert(hex(second)[2 * k] == hex_at(second, 2 * k));
        assert(hex(first)[2 * k + 1] == hex_at(first, 2 * k + 1));
        assert(hex(second)[2 * k + 1] == hex_at(second, 2 * k + 1));
        lemma_hex_char_is_injective((a >> 4) as int, (b >> 4) as int);
        lemma_hex_char_is_injective((a & 0x0f) as int, (b & 0x0f) as int);
    }
    assert(first =~= second);
}

/// Renders bytes as lowercase hexadecimal, two characters per byte.
pub fn hex_encode(bytes: &[u8]) -> (text: String)
    ensures
        text@ == hex(bytes@),
        text@.len() == 2 * bytes@.len(),
        forall|i: int| 0 <= i < text@.len() ==> is_lower_hex(#[trigger] text@[i]),
{
    let mut text = String::new();
    let mut k: usize = 0;
    while k < bytes.len()
        invariant
            k <= bytes@.len(),
            text@ == hex(bytes@.take(k as int)),
        decreases bytes@.len() - k,
    {
        let b: u8 = bytes[k];
        proof {
            lemma_nibbles(b);
        }
        let ghost before = text@;
        text.append(hex_digit(b >> 4));
        text.append(hex_digit(b & 0x0f));
        proof {
            let shorter = bytes@.take(k as int);
            let longer = bytes@.take(k + 1);
            assert(text@ == before + seq![hex_char((b >> 4) as int)] + seq![
                hex_char((b & 0x0f) as int),
            ]);
            assert forall|i: int| 0 <= i < 2 * (k + 1) implies #[trigger] text@[i] == hex_at(
                longer,
                i,
            ) by {
                if i < 2 * k {
                    assert(text@[i] == hex(shorter)[i]);
                    assert(shorter[i / 2] == longer[i / 2]);
                } else {
                    assert(i / 2 == k);
                    assert(longer[i / 2] == b);
                }
            }
            assert(text@ =~= hex(longer));
        }
        k = k + 1;
    }
    proof {
        assert(bytes@.take(k as int) =~= bytes@);
        lemma_hex_shape(bytes@);
    }
    text
}

/// The digest of `bytes` as forty lowercase hexadecimal characters.
///
/// The text depends on the bytes alone, so equal content always gets the same
/// name, in this call and in any later one.
pub fn sha1_hex(bytes: &[u8]) -> (blob_id: String)
    requires
        digestible(bytes@),
    ensures
        blob_id@ == hex_digest(bytes@),
        is_digest_text(blob_id@),
{
    let raw = sha1_raw(bytes);
    hex_encode(raw.as_slice())
}

} // verus!
