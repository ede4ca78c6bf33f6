use vstd::prelude::*;
use vstd::string::StringSliceAdditionalSpecFns;
use vstd::utf8::{is_ascii_chars, is_ascii_chars_encode_utf8};

verus! {

/// A byte of the URL-safe base64 alphabet: a letter, a digit, `-` or `_`.
pub open spec fn in_alphabet(b: u8) -> bool {
    (0x41 <= b && b <= 0x5a) || (0x61 <= b && b <= 0x7a) || (0x30 <= b && b <= 0x39) || b == 0x2d
        || b == 0x5f
}

/// Bytes that the primitives can cut into code and material: every one is
/// of the URL-safe base64 alphabet, so that what stands behind a code
/// decodes to its full length, and the first is no digit from 4 to 9. Those
/// digits begin the codes of material of variable size, whose empty form the
/// primitives cannot read; no digest, key, signature or sequence number
/// begins with one of them.
pub open spec fn cuttable_bytes(bytes: Seq<u8>) -> bool {
    &&& forall|i: int| 0 <= i < bytes.len() ==> in_alphabet(#[trigger] bytes[i])
    &&& bytes.len() > 0 ==> !(0x34 <= bytes[0] && bytes[0] <= 0x39)
}

/// A text that the primitives can cut: it is ASCII, and its bytes can be
/// cut.
pub open spec fn cuttable(text: Seq<char>) -> bool {
    &&& is_ascii_chars(text)
    &&& forall|i: int| 0 <= i < text.len() ==> in_alphabet(#[trigger] text[i] as u8)
    &&& text.len() > 0 ==> !(0x34 <= text[0] as u8 && text[0] as u8 <= 0x39)
}

/// Whether a byte is of the alphabet.
pub fn is_in_alphabet(b: u8) -> (r: bool)
    ensures
        r == in_alphabet(b),
{
    (0x41 <= b && b <= 0x5a) || (0x61 <= b && b <= 0x7a) || (0x30 <= b && b <= 0x39) || b == 0x2d
        || b == 0x5f
}

/// Whether bytes can be cut.
pub fn are_cuttable(bytes: &[u8]) -> (r: bool)
    ensures
        r == cuttable_bytes(bytes@),
{
    let mut i: usize = 0;
    while i < bytes.len()
        invariant
            i <= bytes.len(),
            forall|k: int| 0 <= k < i ==> in_alphabet(#[trigger] bytes@[k]),
        decreases bytes.len() - i,
    {
        if !is_in_alphabet(bytes[i]) {
            return false;
        }
        i = i + 1;
    }
    if bytes.len() == 0 {
        return true;
    }
    let first = bytes[0];
    !(first >= 0x34 && first <= 0x39)
}

/// Whether a text can be cut.
pub fn is_cuttable(text: &str) -> (r: bool)
    ensures
        r == cuttable(text@),
{
    if !text.is_ascii() {
        return false;
    }
    proof {
        is_ascii_chars_encode_utf8(text@);
    }
    let bytes = text.as_bytes();
    let r = are_cuttable(bytes);
    proof {
        assert(bytes@.len() == text@.len());
        assert forall|i: int| 0 <= i < text@.len() implies bytes@[i] == #[trigger] text@[i] as u8 by {}
        if r {
            assert forall|i: int| 0 <= i < text@.len() implies in_alphabet(
                #[trigger] text@[i] as u8,
            ) by {
                assert(in_alphabet(bytes@[i]));
            }
        } else if cuttable(text@) {
            assert forall|i: int| 0 <= i < bytes@.len() implies in_alphabet(
                #[trigger] bytes@[i],
            ) by {
                assert(in_alphabet(text@[i] as u8));
            }
        }
    }
    r
}

} // verus!
