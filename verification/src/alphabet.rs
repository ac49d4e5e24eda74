//! The alphabet `./0-9A-Za-z`, in which a character stands for its position.

use vstd::prelude::*;
use vstd::string::{is_ascii_spec_bytes, StringSliceAdditionalSpecFns};

verus! {

/// The alphabet, character by character.
pub const ALPHABET: &'static str =
    "./0123456789ABCDEFGHIJKLMNOPQRSTUVWXYZabcdefghijklmnopqrstuvwxyz";

/// The byte at position `i` of the alphabet.
pub open spec fn alphabet_byte(i: int) -> u8
    recommends
        0 <= i < 64,
{
    if i < 2 {
        (0x2e + i) as u8
    } else if i < 12 {
        (0x30 + (i - 2)) as u8
    } else if i < 38 {
        (0x41 + (i - 12)) as u8
    } else {
        (0x61 + (i - 38)) as u8
    }
}

/// The alphabet as a sequence of 64 bytes.
pub open spec fn alphabet() -> Seq<u8> {
    Seq::new(64, |i: int| alphabet_byte(i))
}

/// The position of `b` in the alphabet, a number below 64, or `None` where
/// `b` is not in it.
pub open spec fn sextet_of(b: u8) -> Option<u8> {
    if b == 0x2e || b == 0x2f {
        Some((b - 0x2e) as u8)
    } else if 0x30 <= b <= 0x39 {
        Some((b - 0x30 + 2) as u8)
    } else if 0x41 <= b <= 0x5a {
        Some((b - 0x41 + 12) as u8)
    } else if 0x61 <= b <= 0x7a {
        Some((b - 0x61 + 38) as u8)
    } else {
        None
    }
}

/// The constant `ALPHABET` spells the alphabet.
pub proof fn lemma_alphabet_string()
    ensures
        ALPHABET.spec_bytes() == alphabet(),
{
    reveal_strlit("./0123456789ABCDEFGHIJKLMNOPQRSTUVWXYZabcdefghijklmnopqrstuvwxyz");
    is_ascii_spec_bytes(ALPHABET);
}

/// `sextet_of` is the position in the alphabet: it gives `i` for `b` exactly
/// when `b` is the byte at position `i`.
pub proof fn lemma_sextet_is_position(b: u8, i: int)
    requires
        0 <= i < 64,
    ensures
        sextet_of(b) == Some(i as u8) <==> alphabet()[i] == b,
{
}

/// A byte of the alphabet stands at the position that it stands for.
pub proof fn lemma_sextet_round_trip(b: u8)
    requires
        sextet_of(b) is Some,
    ensures
        0 <= sextet_of(b)->Some_0 < 64,
        alphabet_byte(sextet_of(b)->Some_0 as int) == b,
{
}

/// The byte at a position of the alphabet stands for that position.
pub proof fn lemma_position_round_trip(i: int)
    requires
        0 <= i < 64,
    ensures
        sextet_of(alphabet_byte(i)) == Some(i as u8),
{
}

/// Looks `b` up in the alphabet.
pub fn alphabet_offset(b: u8) -> (offset: Option<u8>)
    ensures
        offset == sextet_of(b),
{
    if b == 0x2e || b == 0x2f {
        Some(b - 0x2e)
    } else if 0x30 <= b && b <= 0x39 {
        Some(b - 0x30 + 2)
    } else if 0x41 <= b && b <= 0x5a {
        Some(b - 0x41 + 12)
    } else if 0x61 <= b && b <= 0x7a {
        Some(b - 0x61 + 38)
    } else {
        None
    }
}

} // verus!
