//! Decoding of the digest field.
//!
//! The field is base64 over the alphabet `./0-9A-Za-z`, written with the
//! least significant character first. It is decoded by turning it round,
//! putting filler characters in front of it, decoding that as ordinary
//! base64, and turning the bytes round again.

use vstd::prelude::*;
use crate::alphabet::{alphabet_offset, lemma_sextet_round_trip, sextet_of};

verus! {

/// Why a run of characters does not decode.
///
/// Offsets count in the decoder's input, which is the field turned round
/// behind its filler characters.
#[derive(Clone, Copy, Debug, PartialEq, Eq, Structural)]
pub enum DecodeError {
    /// The byte at this offset is not acceptable there.
    InvalidByte(usize, u8),
    /// No run of this length encodes whole bytes.
    InvalidLength,
    /// The last character, at this offset, has bits set that belong to no
    /// byte.
    InvalidLastSymbol(usize, u8),
}

/// What decoding gives: bytes, or the reason why there are none.
pub type Decoded = Result<Seq<u8>, DecodeError>;

/// The filler character, which stands for the sextet 0.
pub const FILLER: u8 = 0x2e;

/// The length of a digest, in bytes.
pub const DIGEST_LEN: usize = 16;

/// Whether every byte of `s` is of the alphabet.
pub open spec fn all_in_alphabet(s: Seq<u8>) -> bool {
    forall|i: int| 0 <= i < s.len() ==> (#[trigger] sextet_of(s[i])) is Some
}

/// Whether `i` is the place of the first byte of `s` that is not of the
/// alphabet.
pub open spec fn is_first_foreign(s: Seq<u8>, i: int) -> bool {
    &&& 0 <= i < s.len()
    &&& sextet_of(s[i]) is None
    &&& forall|j: int| 0 <= j < i ==> (#[trigger] sextet_of(s[j])) is Some
}

/// The place of the first byte of `s` that is not of the alphabet.
pub open spec fn first_foreign(s: Seq<u8>) -> Option<int> {
    if all_in_alphabet(s) {
        None
    } else {
        Some(choose|i: int| is_first_foreign(s, i))
    }
}

/// The sextet that the byte at `i` stands for.
pub open spec fn sextet_at(s: Seq<u8>, i: int) -> int
    recommends
        0 <= i < s.len(),
        sextet_of(s[i]) is Some,
{
    match sextet_of(s[i]) {
        Some(v) => v as int,
        None => 0,
    }
}

/// Whether `s` is made of groups of four characters of the alphabet.
pub open spec fn whole_groups(s: Seq<u8>) -> bool {
    s.len() % 4 == 0 && all_in_alphabet(s)
}

/// Byte `i` of what the characters of `s` pack into: each four sextets make
/// three bytes, the bits in the order of the characters.
#[verifier::opaque]
pub open spec fn packed_byte(s: Seq<u8>, i: int) -> u8
    recommends
        0 <= i < s.len() / 4 * 3,
{
    let group: int = 4 * (i / 3);
    if i % 3 == 0 {
        (sextet_at(s, group) * 4 + sextet_at(s, group + 1) / 16) as u8
    } else if i % 3 == 1 {
        (sextet_at(s, group + 1) % 16 * 16 + sextet_at(s, group + 2) / 4) as u8
    } else {
        (sextet_at(s, group + 2) % 4 * 64 + sextet_at(s, group + 3)) as u8
    }
}

/// The bytes that whole groups of four characters pack into.
pub open spec fn packed(s: Seq<u8>) -> Seq<u8>
    recommends
        whole_groups(s),
{
    Seq::new((s.len() / 4 * 3) as nat, |i: int| packed_byte(s, i))
}

/// What `base64::decode_config` returns for `input` under `base64::CRYPT`.
pub uninterp spec fn crypt_decoded(input: Seq<u8>) -> Decoded;

/// What the decoder makes of `input`: written out for whole groups of
/// characters of the alphabet, and by name for every other input.
pub open spec fn decoder_output(input: Seq<u8>) -> Decoded {
    if whole_groups(input) {
        Ok(packed(input))
    } else {
        crypt_decoded(input)
    }
}

/// A result with its bytes as a sequence.
pub open spec fn bytes_of(r: Result<Vec<u8>, DecodeError>) -> Decoded {
    match r {
        Ok(bytes) => Ok(bytes@),
        Err(e) => Err(e),
    }
}

/// Calls `base64::decode_config` with `base64::CRYPT`, and hands over its
/// error variant by variant.
///
/// Not proved: that the result is determined by the bytes of `input`; and
/// that input made of whole groups of four characters of the alphabet is
/// accepted and packed, four sextets to three bytes, most significant bits
/// first. Of other input nothing is said but that the decoder's answer has a
/// name. Input of more than `isize::MAX` bytes is left out: the decoder panics
/// where its length calculations overflow.
#[verifier::external_body]
fn crypt_decode(input: &Vec<u8>) -> (r: Result<Vec<u8>, DecodeError>)
    requires
        input@.len() <= isize::MAX,
    ensures
        bytes_of(r) == crypt_decoded(input@),
        whole_groups(input@) ==> bytes_of(r) == Decoded::Ok(packed(input@)),
{
    match base64::decode_config(input, base64::CRYPT) {
        Ok(bytes) => Ok(bytes),
        Err(base64::DecodeError::InvalidByte(at, b)) => Err(DecodeError::InvalidByte(at, b)),
        Err(base64::DecodeError::InvalidLength) => Err(DecodeError::InvalidLength),
        Err(base64::DecodeError::InvalidLastSymbol(at, b)) => Err(
            DecodeError::InvalidLastSymbol(at, b),
        ),
    }
}

/// `val` turned round, behind one to three filler characters that bring the
/// length to a multiple of three.
pub open spec fn filled_reverse(val: Seq<u8>) -> Seq<u8> {
    Seq::new((3 - val.len() % 3) as nat, |i: int| FILLER) + val.reverse()
}

/// The last bytes of `bytes`, at most sixteen, last first.
pub open spec fn tail_reversed(bytes: Seq<u8>) -> Seq<u8> {
    Seq::new(
        if bytes.len() < DIGEST_LEN {
            bytes.len()
        } else {
            DIGEST_LEN as nat
        },
        |i: int| bytes[bytes.len() - 1 - i],
    )
}

/// What becomes of the decoder's answer to `input`: its error stands; bytes
/// that it gave for input with a byte outside the alphabet are refused at the
/// first such byte; and of other bytes the tail is taken, turned round.
pub open spec fn finished(input: Seq<u8>, decoded: Decoded) -> Decoded {
    match decoded {
        Err(e) => Err(e),
        Ok(bytes) => match first_foreign(input) {
            Some(at) => Err(DecodeError::InvalidByte(at as usize, input[at])),
            None => Ok(tail_reversed(bytes)),
        },
    }
}

/// What the field `val` decodes to.
pub open spec fn decoded64(val: Seq<u8>) -> Decoded {
    finished(filled_reverse(val), decoder_output(filled_reverse(val)))
}

/// Byte `j` of the digest that `field` spells, least significant bits first:
/// the characters are the digits, lowest first, of a number in base 64, and
/// the bytes of the digest are the digits, lowest first, of the same number
/// in base 256 (`radix::lemma_digest_is_number`).
pub open spec fn digest_byte(field: Seq<u8>, j: int) -> u8
    recommends
        0 <= j < DIGEST_LEN,
        field.len() == 22,
{
    let at: int = 4 * (j / 3) + j % 3;
    if j % 3 == 0 {
        (sextet_at(field, at) + sextet_at(field, at + 1) % 4 * 64) as u8
    } else if j % 3 == 1 {
        (sextet_at(field, at) / 4 + sextet_at(field, at + 1) % 16 * 16) as u8
    } else {
        (sextet_at(field, at) / 16 + sextet_at(field, at + 1) * 4) as u8
    }
}

/// The digest that a field of 22 characters spells.
pub open spec fn field_digest(field: Seq<u8>) -> Seq<u8>
    recommends
        field.len() == 22,
        all_in_alphabet(field),
{
    Seq::new(DIGEST_LEN as nat, |j: int| digest_byte(field, j))
}

/// The first byte outside the alphabet has one place only.
pub proof fn lemma_first_foreign_is(s: Seq<u8>, at: int)
    requires
        is_first_foreign(s, at),
    ensures
        first_foreign(s) == Some(at),
{
    let chosen: int = choose|i: int| is_first_foreign(s, i);
    assert(!(chosen < at) && !(at < chosen));
}

/// The decoder's input is as long as the field and its filler, and holds a
/// byte outside the alphabet exactly if the field holds one.
pub proof fn lemma_filled_reverse(val: Seq<u8>)
    ensures
        filled_reverse(val).len() == val.len() + 3 - val.len() % 3,
        filled_reverse(val).len() % 3 == 0,
        all_in_alphabet(filled_reverse(val)) == all_in_alphabet(val),
{
    let input: Seq<u8> = filled_reverse(val);
    let fill: int = 3 - val.len() % 3;
    let len: int = val.len() as int;
    if all_in_alphabet(val) {
        assert forall|i: int| 0 <= i < input.len() implies (#[trigger] sextet_of(input[i]))
            is Some by {
            if i >= fill {
                assert(input[i] == val[len - 1 - (i - fill)]);
            }
        }
    }
    if all_in_alphabet(input) {
        assert forall|i: int| 0 <= i < len implies (#[trigger] sextet_of(val[i])) is Some by {
            assert(sextet_of(input[fill + (len - 1 - i)]) is Some);
        }
    }
}

/// A field with a byte that is not of the alphabet does not decode.
pub proof fn lemma_foreign_byte_fails(val: Seq<u8>)
    requires
        !all_in_alphabet(val),
    ensures
        decoded64(val) is Err,
{
    lemma_filled_reverse(val);
}

/// A field of characters of the alphabet that fills up to whole groups of
/// four decodes: to the tail of what the filled field packs into, turned
/// round.
pub proof fn lemma_whole_field_decodes(val: Seq<u8>)
    requires
        all_in_alphabet(val),
        (val.len() + 3 - val.len() % 3) % 4 == 0,
    ensures
        decoded64(val) == Decoded::Ok(tail_reversed(packed(filled_reverse(val)))),
{
    lemma_filled_reverse(val);
}

/// The three bytes that group `q` of `s` packs into.
pub proof fn lemma_packed_group(s: Seq<u8>, q: int)
    requires
        0 <= q < s.len() / 4,
    ensures
        packed(s)[3 * q] == (sextet_at(s, 4 * q) * 4 + sextet_at(s, 4 * q + 1) / 16) as u8,
        packed(s)[3 * q + 1] == (sextet_at(s, 4 * q + 1) % 16 * 16 + sextet_at(s, 4 * q + 2)
            / 4) as u8,
        packed(s)[3 * q + 2] == (sextet_at(s, 4 * q + 2) % 4 * 64 + sextet_at(s, 4 * q + 3)) as u8,
{
    reveal(packed_byte);
}

/// Byte `j` of the digest that a field of 22 characters spells is byte
/// `17 - j` of what the filled field packs into.
proof fn lemma_decoded_byte(field: Seq<u8>, j: int)
    requires
        field.len() == 22,
        all_in_alphabet(field),
        0 <= j < DIGEST_LEN,
    ensures
        packed(filled_reverse(field))[17 - j] == digest_byte(field, j),
{
    let input: Seq<u8> = filled_reverse(field);
    let t: int = j / 3;
    lemma_filled_reverse(field);
    lemma_packed_group(input, 5 - t);
    assert forall|k: int| 2 <= k < 24 implies sextet_at(input, k) == sextet_at(field, 23 - k) by {
        assert(input[k] == field[23 - k]);
    }
    lemma_sextet_round_trip(field[4 * t]);
    lemma_sextet_round_trip(field[4 * t + 1]);
    if j % 3 >= 1 {
        lemma_sextet_round_trip(field[4 * t + 2]);
    }
    if j % 3 == 2 {
        lemma_sextet_round_trip(field[4 * t + 3]);
    }
}

/// A field of 22 characters of the alphabet decodes to the digest that it
/// spells, least significant bits first.
pub proof fn lemma_decodes_least_significant_first(field: Seq<u8>)
    requires
        field.len() == 22,
        all_in_alphabet(field),
    ensures
        decoded64(field) == Decoded::Ok(field_digest(field)),
{
    let bytes: Seq<u8> = packed(filled_reverse(field));
    lemma_filled_reverse(field);
    lemma_whole_field_decodes(field);
    assert forall|j: int| 0 <= j < DIGEST_LEN implies tail_reversed(bytes)[j] == field_digest(
        field,
    )[j] by {
        lemma_decoded_byte(field, j);
    }
    assert(tail_reversed(bytes) =~= field_digest(field));
}

/// Builds the decoder's input from a field.
pub fn reversed_with_filler(val: &[u8]) -> (input: Vec<u8>)
    ensures
        input@ == filled_reverse(val@),
{
    let len: usize = val.len();
    let fill: usize = 3 - len % 3;
    let mut input: Vec<u8> = Vec::new();
    let mut filled: usize = 0;
    while filled < fill
        invariant
            filled <= fill,
            input@ == Seq::new(filled as nat, |i: int| FILLER),
        decreases fill - filled,
    {
        input.push(FILLER);
        filled = filled + 1;
    }
    let mut left: usize = len;
    while left > 0
        invariant
            left <= len,
            len == val@.len(),
            fill == 3 - len % 3,
            input@.len() == fill + (len - left),
            forall|i: int| 0 <= i < fill ==> input@[i] == FILLER,
            forall|i: int| fill <= i < input@.len() ==> input@[i] == val@[len - 1 - (i - fill)],
        decreases left,
    {
        left = left - 1;
        input.push(val[left]);
    }
    input
}

/// Finds the first byte that is not of the alphabet.
pub fn find_foreign(s: &[u8]) -> (found: Option<usize>)
    ensures
        found matches Some(at) ==> first_foreign(s@) == Some(at as int) && is_first_foreign(
            s@,
            at as int,
        ),
        found is None ==> first_foreign(s@) is None && all_in_alphabet(s@),
{
    let mut at: usize = 0;
    while at < s.len()
        invariant
            at <= s.len(),
            forall|j: int| 0 <= j < at ==> (#[trigger] sextet_of(s@[j])) is Some,
        decreases s.len() - at,
    {
        if alphabet_offset(s[at]).is_none() {
            proof {
                lemma_first_foreign_is(s@, at as int);
            }
            return Some(at);
        }
        at = at + 1;
    }
    None
}

/// Takes the digest out of decoded bytes: the last sixteen of them, or as
/// many as there are, last first.
pub fn digest_of_decoded(bytes: &[u8]) -> (digest: Vec<u8>)
    ensures
        digest@ == tail_reversed(bytes@),
{
    let len: usize = bytes.len();
    let count: usize = if len < DIGEST_LEN {
        len
    } else {
        DIGEST_LEN
    };
    let mut digest: Vec<u8> = Vec::new();
    let mut taken: usize = 0;
    while taken < count
        invariant
            taken <= count <= len,
            len == bytes@.len(),
            digest@.len() == taken,
            forall|i: int| 0 <= i < taken ==> digest@[i] == bytes@[len - 1 - i],
        decreases count - taken,
    {
        digest.push(bytes[len - 1 - taken]);
        taken = taken + 1;
    }
    digest
}

/// Decides what a field decodes to, from the decoder's input and the
/// decoder's answer to it.
pub fn finish_decode(input: &[u8], decoded: Result<Vec<u8>, DecodeError>) -> (r: Result<
    Vec<u8>,
    DecodeError,
>)
    ensures
        bytes_of(r) == finished(input@, bytes_of(decoded)),
{
    match decoded {
        Err(e) => Err(e),
        Ok(bytes) => match find_foreign(input) {
            Some(at) => Err(DecodeError::InvalidByte(at, input[at])),
            None => Ok(digest_of_decoded(bytes.as_slice())),
        },
    }
}

/// Decodes a digest field.
///
/// The field is turned round and filled up, decoded as base64 over the
/// alphabet, and the last sixteen bytes of the result are returned, last
/// first. A field with a byte that is not of the alphabet is refused; one of
/// 22 characters of the alphabet gives the digest that it spells.
pub fn decode64(val: &[u8]) -> (r: Result<Vec<u8>, DecodeError>)
    requires
        val@.len() + 3 <= isize::MAX,
    ensures
        bytes_of(r) == decoded64(val@),
        !all_in_alphabet(val@) ==> r is Err,
        all_in_alphabet(val@) && (val@.len() + 3 - val@.len() % 3) % 4 == 0 ==> bytes_of(r)
            == Decoded::Ok(tail_reversed(packed(filled_reverse(val@)))),
        all_in_alphabet(val@) && val@.len() == 22 ==> bytes_of(r) == Decoded::Ok(
            field_digest(val@),
        ),
{
    proof {
        lemma_filled_reverse(val@);
        if all_in_alphabet(val@) && val@.len() == 22 {
            lemma_decodes_least_significant_first(val@);
        }
    }
    let input: Vec<u8> = reversed_with_filler(val);
    let decoded: Result<Vec<u8>, DecodeError> = crypt_decode(&input);
    finish_decode(input.as_slice(), decoded)
}

} // verus!
