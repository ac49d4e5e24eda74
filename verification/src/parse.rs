//! Splitting an encoded hash into its fields.

use vstd::prelude::*;
use vstd::arithmetic::power2::{lemma2_to64, lemma_pow2_strictly_increases, pow2};
use vstd::bits::lemma_usize_shl_is_mul;
use vstd::string::{is_ascii_spec_bytes, StringSliceAdditionalSpecFns};
use vstd::utf8::is_ascii_chars;
use crate::alphabet::{alphabet_offset, sextet_of};
use crate::ascii::{all_ascii, ascii_bytes, lemma_ascii_by_bytes};
use crate::bytes::same_bytes;
use crate::crypt64::DecodeError;

verus! {

/// Why an encoded hash was refused.
#[derive(Clone, Copy, Debug, PartialEq, Eq, Structural)]
pub enum InvalidHash {
    /// The string is not made of 34 ASCII characters.
    BadLength,
    /// The string does not begin with `$H$`.
    UnsupportedHashType,
    /// The fourth character is not one of those at positions 7 to 30 of the
    /// alphabet.
    InvalidRounds,
    /// The digest field does not decode.
    InvalidBase64(DecodeError),
}

/// The fields of an encoded hash, borrowed from the string they were read
/// from.
#[derive(Debug)]
pub struct PhpbbHash<'a> {
    hash_type: &'a [u8],
    rounds: usize,
    salt: &'a [u8],
    hashed: &'a [u8],
}

/// What a `PhpbbHash` holds.
pub struct HashFields {
    /// The tag of the scheme.
    pub hash_type: Seq<u8>,
    /// How many times the first digest is hashed again.
    pub rounds: nat,
    /// The salt, as it stands in the string.
    pub salt: Seq<u8>,
    /// The digest field, as it stands in the string.
    pub hashed: Seq<u8>,
}

/// Fields, or the reason why there are none.
pub type Parsed = Result<HashFields, InvalidHash>;

/// The length of an encoded hash, in characters, all of which are ASCII.
pub const HASH_LEN: usize = 34;

/// The tag of the one scheme that is supported.
pub const HASH_TYPE: &'static str = "$H$";

/// The lowest position in the alphabet that stands for a number of rounds.
pub const MIN_ROUNDS_OFFSET: u8 = 7;

/// The highest position in the alphabet that stands for a number of rounds.
pub const MAX_ROUNDS_OFFSET: u8 = 30;

/// The bytes of the tag `$H$`.
pub open spec fn hash_tag() -> Seq<u8> {
    seq![0x24u8, 0x48u8, 0x24u8]
}

/// Whether `s` has the length of an encoded hash: it is made of 34
/// characters, and all of them are ASCII.
pub open spec fn has_hash_length(s: Seq<char>) -> bool {
    s.len() == HASH_LEN && is_ascii_chars(s)
}

/// Whether the first three bytes of `bytes` are the tag.
pub open spec fn begins_with_tag(bytes: Seq<u8>) -> bool {
    bytes.subrange(0, 3) == hash_tag()
}

/// Whether `b` stands for a number of rounds: it is one of the bytes at
/// positions 7 to 30 of the alphabet.
pub open spec fn names_rounds(b: u8) -> bool {
    sextet_of(b) matches Some(offset) && MIN_ROUNDS_OFFSET <= offset <= MAX_ROUNDS_OFFSET
}

/// The fields that stand in the 34 bytes `bytes`, or the reason why there
/// are none.
pub open spec fn parsed_bytes(bytes: Seq<u8>) -> Parsed
    recommends
        bytes.len() == HASH_LEN,
{
    if !begins_with_tag(bytes) {
        Err(InvalidHash::UnsupportedHashType)
    } else if !names_rounds(bytes[3]) {
        Err(InvalidHash::InvalidRounds)
    } else {
        Ok(
            HashFields {
                hash_type: bytes.subrange(0, 3),
                rounds: pow2(sextet_of(bytes[3])->Some_0 as nat),
                salt: bytes.subrange(4, 12),
                hashed: bytes.subrange(12, 34),
            },
        )
    }
}

/// The fields of the encoded hash `s`, or the reason why it has none.
///
/// A string that is not made of 34 ASCII characters has a bad length, whatever
/// else it holds; of any other, the bytes are looked at.
pub open spec fn parsed(s: Seq<char>) -> Parsed {
    if !has_hash_length(s) {
        Err(InvalidHash::BadLength)
    } else {
        parsed_bytes(ascii_bytes(s))
    }
}

/// Whether `fields` can be those of an encoded hash: the tag, a power of two
/// from 2^7 to 2^30, eight bytes of salt and 22 of digest field, none of them
/// above 0x7f.
pub open spec fn well_formed(fields: HashFields) -> bool {
    &&& fields.hash_type == hash_tag()
    &&& exists|offset: nat|
        MIN_ROUNDS_OFFSET <= offset <= MAX_ROUNDS_OFFSET && fields.rounds == #[trigger] pow2(
            offset,
        )
    &&& fields.salt.len() == 8
    &&& fields.hashed.len() == 22
    &&& all_ascii(fields.salt)
    &&& all_ascii(fields.hashed)
}

impl<'a> View for PhpbbHash<'a> {
    type V = HashFields;

    closed spec fn view(&self) -> HashFields {
        HashFields {
            hash_type: self.hash_type@,
            rounds: self.rounds as nat,
            salt: self.salt@,
            hashed: self.hashed@,
        }
    }
}

impl<'a> PhpbbHash<'a> {
    /// The tag of the scheme.
    pub fn hash_type(&self) -> (hash_type: &'a [u8])
        ensures
            hash_type@ == self@.hash_type,
    {
        self.hash_type
    }

    /// How many times the first digest is hashed again.
    pub fn rounds(&self) -> (rounds: usize)
        ensures
            rounds == self@.rounds,
    {
        self.rounds
    }

    /// The salt.
    pub fn salt(&self) -> (salt: &'a [u8])
        ensures
            salt@ == self@.salt,
    {
        self.salt
    }

    /// The digest field.
    pub fn hashed(&self) -> (hashed: &'a [u8])
        ensures
            hashed@ == self@.hashed,
    {
        self.hashed
    }
}

/// A result with what its hash holds.
pub open spec fn fields_of(r: Result<PhpbbHash<'_>, InvalidHash>) -> Parsed {
    match r {
        Ok(hash) => Ok(hash@),
        Err(reason) => Err(reason),
    }
}

/// The constant `HASH_TYPE` spells the tag.
pub proof fn lemma_tag_string()
    ensures
        HASH_TYPE.spec_bytes() == hash_tag(),
{
    reveal_strlit("$H$");
    is_ascii_spec_bytes(HASH_TYPE);
}

/// The fields of an encoded hash are well formed, and the tag, the byte of
/// the rounds, the salt and the digest field, one behind the other, are the
/// bytes of the encoded hash.
pub proof fn lemma_parsed_well_formed(s: Seq<char>)
    requires
        parsed(s) is Ok,
    ensures
        has_hash_length(s),
        well_formed(parsed(s)->Ok_0),
        parsed(s)->Ok_0.hash_type + seq![ascii_bytes(s)[3]] + parsed(s)->Ok_0.salt + parsed(
            s,
        )->Ok_0.hashed == ascii_bytes(s),
{
}

/// A string has the length of an encoded hash exactly if it is 34 bytes long
/// and none of its bytes is above 0x7f. Its bytes are then its characters.
pub proof fn lemma_hash_length(s: &str)
    ensures
        has_hash_length(s@) <==> s.spec_bytes().len() == HASH_LEN && all_ascii(s.spec_bytes()),
        has_hash_length(s@) <==> s.spec_bytes().len() == HASH_LEN && s.is_ascii(),
        s.is_ascii() ==> s.spec_bytes() == ascii_bytes(s@),
{
    lemma_ascii_by_bytes(s@);
}

/// The number of rounds that the position `offset` stands for.
fn rounds_of(offset: u8) -> (rounds: usize)
    requires
        offset <= MAX_ROUNDS_OFFSET,
    ensures
        rounds == pow2(offset as nat),
{
    let shift: usize = offset as usize;
    proof {
        lemma2_to64();
        if shift < 30 {
            lemma_pow2_strictly_increases(shift as nat, 30);
        }
        lemma_usize_shl_is_mul(1usize, shift);
    }
    1usize << shift
}

/// Parses an encoded hash, such as `$H$9/O41.qQjQNlleivjbckbSNpfS4xgh0`.
///
/// The string must be made of 34 ASCII characters. Its first three are the
/// tag, the fourth stands for the number of rounds, the next eight are the
/// salt and the last 22 the digest field, which is not looked at.
pub fn parse_hash<'a>(salted_hash: &'a str) -> (r: Result<PhpbbHash<'a>, InvalidHash>)
    ensures
        fields_of(r) == parsed(salted_hash@),
        salted_hash@.len() != HASH_LEN ==> fields_of(r) == Parsed::Err(InvalidHash::BadLength),
        !salted_hash.is_ascii() ==> fields_of(r) == Parsed::Err(InvalidHash::BadLength),
        r matches Ok(hash) ==> well_formed(hash@),
{
    let bytes: &[u8] = salted_hash.as_bytes();
    proof {
        lemma_hash_length(salted_hash);
    }
    if bytes.len() != HASH_LEN || !salted_hash.is_ascii() {
        return Err(InvalidHash::BadLength);
    }
    let hash_type: &[u8] = &bytes[0..3];
    proof {
        lemma_tag_string();
    }
    if !same_bytes(hash_type, HASH_TYPE.as_bytes()) {
        return Err(InvalidHash::UnsupportedHashType);
    }
    let rounds: usize = match alphabet_offset(bytes[3]) {
        Some(offset) if MIN_ROUNDS_OFFSET <= offset && offset <= MAX_ROUNDS_OFFSET => rounds_of(
            offset,
        ),
        _ => return Err(InvalidHash::InvalidRounds),
    };
    let salt: &[u8] = &bytes[4..12];
    let hashed: &[u8] = &bytes[12..34];
    proof {
        lemma_parsed_well_formed(salted_hash@);
    }
    Ok(PhpbbHash { hash_type, rounds, salt, hashed })
}

} // verus!
