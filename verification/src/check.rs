//! Checking a password against an encoded hash.

use vstd::prelude::*;
use vstd::string::StringSliceAdditionalSpecFns;
use crate::bytes::same_bytes;
use crate::crypt64::{
    all_in_alphabet, decode64, decoded64, field_digest, lemma_decodes_least_significant_first,
    lemma_foreign_byte_fails,
};
use crate::digest::{stretch, stretched};
use crate::ascii::ascii_bytes;
use crate::parse::{
    begins_with_tag, has_hash_length, names_rounds, parse_hash, parsed, InvalidHash, PhpbbHash,
    HASH_LEN,
};

verus! {

/// The outcome of checking a password against an encoded hash.
#[derive(Clone, Copy, Debug, PartialEq, Eq, Structural)]
pub enum CheckHashResult {
    /// The password gives the digest of the hash.
    Valid,
    /// The password is longer than 4096 bytes.
    PasswordTooLong,
    /// The encoded hash is not one.
    InvalidHash(InvalidHash),
    /// The password gives another digest.
    Invalid,
}

/// The length of the longest password that is hashed, in bytes.
pub const MAX_PASSWORD_LEN: usize = 4096;

/// The outcome of comparing the digest of a password with that of a hash.
pub open spec fn compared(computed: Seq<u8>, expected: Seq<u8>) -> CheckHashResult {
    if computed == expected {
        CheckHashResult::Valid
    } else {
        CheckHashResult::Invalid
    }
}

/// The outcome of checking the bytes `password` against the encoded hash
/// `salted_hash`.
pub open spec fn outcome(salted_hash: Seq<char>, password: Seq<u8>) -> CheckHashResult {
    if password.len() > MAX_PASSWORD_LEN {
        CheckHashResult::PasswordTooLong
    } else {
        match parsed(salted_hash) {
            Err(reason) => CheckHashResult::InvalidHash(reason),
            Ok(fields) => match decoded64(fields.hashed) {
                Err(e) => CheckHashResult::InvalidHash(InvalidHash::InvalidBase64(e)),
                Ok(digest) => compared(
                    stretched(fields.salt, password, fields.rounds),
                    digest,
                ),
            },
        }
    }
}

/// Whether checking `password` against `salted_hash` comes to comparing two
/// digests: the password is not too long, the hash parses, and its digest
/// field is made of characters of the alphabet.
pub open spec fn comparable(salted_hash: Seq<char>, password: Seq<u8>) -> bool {
    &&& password.len() <= MAX_PASSWORD_LEN
    &&& parsed(salted_hash) matches Ok(fields)
    &&& all_in_alphabet(fields.hashed)
}

/// The digest that the password gives under the salt and the rounds of
/// `salted_hash`.
pub open spec fn computed_digest(salted_hash: Seq<char>, password: Seq<u8>) -> Seq<u8>
    recommends
        parsed(salted_hash) is Ok,
{
    stretched(parsed(salted_hash)->Ok_0.salt, password, parsed(salted_hash)->Ok_0.rounds)
}

/// The digest that the digest field of `salted_hash` spells.
pub open spec fn expected_digest(salted_hash: Seq<char>) -> Seq<u8>
    recommends
        parsed(salted_hash) is Ok,
{
    field_digest(parsed(salted_hash)->Ok_0.hashed)
}

/// Which outcome comes on which input.
///
/// `PasswordTooLong` comes for a password of more than 4096 bytes, and for no
/// other. For shorter ones: a string that does not parse is refused for the
/// reason that parsing gives, which is `BadLength` unless the string is made
/// of 34 ASCII characters; one that parses and has a byte outside the
/// alphabet in its digest field is refused with `InvalidBase64`; and for every
/// other string the outcome is `Valid` if the iterated digest of salt and
/// password is the digest that the field spells, and `Invalid` if it is not.
pub proof fn lemma_outcome_cases(salted_hash: Seq<char>, password: Seq<u8>)
    ensures
        outcome(salted_hash, password) == CheckHashResult::PasswordTooLong <==> password.len()
            > MAX_PASSWORD_LEN,
        password.len() <= MAX_PASSWORD_LEN && !has_hash_length(salted_hash) ==> outcome(
            salted_hash,
            password,
        ) == CheckHashResult::InvalidHash(InvalidHash::BadLength),
        password.len() <= MAX_PASSWORD_LEN && parsed(salted_hash) is Err ==> outcome(
            salted_hash,
            password,
        ) == CheckHashResult::InvalidHash(parsed(salted_hash)->Err_0),
        password.len() <= MAX_PASSWORD_LEN && parsed(salted_hash) is Ok && !comparable(
            salted_hash,
            password,
        ) ==> outcome(salted_hash, password) matches CheckHashResult::InvalidHash(
            InvalidHash::InvalidBase64(_),
        ),
        comparable(salted_hash, password) ==> outcome(salted_hash, password) == compared(
            computed_digest(salted_hash, password),
            expected_digest(salted_hash),
        ),
        outcome(salted_hash, password) == CheckHashResult::Valid <==> comparable(
            salted_hash,
            password,
        ) && computed_digest(salted_hash, password) == expected_digest(salted_hash),
        outcome(salted_hash, password) == CheckHashResult::Invalid <==> comparable(
            salted_hash,
            password,
        ) && computed_digest(salted_hash, password) != expected_digest(salted_hash),
{
    if password.len() <= MAX_PASSWORD_LEN {
        if let Ok(fields) = parsed(salted_hash) {
            if all_in_alphabet(fields.hashed) {
                lemma_decodes_least_significant_first(fields.hashed);
            } else {
                lemma_foreign_byte_fails(fields.hashed);
            }
        }
    }
}

/// Checking is a function of its arguments: whatever two checks of one
/// password against one encoded hash return, they return the same.
pub proof fn lemma_check_deterministic(
    salted_hash: &str,
    password: &str,
    first: CheckHashResult,
    second: CheckHashResult,
)
    requires
        first == outcome(salted_hash@, password.spec_bytes()),
        second == outcome(salted_hash@, password.spec_bytes()),
    ensures
        first == second,
{
}

/// Compares the digest computed from a password with the one decoded from a
/// hash.
pub fn verdict(computed: &[u8], expected: &[u8]) -> (r: CheckHashResult)
    ensures
        r == compared(computed@, expected@),
{
    if same_bytes(computed, expected) {
        CheckHashResult::Valid
    } else {
        CheckHashResult::Invalid
    }
}

/// Checks a password against an encoded hash.
///
/// A password of more than 4096 bytes is refused before the hash is looked
/// at. Then the hash is parsed and its digest field decoded; the digest of
/// salt and password is computed and hashed again, together with the
/// password, as many times as the hash says; and the result is compared with
/// the decoded digest. So a hash that parses and has a digest field of
/// characters of the alphabet is `Valid` for the passwords whose iterated
/// digest the field spells, and `Invalid` for all others.
pub fn check_hash(salted_hash: &str, password: &str) -> (r: CheckHashResult)
    ensures
        r == outcome(salted_hash@, password.spec_bytes()),
        password.spec_bytes().len() > MAX_PASSWORD_LEN ==> r == CheckHashResult::PasswordTooLong,
        password.spec_bytes().len() <= MAX_PASSWORD_LEN && salted_hash@.len() != HASH_LEN ==> r
            == CheckHashResult::InvalidHash(InvalidHash::BadLength),
        password.spec_bytes().len() <= MAX_PASSWORD_LEN && !salted_hash.is_ascii() ==> r
            == CheckHashResult::InvalidHash(InvalidHash::BadLength),
        password.spec_bytes().len() <= MAX_PASSWORD_LEN && has_hash_length(salted_hash@)
            && !begins_with_tag(ascii_bytes(salted_hash@)) ==> r == CheckHashResult::InvalidHash(
            InvalidHash::UnsupportedHashType,
        ),
        password.spec_bytes().len() <= MAX_PASSWORD_LEN && has_hash_length(salted_hash@)
            && begins_with_tag(ascii_bytes(salted_hash@)) && !names_rounds(
            ascii_bytes(salted_hash@)[3],
        ) ==> r == CheckHashResult::InvalidHash(InvalidHash::InvalidRounds),
        r == CheckHashResult::Valid <==> comparable(salted_hash@, password.spec_bytes())
            && computed_digest(salted_hash@, password.spec_bytes()) == expected_digest(
            salted_hash@,
        ),
        r == CheckHashResult::Invalid <==> comparable(salted_hash@, password.spec_bytes())
            && computed_digest(salted_hash@, password.spec_bytes()) != expected_digest(
            salted_hash@,
        ),
{
    proof {
        lemma_outcome_cases(salted_hash@, password.spec_bytes());
    }
    let password_bytes: &[u8] = password.as_bytes();
    if password_bytes.len() > MAX_PASSWORD_LEN {
        return CheckHashResult::PasswordTooLong;
    }
    let hash: PhpbbHash = match parse_hash(salted_hash) {
        Ok(hash) => hash,
        Err(reason) => return CheckHashResult::InvalidHash(reason),
    };
    let expected: Vec<u8> = match decode64(hash.hashed()) {
        Ok(digest) => digest,
        Err(e) => return CheckHashResult::InvalidHash(InvalidHash::InvalidBase64(e)),
    };
    let computed: [u8; 16] = stretch(hash.salt(), password_bytes, hash.rounds());
    verdict(&computed, expected.as_slice())
}

} // verus!
