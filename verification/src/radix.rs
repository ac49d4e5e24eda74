//! The digest field and the digest as two spellings of one number.
//!
//! The characters of a field are the digits of a number in base 64, lowest
//! first, and the bytes of the digest are the digits of that number in base
//! 256, lowest first. The laws of this module say so of the decoding and of
//! the encoding.

use vstd::prelude::*;
use crate::alphabet::lemma_sextet_round_trip;
use crate::crypt64::{all_in_alphabet, digest_byte, field_digest, sextet_at, DIGEST_LEN};
use crate::encoding::{encoded64, lemma_encode_then_decode, lemma_encoding_spells_digest};

verus! {

/// The number whose digits in base `base`, lowest first, are those of
/// `digits` from place `from` on.
pub open spec fn number_from(digits: Seq<int>, base: int, from: int) -> int
    decreases digits.len() - from,
{
    if from >= digits.len() {
        0
    } else {
        digits[from] + base * number_from(digits, base, from + 1)
    }
}

/// The number whose digits in base `base`, lowest first, are `digits`.
pub open spec fn number(digits: Seq<int>, base: int) -> int {
    number_from(digits, base, 0)
}

/// The number of values that a digest of sixteen bytes can take, 2^128.
pub open spec fn digest_range() -> int {
    0x1_0000_0000_0000_0000_0000_0000_0000_0000int
}

/// The sextets that the characters of `field` stand for.
pub open spec fn sextets(field: Seq<u8>) -> Seq<int> {
    Seq::new(field.len(), |i: int| sextet_at(field, i))
}

/// The bytes of `bytes` as numbers.
pub open spec fn octets(bytes: Seq<u8>) -> Seq<int> {
    Seq::new(bytes.len(), |i: int| bytes[i] as int)
}

/// Whether digits `3 * t` to `3 * t + 2` of `b`, in base 256, hold the bits of
/// digits `4 * t` to `4 * t + 3` of `s`, in base 64, lowest first.
spec fn group_regrouped(s: Seq<int>, b: Seq<int>, t: int) -> bool {
    &&& b[3 * t] == s[4 * t] + s[4 * t + 1] % 4 * 64
    &&& b[3 * t + 1] == s[4 * t + 1] / 4 + s[4 * t + 2] % 16 * 16
    &&& b[3 * t + 2] == s[4 * t + 2] / 16 + s[4 * t + 3] * 4
}

/// Whether the sixteen digits `b` in base 256 hold the bits of the 22 digits
/// `s` in base 64, lowest first, as far as they have room for them.
spec fn regrouped(s: Seq<int>, b: Seq<int>) -> bool {
    &&& s.len() == 22
    &&& b.len() == 16
    &&& forall|i: int| 0 <= i < 22 ==> 0 <= #[trigger] s[i] < 64
    &&& group_regrouped(s, b, 0)
    &&& group_regrouped(s, b, 1)
    &&& group_regrouped(s, b, 2)
    &&& group_regrouped(s, b, 3)
    &&& group_regrouped(s, b, 4)
    &&& b[15] == s[20] + s[21] % 4 * 64
}

/// Four digits in base 64 and the three digits in base 256 that hold the
/// same 24 bits carry the same number in front of what follows them.
proof fn lemma_group(s: Seq<int>, b: Seq<int>, t: int)
    requires
        0 <= t,
        4 * t + 4 <= s.len(),
        3 * t + 3 <= b.len(),
        group_regrouped(s, b, t),
    ensures
        number_from(s, 64, 4 * t) - number_from(b, 256, 3 * t) == 0x100_0000 * (number_from(
            s,
            64,
            4 * t + 4,
        ) - number_from(b, 256, 3 * t + 3)),
{
    reveal_with_fuel(number_from, 5);
    let rest_s: int = number_from(s, 64, 4 * t + 4);
    let rest_b: int = number_from(b, 256, 3 * t + 3);
    assert(number_from(s, 64, 4 * t) == s[4 * t] + 64 * (s[4 * t + 1] + 64 * (s[4 * t + 2] + 64
        * (s[4 * t + 3] + 64 * rest_s))));
    assert(number_from(b, 256, 3 * t) == b[3 * t] + 256 * (b[3 * t + 1] + 256 * (b[3 * t + 2]
        + 256 * rest_b)));
}

/// Sixteen digits in base 256 spell a number below 2^128.
proof fn lemma_sixteen_octets(b: Seq<int>)
    requires
        b.len() == 16,
        forall|j: int| 0 <= j < 16 ==> 0 <= #[trigger] b[j] < 256,
    ensures
        0 <= number(b, 256) < digest_range(),
{
    reveal_with_fuel(number_from, 5);
    assert(0 <= number_from(b, 256, 12) < 0x1_0000_0000);
    assert(0 <= number_from(b, 256, 8) < 0x1_0000_0000_0000_0000);
    assert(0 <= number_from(b, 256, 4) < 0x1_0000_0000_0000_0000_0000_0000int);
}

/// Digits regrouped from base 64 to base 256 are digits in base 256.
proof fn lemma_regrouped_octets(s: Seq<int>, b: Seq<int>)
    requires
        regrouped(s, b),
    ensures
        forall|j: int| 0 <= j < 16 ==> 0 <= #[trigger] b[j] < 256,
{
    assert forall|j: int| 0 <= j < 16 implies 0 <= #[trigger] b[j] < 256 by {
        let t: int = j / 3;
        assert(j == 3 * t || j == 3 * t + 1 || j == 3 * t + 2);
        assert(0 <= s[4 * t] < 64 && 0 <= s[4 * t + 1] < 64);
        if t < 5 {
            assert(0 <= s[4 * t + 2] < 64 && 0 <= s[4 * t + 3] < 64);
            assert(group_regrouped(s, b, t));
        }
    }
}

/// Digits regrouped from base 64 to base 256 spell the same number, but for
/// the four highest bits of the last digit in base 64, which are dropped.
proof fn lemma_regrouped_number(s: Seq<int>, b: Seq<int>)
    requires
        regrouped(s, b),
    ensures
        0 <= number(b, 256) < digest_range(),
        number(s, 64) == number(b, 256) + s[21] / 4 * digest_range(),
{
    lemma_regrouped_octets(s, b);
    lemma_sixteen_octets(b);
    lemma_group(s, b, 0);
    lemma_group(s, b, 1);
    lemma_group(s, b, 2);
    lemma_group(s, b, 3);
    lemma_group(s, b, 4);
    assert(number_from(s, 64, 20) - number_from(b, 256, 15) == 256 * (s[21] / 4)) by {
        reveal_with_fuel(number_from, 3);
        assert(0 <= s[21] < 64);
    }
}

/// The bytes of the digest that a field spells hold the bits of its
/// characters.
proof fn lemma_digest_regrouped(field: Seq<u8>)
    requires
        field.len() == 22,
        all_in_alphabet(field),
    ensures
        regrouped(sextets(field), octets(field_digest(field))),
{
    let s: Seq<int> = sextets(field);
    assert forall|i: int| 0 <= i < 22 implies 0 <= #[trigger] s[i] < 64 by {
        lemma_sextet_round_trip(field[i]);
    }
    lemma_digest_groups(field, 0);
    lemma_digest_groups(field, 1);
    lemma_digest_groups(field, 2);
    lemma_digest_groups(field, 3);
    lemma_digest_groups(field, 4);
    lemma_digest_last_byte(field);
}

/// The digest that a field spells is the number that the field spells in
/// base 64, written in base 256, as far as sixteen bytes hold it: the four
/// highest bits of the 22nd character are dropped.
pub proof fn lemma_digest_is_number(field: Seq<u8>)
    requires
        field.len() == 22,
        all_in_alphabet(field),
    ensures
        number(octets(field_digest(field)), 256) == number(sextets(field), 64) % digest_range(),
        sextet_at(field, 21) < 4 ==> number(octets(field_digest(field)), 256) == number(
            sextets(field),
            64,
        ),
{
    let s: Seq<int> = sextets(field);
    let b: Seq<int> = octets(field_digest(field));
    lemma_digest_regrouped(field);
    lemma_regrouped_number(s, b);
    lemma_sextet_round_trip(field[21]);
    let dropped: int = s[21] / 4;
    assert(0 <= dropped < 16);
    assert((number(b, 256) + dropped * digest_range()) % digest_range() == number(b, 256));
}

/// The encoding of a digest spells, in base 64, the number that the digest
/// spells in base 256.
pub proof fn lemma_encoding_is_number(digest: Seq<u8>)
    requires
        digest.len() == DIGEST_LEN,
    ensures
        number(sextets(encoded64(digest)), 64) == number(octets(digest), 256),
{
    lemma_encode_then_decode(digest);
    lemma_encoding_spells_digest(digest);
    lemma_digest_is_number(encoded64(digest));
}

/// The three bytes of the digest that hold the bits of characters `4 * t` to
/// `4 * t + 3` of a field.
proof fn lemma_digest_groups(field: Seq<u8>, t: int)
    requires
        field.len() == 22,
        all_in_alphabet(field),
        0 <= t < 5,
    ensures
        digest_byte(field, 3 * t) == sextet_at(field, 4 * t) + sextet_at(field, 4 * t + 1) % 4
            * 64,
        digest_byte(field, 3 * t + 1) == sextet_at(field, 4 * t + 1) / 4 + sextet_at(
            field,
            4 * t + 2,
        ) % 16 * 16,
        digest_byte(field, 3 * t + 2) == sextet_at(field, 4 * t + 2) / 16 + sextet_at(
            field,
            4 * t + 3,
        ) * 4,
{
    lemma_sextet_round_trip(field[4 * t]);
    lemma_sextet_round_trip(field[4 * t + 1]);
    lemma_sextet_round_trip(field[4 * t + 2]);
    lemma_sextet_round_trip(field[4 * t + 3]);
}

/// The last byte of the digest holds the bits of character 20 of a field and
/// the two lowest bits of character 21.
proof fn lemma_digest_last_byte(field: Seq<u8>)
    requires
        field.len() == 22,
        all_in_alphabet(field),
    ensures
        digest_byte(field, 15) == sextet_at(field, 20) + sextet_at(field, 21) % 4 * 64,
{
    lemma_sextet_round_trip(field[20]);
    lemma_sextet_round_trip(field[21]);
}

} // verus!
