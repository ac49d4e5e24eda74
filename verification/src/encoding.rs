//! The encoding of a digest as a field, and the laws that tie it to the
//! decoding.
//!
//! Nothing here is executed: digests are only ever decoded. The encoding is
//! what the decoding is the inverse of.

use vstd::prelude::*;
use crate::alphabet::{
    alphabet_byte, lemma_position_round_trip, lemma_sextet_round_trip, sextet_of,
};
use crate::crypt64::{
    all_in_alphabet, decoded64, field_digest, filled_reverse,
    lemma_decodes_least_significant_first, lemma_filled_reverse, lemma_packed_group,
    lemma_whole_field_decodes, packed, sextet_at, tail_reversed, whole_groups, Decoded,
    DIGEST_LEN, FILLER,
};

verus! {

/// Character `i` of what `bytes` unpack into: each three bytes make four
/// characters, the bits in the order of the bytes.
#[verifier::opaque]
pub open spec fn unpacked_byte(bytes: Seq<u8>, i: int) -> u8
    recommends
        0 <= i < bytes.len() / 3 * 4,
{
    let group: int = 3 * (i / 4);
    if i % 4 == 0 {
        alphabet_byte(bytes[group] as int / 4)
    } else if i % 4 == 1 {
        alphabet_byte(bytes[group] % 4 * 16 + bytes[group + 1] / 16)
    } else if i % 4 == 2 {
        alphabet_byte(bytes[group + 1] % 16 * 4 + bytes[group + 2] / 64)
    } else {
        alphabet_byte(bytes[group + 2] as int % 64)
    }
}

/// The characters that whole groups of three bytes unpack into.
pub open spec fn unpacked(bytes: Seq<u8>) -> Seq<u8>
    recommends
        bytes.len() % 3 == 0,
{
    Seq::new((bytes.len() / 3 * 4) as nat, |i: int| unpacked_byte(bytes, i))
}

/// The field that encodes a digest of sixteen bytes: the digest is turned
/// round behind two zero bytes, unpacked into 24 characters, and these, but
/// for the first two, are turned round.
pub open spec fn encoded64(digest: Seq<u8>) -> Seq<u8>
    recommends
        digest.len() == DIGEST_LEN,
{
    unpacked(seq![0u8, 0u8] + digest.reverse()).skip(2).reverse()
}

/// Whether `field` is the encoding of a digest: 22 characters of the
/// alphabet, the last of which has none but its two lowest bits set.
pub open spec fn is_digest_field(field: Seq<u8>) -> bool {
    &&& field.len() == 22
    &&& all_in_alphabet(field)
    &&& sextet_at(field, 21) < 4
}

/// Four sextets, packed into three bytes and unpacked, are the same again.
proof fn lemma_regroup_sextets(v0: int, v1: int, v2: int, v3: int)
    requires
        0 <= v0 < 64,
        0 <= v1 < 64,
        0 <= v2 < 64,
        0 <= v3 < 64,
    ensures
        0 <= v0 * 4 + v1 / 16 < 256,
        0 <= v1 % 16 * 16 + v2 / 4 < 256,
        0 <= v2 % 4 * 64 + v3 < 256,
        (v0 * 4 + v1 / 16) / 4 == v0,
        (v0 * 4 + v1 / 16) % 4 * 16 + (v1 % 16 * 16 + v2 / 4) / 16 == v1,
        (v1 % 16 * 16 + v2 / 4) % 16 * 4 + (v2 % 4 * 64 + v3) / 64 == v2,
        (v2 % 4 * 64 + v3) % 64 == v3,
{
}

/// Three bytes, unpacked into four sextets and packed, are the same again.
proof fn lemma_regroup_bytes(b0: int, b1: int, b2: int)
    requires
        0 <= b0 < 256,
        0 <= b1 < 256,
        0 <= b2 < 256,
    ensures
        0 <= b0 / 4 < 64,
        0 <= b0 % 4 * 16 + b1 / 16 < 64,
        0 <= b1 % 16 * 4 + b2 / 64 < 64,
        0 <= b2 % 64 < 64,
        b0 / 4 * 4 + (b0 % 4 * 16 + b1 / 16) / 16 == b0,
        (b0 % 4 * 16 + b1 / 16) % 16 * 16 + (b1 % 16 * 4 + b2 / 64) / 4 == b1,
        (b1 % 16 * 4 + b2 / 64) % 4 * 64 + b2 % 64 == b2,
{
}

/// Unpacking what whole groups of characters pack into gives the characters
/// back.
pub proof fn lemma_unpack_packed(s: Seq<u8>)
    requires
        whole_groups(s),
    ensures
        unpacked(packed(s)) == s,
{
    let bytes: Seq<u8> = packed(s);
    assert forall|i: int| 0 <= i < s.len() implies unpacked(bytes)[i] == s[i] by {
        lemma_unpack_packed_index(s, i);
    }
}

/// Character `i` of what `s` packs and unpacks into is character `i` of `s`.
proof fn lemma_unpack_packed_index(s: Seq<u8>, i: int)
    requires
        whole_groups(s),
        0 <= i < s.len(),
    ensures
        unpacked(packed(s))[i] == s[i],
{
    let q: int = i / 4;
    lemma_unpack_packed_at(s, q);
}

/// Group `q` of the characters that `s` packs and unpacks into is group `q`
/// of `s`.
proof fn lemma_unpack_packed_at(s: Seq<u8>, q: int)
    requires
        whole_groups(s),
        0 <= q < s.len() / 4,
    ensures
        unpacked_byte(packed(s), 4 * q) == s[4 * q],
        unpacked_byte(packed(s), 4 * q + 1) == s[4 * q + 1],
        unpacked_byte(packed(s), 4 * q + 2) == s[4 * q + 2],
        unpacked_byte(packed(s), 4 * q + 3) == s[4 * q + 3],
{
    let v0: int = sextet_at(s, 4 * q);
    let v1: int = sextet_at(s, 4 * q + 1);
    let v2: int = sextet_at(s, 4 * q + 2);
    let v3: int = sextet_at(s, 4 * q + 3);
    lemma_sextet_round_trip(s[4 * q]);
    lemma_sextet_round_trip(s[4 * q + 1]);
    lemma_sextet_round_trip(s[4 * q + 2]);
    lemma_sextet_round_trip(s[4 * q + 3]);
    lemma_regroup_sextets(v0, v1, v2, v3);
    lemma_packed_group(s, q);
    reveal(unpacked_byte);
}

/// The four characters that group `q` of `bytes` unpacks into, and the
/// sextets they stand for.
proof fn lemma_unpacked_group(bytes: Seq<u8>, q: int)
    requires
        0 <= q < bytes.len() / 3,
    ensures
        sextet_of(unpacked(bytes)[4 * q]) == Some((bytes[3 * q] as int / 4) as u8),
        sextet_of(unpacked(bytes)[4 * q + 1]) == Some(
            (bytes[3 * q] % 4 * 16 + bytes[3 * q + 1] / 16) as u8,
        ),
        sextet_of(unpacked(bytes)[4 * q + 2]) == Some(
            (bytes[3 * q + 1] % 16 * 4 + bytes[3 * q + 2] / 64) as u8,
        ),
        sextet_of(unpacked(bytes)[4 * q + 3]) == Some((bytes[3 * q + 2] as int % 64) as u8),
{
    let b0: int = bytes[3 * q] as int;
    let b1: int = bytes[3 * q + 1] as int;
    let b2: int = bytes[3 * q + 2] as int;
    lemma_regroup_bytes(b0, b1, b2);
    reveal(unpacked_byte);
    lemma_position_round_trip(b0 / 4);
    lemma_position_round_trip(b0 % 4 * 16 + b1 / 16);
    lemma_position_round_trip(b1 % 16 * 4 + b2 / 64);
    lemma_position_round_trip(b2 % 64);
}

/// Packing what whole groups of bytes unpack into gives the bytes back.
pub proof fn lemma_pack_unpacked(bytes: Seq<u8>)
    requires
        bytes.len() % 3 == 0,
    ensures
        whole_groups(unpacked(bytes)),
        packed(unpacked(bytes)) == bytes,
{
    let s: Seq<u8> = unpacked(bytes);
    assert forall|i: int| 0 <= i < s.len() implies (#[trigger] sextet_of(s[i])) is Some by {
        lemma_unpacked_in_alphabet(bytes, i);
    }
    assert forall|j: int| 0 <= j < bytes.len() implies packed(s)[j] == bytes[j] by {
        lemma_pack_unpacked_index(bytes, j);
    }
}

/// Character `i` of what `bytes` unpack into is of the alphabet.
proof fn lemma_unpacked_in_alphabet(bytes: Seq<u8>, i: int)
    requires
        bytes.len() % 3 == 0,
        0 <= i < bytes.len() / 3 * 4,
    ensures
        sextet_of(unpacked(bytes)[i]) is Some,
{
    let q: int = i / 4;
    lemma_unpacked_group(bytes, q);
}

/// Byte `j` of what `bytes` unpack and pack into is byte `j` of `bytes`.
proof fn lemma_pack_unpacked_index(bytes: Seq<u8>, j: int)
    requires
        bytes.len() % 3 == 0,
        0 <= j < bytes.len(),
    ensures
        packed(unpacked(bytes))[j] == bytes[j],
{
    let s: Seq<u8> = unpacked(bytes);
    let q: int = j / 3;
    lemma_unpacked_group(bytes, q);
    lemma_packed_group(s, q);
    lemma_regroup_bytes(bytes[3 * q] as int, bytes[3 * q + 1] as int, bytes[3 * q + 2] as int);
}

/// A field of 22 bytes, turned round and filled up, is two filler characters
/// and the field from its last byte to its first.
proof fn lemma_filled_field(field: Seq<u8>)
    requires
        field.len() == 22,
    ensures
        filled_reverse(field).len() == 24,
        filled_reverse(field)[0] == FILLER,
        filled_reverse(field)[1] == FILLER,
        filled_reverse(field)[2] == field[21],
        filled_reverse(field).skip(2).reverse() == field,
{
}

/// 24 characters that begin with two filler characters are what the other
/// 22, turned round, are filled up to.
proof fn lemma_field_of_filled(chars: Seq<u8>)
    requires
        chars.len() == 24,
        chars[0] == FILLER,
        chars[1] == FILLER,
    ensures
        chars.skip(2).reverse().len() == 22,
        chars.skip(2).reverse()[21] == chars[2],
        filled_reverse(chars.skip(2).reverse()) == chars,
{
}

/// The tail of two zero bytes and a digest turned round is the digest.
proof fn lemma_tail_of_digest(digest: Seq<u8>)
    requires
        digest.len() == DIGEST_LEN,
    ensures
        (seq![0u8, 0u8] + digest.reverse()).len() == 18,
        tail_reversed(seq![0u8, 0u8] + digest.reverse()) == digest,
{
    let bytes: Seq<u8> = seq![0u8, 0u8] + digest.reverse();
    assert forall|i: int| 0 <= i < 16 implies bytes[17 - i] == digest[i] by {
        assert(bytes[17 - i] == digest.reverse()[15 - i]);
    }
}

/// Eighteen bytes that begin with two zero bytes are these and their tail,
/// turned round.
proof fn lemma_digest_of_tail(bytes: Seq<u8>)
    requires
        bytes.len() == 18,
        bytes[0] == 0,
        bytes[1] == 0,
    ensures
        tail_reversed(bytes).len() == DIGEST_LEN,
        seq![0u8, 0u8] + tail_reversed(bytes).reverse() == bytes,
{
    let digest: Seq<u8> = tail_reversed(bytes);
    assert forall|j: int| 0 <= j < 16 implies digest.reverse()[j] == bytes[j + 2] by {
        assert(digest.reverse()[j] == digest[15 - j]);
    }
}

/// The 24 characters of which the encoding of a digest is the last 22, turned
/// round.
proof fn lemma_encoded_chars(digest: Seq<u8>)
    requires
        digest.len() == DIGEST_LEN,
    ensures
        ({
            let chars: Seq<u8> = unpacked(seq![0u8, 0u8] + digest.reverse());
            &&& chars.len() == 24
            &&& whole_groups(chars)
            &&& chars[0] == FILLER
            &&& chars[1] == FILLER
            &&& sextet_at(chars, 2) < 4
            &&& packed(chars) == seq![0u8, 0u8] + digest.reverse()
        }),
{
    let bytes: Seq<u8> = seq![0u8, 0u8] + digest.reverse();
    lemma_pack_unpacked(bytes);
    lemma_unpacked_group(bytes, 0);
    lemma_zero_is_filler(unpacked(bytes)[0], unpacked(bytes)[1]);
}

/// The only character that stands for the sextet 0 is the filler character.
proof fn lemma_zero_is_filler(a: u8, b: u8)
    requires
        sextet_of(a) == Some(0u8),
        sextet_of(b) == Some(0u8),
    ensures
        a == FILLER,
        b == FILLER,
{
}

/// Decoding the encoding of a digest gives the digest.
pub proof fn lemma_encode_then_decode(digest: Seq<u8>)
    requires
        digest.len() == DIGEST_LEN,
    ensures
        is_digest_field(encoded64(digest)),
        decoded64(encoded64(digest)) == Decoded::Ok(digest),
{
    let bytes: Seq<u8> = seq![0u8, 0u8] + digest.reverse();
    let chars: Seq<u8> = unpacked(bytes);
    let field: Seq<u8> = encoded64(digest);
    lemma_encoded_chars(digest);
    lemma_field_of_filled(chars);
    lemma_filled_reverse(field);
    lemma_tail_of_digest(digest);
    assert(decoded64(field) == Decoded::Ok(tail_reversed(bytes))) by {
        lemma_whole_field_decodes(field);
    }
}

/// The encoding of a digest spells the digest, least significant bits first.
pub proof fn lemma_encoding_spells_digest(digest: Seq<u8>)
    requires
        digest.len() == DIGEST_LEN,
    ensures
        field_digest(encoded64(digest)) == digest,
{
    lemma_encode_then_decode(digest);
    lemma_decodes_least_significant_first(encoded64(digest));
}

/// A digest field, decoded and encoded again, is the same field.
pub proof fn lemma_decode_then_encode(field: Seq<u8>)
    requires
        is_digest_field(field),
    ensures
        decoded64(field) is Ok,
        decoded64(field)->Ok_0.len() == DIGEST_LEN,
        encoded64(decoded64(field)->Ok_0) == field,
{
    let input: Seq<u8> = filled_reverse(field);
    let bytes: Seq<u8> = packed(input);
    lemma_filled_reverse(field);
    lemma_filled_field(field);
    assert(decoded64(field) == Decoded::Ok(tail_reversed(bytes))) by {
        lemma_whole_field_decodes(field);
    }
    assert(bytes.len() == 18 && bytes[0] == 0 && bytes[1] == 0) by {
        lemma_packed_group(input, 0);
    }
    lemma_digest_of_tail(bytes);
    lemma_unpack_packed(input);
}

} // verus!
