//! Strings of ASCII characters and their bytes.

use vstd::prelude::*;
use vstd::utf8::{
    char_is_scalar, char_u32_cast, encode_scalar, encode_utf8, has_width_1_encoding,
    is_ascii_chars, is_ascii_chars_encode_utf8,
};

verus! {

/// Whether none of `bytes` is above 0x7f.
pub open spec fn all_ascii(bytes: Seq<u8>) -> bool {
    forall|i: int| 0 <= i < bytes.len() ==> #[trigger] bytes[i] < 0x80
}

/// The bytes of a string of ASCII characters, one for each character.
pub open spec fn ascii_bytes(s: Seq<char>) -> Seq<u8>
    recommends
        is_ascii_chars(s),
{
    Seq::new(s.len(), |i: int| s[i] as u8)
}

/// The encoding of a character that is not ASCII begins with a byte above
/// 0x7f.
proof fn lemma_wide_leading_byte(c: u32)
    requires
        !has_width_1_encoding(c),
    ensures
        encode_scalar(c).len() >= 1,
        encode_scalar(c)[0] >= 0x80,
{
    let x: u8 = ((c >> 6) & 0x1F) as u8;
    let y: u8 = ((c >> 12) & 0x0F) as u8;
    let z: u8 = ((c >> 18) & 0x7) as u8;
    assert(0xC0u8 | x >= 0x80) by (bit_vector);
    assert(0xE0u8 | y >= 0x80) by (bit_vector);
    assert(0xF0u8 | z >= 0x80) by (bit_vector);
}

/// A string is made of ASCII characters exactly if none of its bytes is
/// above 0x7f; it then has one byte for each character.
pub proof fn lemma_ascii_by_bytes(s: Seq<char>)
    ensures
        is_ascii_chars(s) <==> all_ascii(encode_utf8(s)),
        is_ascii_chars(s) ==> encode_utf8(s) == ascii_bytes(s),
    decreases s.len(),
{
    let bytes: Seq<u8> = encode_utf8(s);
    if is_ascii_chars(s) {
        is_ascii_chars_encode_utf8(s);
        assert forall|i: int| 0 <= i < bytes.len() implies #[trigger] bytes[i] < 0x80 by {
            assert(bytes[i] == s[i] as u8);
        }
        assert(bytes =~= ascii_bytes(s));
    }
    if all_ascii(bytes) && s.len() > 0 {
        let first: u32 = s[0] as u32;
        let head: Seq<u8> = encode_scalar(first);
        let rest: Seq<u8> = encode_utf8(s.drop_first());
        assert(bytes == head + rest);
        if !has_width_1_encoding(first) {
            lemma_wide_leading_byte(first);
            assert(bytes[0] == head[0]);
        }
        assert(head.len() == 1);
        assert forall|i: int| 0 <= i < rest.len() implies #[trigger] rest[i] < 0x80 by {
            assert(rest[i] == bytes[i + 1]);
        }
        lemma_ascii_by_bytes(s.drop_first());
        assert forall|i: int| 0 <= i < s.len() implies '\0' <= #[trigger] s[i] <= '\u{7f}' by {
            if i > 0 {
                assert(s[i] == s.drop_first()[i - 1]);
                assert('\0' <= s.drop_first()[i - 1] <= '\u{7f}');
            } else {
                char_is_scalar(s[0]);
                char_u32_cast(s[0], first);
                assert(s[0] as int == first as int);
            }
        }
    }
}

} // verus!
