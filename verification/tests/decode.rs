use phpbb_pwhash::crypt64::{
    decode64, digest_of_decoded, find_foreign, finish_decode, reversed_with_filler,
};
use phpbb_pwhash::DecodeError;

fn encode64(digest: &[u8]) -> Vec<u8> {
    let mut bytes = vec![0u8, 0u8];
    bytes.extend(digest.iter().rev());
    let chars = base64::encode_config(&bytes, base64::CRYPT);
    chars.bytes().skip(2).rev().collect()
}

#[test]
fn decodes_the_digest_of_pass1234() {
    assert_eq!(
        decode64(b"QNlleivjbckbSNpfS4xgh0"),
        Ok(vec![92, 22, 199, 170, 187, 191, 39, 10, 159, 94, 86, 175, 158, 209, 179, 173])
    );
    assert_eq!(
        decode64(b"UJZuamBBKOr/KPdi1ZmSw1"),
        Ok(vec![96, 85, 234, 166, 220, 52, 150, 118, 7, 214, 150, 186, 67, 41, 123, 252])
    );
    assert_eq!(
        decode64(b"cTQ38TK2P2yBc0TnmMfLC1"),
        Ok(vec![232, 199, 21, 202, 103, 17, 27, 225, 55, 168, 240, 205, 50, 182, 94, 206])
    );
}

#[test]
fn decodes_least_significant_bits_first() {
    assert_eq!(decode64(b"......................"), Ok(vec![0u8; 16]));
    assert_eq!(decode64(b"zzzzzzzzzzzzzzzzzzzzz1"), Ok(vec![255u8; 16]));
    assert_eq!(decode64(b".2U.1EE/4Q.07ck0AoU1D."), Ok((0u8..16).collect::<Vec<u8>>()));
    // '/' stands for 1: the lowest bit of the first byte
    assert_eq!(
        decode64(b"/.....................").unwrap(),
        vec![1, 0, 0, 0, 0, 0, 0, 0, 0, 0, 0, 0, 0, 0, 0, 0]
    );
    // the second character begins at bit 6
    assert_eq!(
        decode64(b"./....................").unwrap(),
        vec![64, 0, 0, 0, 0, 0, 0, 0, 0, 0, 0, 0, 0, 0, 0, 0]
    );
    // the 22nd character holds the two highest bits of the last byte
    assert_eq!(
        decode64(b"...................../").unwrap(),
        vec![0, 0, 0, 0, 0, 0, 0, 0, 0, 0, 0, 0, 0, 0, 0, 64]
    );
}

#[test]
fn high_bits_of_the_last_character_are_dropped() {
    // 'z' stands for 63, '1' for 3: they agree in their two lowest bits
    assert_eq!(decode64(b"zzzzzzzzzzzzzzzzzzzzzz"), Ok(vec![255u8; 16]));
    assert_eq!(decode64(b".....................2"), Ok(vec![0u8; 16]));
}

#[test]
fn decoding_then_encoding_gives_the_field_back() {
    for field in [
        &b"QNlleivjbckbSNpfS4xgh0"[..],
        &b"UJZuamBBKOr/KPdi1ZmSw1"[..],
        &b"cTQ38TK2P2yBc0TnmMfLC1"[..],
        &b"RQTwXLGkACWdXkqlmTP.k1"[..],
        &b"......................"[..],
        &b"zzzzzzzzzzzzzzzzzzzzz1"[..],
    ] {
        let digest = decode64(field).unwrap();
        assert_eq!(digest.len(), 16);
        assert_eq!(encode64(&digest), field);
    }
}

#[test]
fn encoding_then_decoding_gives_the_digest_back() {
    let mut digest = [0u8; 16];
    for round in 0..64u32 {
        for (i, b) in digest.iter_mut().enumerate() {
            *b = (round.wrapping_mul(2_654_435_761).wrapping_add(i as u32 * 40_503) >> 7) as u8;
        }
        let field = encode64(&digest);
        assert_eq!(field.len(), 22);
        assert_eq!(decode64(&field), Ok(digest.to_vec()));
    }
}

#[test]
fn foreign_byte_is_reported_at_its_place_in_the_decoder_input() {
    // the decoder's input is two filler characters and the field turned
    // round: byte i of the field stands at 23 - i
    for at in 0..22 {
        let mut field = *b"QNlleivjbckbSNpfS4xg..";
        field[at] = b'!';
        assert_eq!(decode64(&field), Err(DecodeError::InvalidByte(23 - at, b'!')), "at {}", at);
    }
}

#[test]
fn first_foreign_byte_of_the_decoder_input_is_reported() {
    let mut field = *b"QNlleivjbckbSNpfS4xgh0";
    field[3] = b'#';
    field[17] = b'*';
    assert_eq!(decode64(&field), Err(DecodeError::InvalidByte(6, b'*')));
}

#[test]
fn padding_is_no_character_of_the_alphabet() {
    // at the front of the field, '=' is at the end of the decoder's input,
    // where a base64 decoder takes it for padding
    assert_eq!(reversed_with_filler(b"=.lleivjbckbSNpfS4xgh0"), b"..0hgx4SfpNSbkcbjviell.=".to_vec());
    assert_eq!(
        base64::decode_config("..0hgx4SfpNSbkcbjviell.=", base64::CRYPT).map(|bytes| bytes.len()),
        Ok(17)
    );
    assert_eq!(
        base64::decode_config("..0hgx4SfpNSbkcbjviel.==", base64::CRYPT).map(|bytes| bytes.len()),
        Ok(16)
    );
    assert_eq!(decode64(b"=.lleivjbckbSNpfS4xgh0"), Err(DecodeError::InvalidByte(23, b'=')));
    assert_eq!(decode64(b"==.leivjbckbSNpfS4xgh0"), Err(DecodeError::InvalidByte(22, b'=')));
    // where the decoder itself objects, its reason stands
    assert_eq!(decode64(b"=llleivjbckbSNpfS4xgh0"), Err(DecodeError::InvalidLastSymbol(22, b'l')));
    assert_eq!(decode64(b"==lleivjbckbSNpfS4xgh0"), Err(DecodeError::InvalidLastSymbol(21, b'l')));
    assert_eq!(decode64(b"Q=lleivjbckbSNpfS4xgh0"), Err(DecodeError::InvalidByte(22, b'=')));
    for at in 0..22 {
        let mut field = *b"......................";
        field[at] = b'=';
        assert!(decode64(&field).is_err(), "at {}", at);
    }
}

#[test]
fn bytes_above_ascii_are_foreign() {
    let mut field = *b"QNlleivjbckbSNpfS4xgh0";
    field[0] = 0xc3;
    field[1] = 0xa9;
    assert_eq!(decode64(&field), Err(DecodeError::InvalidByte(22, 0xa9)));
    for b in 0u8..=255 {
        let field = [b; 22];
        let in_alphabet = b == b'.' || b == b'/' || b.is_ascii_alphanumeric();
        assert_eq!(decode64(&field).is_ok(), in_alphabet, "byte {}", b);
    }
}

#[test]
fn length_that_encodes_no_whole_bytes() {
    // six to eight characters are filled up to nine, a length no base64 has
    assert_eq!(decode64(b"......"), Err(DecodeError::InvalidLength));
    assert_eq!(decode64(b"......."), Err(DecodeError::InvalidLength));
    assert_eq!(decode64(b"........"), Err(DecodeError::InvalidLength));
}

#[test]
fn last_symbol_with_bits_that_belong_to_no_byte() {
    // one character is filled up to three, which hold two bytes and two bits
    assert_eq!(decode64(b"/"), Err(DecodeError::InvalidLastSymbol(2, b'/')));
    assert_eq!(decode64(b"0"), Err(DecodeError::InvalidLastSymbol(2, b'0')));
}

#[test]
fn short_fields_give_short_digests() {
    assert_eq!(decode64(b""), Ok(vec![0, 0]));
    assert_eq!(decode64(b"."), Ok(vec![0, 0]));
    // '2' stands for 4, binary 000100
    assert_eq!(decode64(b"2"), Ok(vec![1, 0]));
    assert_eq!(decode64(b".."), Ok(vec![0, 0]));
    // nine characters are filled up to twelve, which hold nine bytes
    assert_eq!(decode64(b"/........"), Ok(vec![1, 0, 0, 0, 0, 0, 0, 0, 0]));
}

#[test]
fn long_fields_give_their_lowest_sixteen_bytes() {
    // 33 characters are filled up to 36, which hold 27 bytes
    let mut field = [b'.'; 33];
    field[0] = b'/';
    field[32] = b'z';
    let digest = decode64(&field).unwrap();
    assert_eq!(digest, vec![1, 0, 0, 0, 0, 0, 0, 0, 0, 0, 0, 0, 0, 0, 0, 0]);
}

#[test]
fn decoder_input_is_the_field_turned_round_behind_filler() {
    assert_eq!(reversed_with_filler(b""), b"...".to_vec());
    assert_eq!(reversed_with_filler(b"a"), b"..a".to_vec());
    assert_eq!(reversed_with_filler(b"ab"), b".ba".to_vec());
    assert_eq!(reversed_with_filler(b"abc"), b"...cba".to_vec());
    assert_eq!(reversed_with_filler(b"abcd"), b"..dcba".to_vec());
    assert_eq!(
        reversed_with_filler(b"QNlleivjbckbSNpfS4xgh0"),
        b"..0hgx4SfpNSbkcbjviellNQ".to_vec()
    );
}

#[test]
fn first_foreign_byte_is_found() {
    assert_eq!(find_foreign(b""), None);
    assert_eq!(find_foreign(b"./09AZaz"), None);
    assert_eq!(find_foreign(b"./09AZaz-"), Some(8));
    assert_eq!(find_foreign(b"=/09AZaz-"), Some(0));
    assert_eq!(find_foreign(b"abc def ghi"), Some(3));
    // the neighbours of the alphabet's ranges
    for b in [b'-', b':', b'@', b'[', b'`', b'{'] {
        assert_eq!(find_foreign(&[b'a', b]), Some(1));
    }
}

#[test]
fn digest_is_the_tail_turned_round() {
    assert_eq!(digest_of_decoded(&[]), Vec::<u8>::new());
    assert_eq!(digest_of_decoded(&[1, 2, 3]), vec![3, 2, 1]);
    let bytes: Vec<u8> = (0..18).collect();
    assert_eq!(
        digest_of_decoded(&bytes),
        vec![17, 16, 15, 14, 13, 12, 11, 10, 9, 8, 7, 6, 5, 4, 3, 2]
    );
    let bytes: Vec<u8> = (0..16).collect();
    assert_eq!(digest_of_decoded(&bytes), (0..16).rev().collect::<Vec<u8>>());
}

#[test]
fn decoder_error_stands() {
    assert_eq!(
        finish_decode(b"..abc", Err(DecodeError::InvalidLength)),
        Err(DecodeError::InvalidLength)
    );
    assert_eq!(
        finish_decode(b"..a=c", Err(DecodeError::InvalidLastSymbol(1, b'x'))),
        Err(DecodeError::InvalidLastSymbol(1, b'x'))
    );
    assert_eq!(
        finish_decode(b"..abc", Err(DecodeError::InvalidByte(7, b'?'))),
        Err(DecodeError::InvalidByte(7, b'?'))
    );
}

#[test]
fn decoded_bytes_of_foreign_input_are_refused() {
    assert_eq!(finish_decode(b"..ab=", Ok(vec![1, 2, 3])), Err(DecodeError::InvalidByte(4, b'=')));
    assert_eq!(finish_decode(b"..abc", Ok(vec![1, 2, 3])), Ok(vec![3, 2, 1]));
}

const ALPHABET: &[u8; 64] = b"./0123456789ABCDEFGHIJKLMNOPQRSTUVWXYZabcdefghijklmnopqrstuvwxyz";

/// The digest whose bits are those of the characters' positions, lowest
/// first.
fn spelled(field: &[u8]) -> Vec<u8> {
    let mut bits: Vec<bool> = Vec::new();
    for c in field {
        let sextet = ALPHABET.iter().position(|a| a == c).unwrap();
        for bit in 0..6 {
            bits.push((sextet >> bit) & 1 == 1);
        }
    }
    let mut digest = vec![0u8; 16];
    for (j, byte) in digest.iter_mut().enumerate() {
        for bit in 0..8 {
            if bits[8 * j + bit] {
                *byte |= 1 << bit;
            }
        }
    }
    digest
}

fn some_field(seed: u32, last_below: u32) -> Vec<u8> {
    let mut state = seed.wrapping_mul(747_796_405).wrapping_add(2_891_336_453);
    let mut field = Vec::new();
    for at in 0..22 {
        state = state.wrapping_mul(1_664_525).wrapping_add(1_013_904_223);
        let mut sextet = (state >> 24) % 64;
        if at == 21 {
            sextet %= last_below;
        }
        field.push(ALPHABET[sextet as usize]);
    }
    field
}

#[test]
fn decoding_reads_the_characters_as_digits_lowest_first() {
    for seed in 0..500 {
        let field = some_field(seed, 64);
        assert_eq!(decode64(&field), Ok(spelled(&field)), "{:?}", field);
    }
    assert_eq!(
        spelled(b"QNlleivjbckbSNpfS4xgh0"),
        vec![92, 22, 199, 170, 187, 191, 39, 10, 159, 94, 86, 175, 158, 209, 179, 173]
    );
}

#[test]
fn every_digest_field_survives_decoding_and_encoding() {
    for seed in 0..500 {
        let field = some_field(seed, 4);
        let digest = decode64(&field).unwrap();
        assert_eq!(encode64(&digest), field);
    }
}

#[test]
fn field_with_high_bits_in_its_last_character_encodes_another_way() {
    let digest = decode64(b"zzzzzzzzzzzzzzzzzzzzzz").unwrap();
    assert_eq!(encode64(&digest), b"zzzzzzzzzzzzzzzzzzzzz1".to_vec());
}
