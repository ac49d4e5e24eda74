use phpbb_pwhash::alphabet::{alphabet_offset, ALPHABET};
use phpbb_pwhash::bytes::same_bytes;
use phpbb_pwhash::check::{verdict, MAX_PASSWORD_LEN};
use phpbb_pwhash::digest::stretch;
use phpbb_pwhash::CheckHashResult;

#[test]
fn no_round_is_one_digest() {
    // the MD5 digest of the empty message
    assert_eq!(
        stretch(b"", b"", 0),
        [212, 29, 140, 217, 143, 0, 178, 4, 233, 128, 9, 152, 236, 248, 66, 126]
    );
    // salt first, password second
    assert_eq!(
        stretch(b"salt", b"pw", 0),
        [150, 62, 34, 50, 250, 149, 102, 100, 67, 241, 238, 159, 252, 220, 237, 160]
    );
    assert_eq!(stretch(b"salt", b"pw", 0), md5::compute(b"saltpw").0);
    assert_ne!(stretch(b"pw", b"salt", 0), stretch(b"salt", b"pw", 0));
}

#[test]
fn each_round_hashes_the_digest_with_the_password() {
    assert_eq!(
        stretch(b"salt", b"pw", 1),
        [249, 137, 55, 168, 118, 74, 199, 180, 245, 43, 189, 174, 204, 78, 180, 56]
    );
    assert_eq!(
        stretch(b"salt", b"pw", 3),
        [63, 154, 85, 245, 175, 109, 209, 172, 50, 170, 220, 194, 33, 26, 110, 108]
    );
    let mut expected = md5::compute(b"saltpw").0;
    for rounds in 0..20 {
        assert_eq!(stretch(b"salt", b"pw", rounds), expected);
        let mut next = expected.to_vec();
        next.extend_from_slice(b"pw");
        expected = md5::compute(&next).0;
    }
}

#[test]
fn digest_of_pass1234() {
    assert_eq!(
        stretch(b"/O41.qQj", b"pass1234", 2048),
        [92, 22, 199, 170, 187, 191, 39, 10, 159, 94, 86, 175, 158, 209, 179, 173]
    );
    assert_eq!(
        stretch(b"abcdefgh", b"secret", 128),
        [29, 247, 241, 227, 37, 193, 140, 35, 166, 35, 108, 199, 242, 183, 1, 240]
    );
}

#[test]
fn equal_digests_are_valid() {
    let digest = [7u8; 16];
    assert_eq!(verdict(&digest, &digest.to_vec()), CheckHashResult::Valid);
    assert_eq!(verdict(&[], &[]), CheckHashResult::Valid);
}

#[test]
fn unequal_digests_are_invalid() {
    let digest = [7u8; 16];
    for at in 0..16 {
        let mut other = digest;
        other[at] = 8;
        assert_eq!(verdict(&digest, &other), CheckHashResult::Invalid);
    }
    assert_eq!(verdict(&digest, &digest[..15]), CheckHashResult::Invalid);
    assert_eq!(verdict(&digest[..15], &digest), CheckHashResult::Invalid);
    assert_eq!(verdict(&digest, &[]), CheckHashResult::Invalid);
}

#[test]
fn longest_password() {
    assert_eq!(MAX_PASSWORD_LEN, 4096);
}

#[test]
fn alphabet_has_64_characters_in_order() {
    assert_eq!(ALPHABET, "./0123456789ABCDEFGHIJKLMNOPQRSTUVWXYZabcdefghijklmnopqrstuvwxyz");
    assert_eq!(ALPHABET.len(), 64);
    for (position, b) in ALPHABET.bytes().enumerate() {
        assert_eq!(alphabet_offset(b), Some(position as u8));
    }
}

#[test]
fn offset_is_the_position_in_the_alphabet() {
    assert_eq!(alphabet_offset(b'.'), Some(0));
    assert_eq!(alphabet_offset(b'/'), Some(1));
    assert_eq!(alphabet_offset(b'0'), Some(2));
    assert_eq!(alphabet_offset(b'5'), Some(7));
    assert_eq!(alphabet_offset(b'9'), Some(11));
    assert_eq!(alphabet_offset(b'A'), Some(12));
    assert_eq!(alphabet_offset(b'S'), Some(30));
    assert_eq!(alphabet_offset(b'Z'), Some(37));
    assert_eq!(alphabet_offset(b'a'), Some(38));
    assert_eq!(alphabet_offset(b'z'), Some(63));
}

#[test]
fn bytes_outside_the_alphabet_have_no_offset() {
    for b in 0u8..=255 {
        let found = ALPHABET.bytes().position(|c| c == b).map(|p| p as u8);
        assert_eq!(alphabet_offset(b), found, "byte {}", b);
    }
}

#[test]
fn alphabet_is_that_of_the_decoder() {
    // every character decodes, as the third of a group, to its position
    for (position, b) in ALPHABET.bytes().enumerate() {
        let decoded = base64::decode_config(&[b'.', b'.', b'.', b], base64::CRYPT).unwrap();
        assert_eq!(decoded, vec![0, 0, position as u8]);
    }
}

#[test]
fn byte_strings_are_the_same_if_all_bytes_are() {
    assert!(same_bytes(b"", b""));
    assert!(same_bytes(b"$H$", b"$H$"));
    assert!(!same_bytes(b"$H$", b"$P$"));
    assert!(!same_bytes(b"$H$", b"$H"));
    assert!(!same_bytes(b"$H", b"$H$"));
    assert!(!same_bytes(b"", b"$"));
    assert!(!same_bytes(b"abc", b"abd"));
    assert!(!same_bytes(b"xbc", b"abc"));
}
