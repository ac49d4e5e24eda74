use phpbb_pwhash::{parse_hash, InvalidHash};

#[test]
fn fields_of_a_hash() {
    let hash = parse_hash("$H$9/O41.qQjQNlleivjbckbSNpfS4xgh0").unwrap();
    assert_eq!(hash.hash_type(), b"$H$");
    assert_eq!(hash.rounds(), 2048);
    assert_eq!(hash.salt(), b"/O41.qQj");
    assert_eq!(hash.hashed(), b"QNlleivjbckbSNpfS4xgh0");
}

#[test]
fn rounds_are_two_to_the_offset() {
    let alphabet = "./0123456789ABCDEFGHIJKLMNOPQRSTUVWXYZabcdefghijklmnopqrstuvwxyz";
    for (offset, c) in alphabet.chars().enumerate() {
        let encoded = format!("$H${}saltsaltDDDDDDDDDDDDDDDDDDDDDD", c);
        let parsed = parse_hash(&encoded);
        if (7..=30).contains(&offset) {
            let hash = parsed.unwrap();
            assert_eq!(hash.rounds(), 1usize << offset);
            assert_eq!(hash.salt(), b"saltsalt");
            assert_eq!(hash.hashed(), b"DDDDDDDDDDDDDDDDDDDDDD");
        } else {
            assert_eq!(parsed.err(), Some(InvalidHash::InvalidRounds));
        }
    }
}

#[test]
fn lowest_and_highest_round_counts() {
    assert_eq!(parse_hash("$H$5saltsaltDDDDDDDDDDDDDDDDDDDDDD").unwrap().rounds(), 128);
    assert_eq!(parse_hash("$H$SsaltsaltDDDDDDDDDDDDDDDDDDDDDD").unwrap().rounds(), 1_073_741_824);
    assert_eq!(
        parse_hash("$H$4saltsaltDDDDDDDDDDDDDDDDDDDDDD").err(),
        Some(InvalidHash::InvalidRounds)
    );
    assert_eq!(
        parse_hash("$H$TsaltsaltDDDDDDDDDDDDDDDDDDDDDD").err(),
        Some(InvalidHash::InvalidRounds)
    );
}

#[test]
fn parse_errors_in_their_order() {
    // a wrong length is reported before a wrong tag
    assert_eq!(parse_hash("$X$1").err(), Some(InvalidHash::BadLength));
    assert_eq!(parse_hash("").err(), Some(InvalidHash::BadLength));
    // a wrong tag before wrong rounds
    assert_eq!(
        parse_hash("$X$1/O41.qQjQNlleivjbckbSNpfS4xgh0").err(),
        Some(InvalidHash::UnsupportedHashType)
    );
    assert_eq!(
        parse_hash("$H$1/O41.qQjQNlleivjbckbSNpfS4xgh0").err(),
        Some(InvalidHash::InvalidRounds)
    );
}

#[test]
fn digest_field_is_not_looked_at() {
    let hash = parse_hash("$H$9/O41.qQj======================").unwrap();
    assert_eq!(hash.hashed(), b"======================");
    let hash = parse_hash("$H$9\u{0}\u{1}\u{2}\u{3}\u{4}\u{5}\u{6}\u{7}$$$$$$$$$$$$$$$$$$$$$$").unwrap();
    assert_eq!(hash.salt(), &[0u8, 1, 2, 3, 4, 5, 6, 7]);
}

#[test]
fn string_that_is_not_ascii_has_a_bad_length() {
    // 17 characters in 34 bytes
    assert_eq!(parse_hash(&"é".repeat(17)).err(), Some(InvalidHash::BadLength));
    // 33 characters in 34 bytes: the last byte of the salt and the first of
    // the digest field would be the two halves of one character
    let encoded = "$H$9/O41.qQéNlleivjbckbSNpfS4xgh0";
    assert_eq!(encoded.len(), 34);
    assert_eq!(parse_hash(encoded).err(), Some(InvalidHash::BadLength));
    // 34 characters in 35 bytes
    let encoded = "$H$9/O41.qQéQNlleivjbckbSNpfS4xgh0";
    assert_eq!(encoded.chars().count(), 34);
    assert_eq!(parse_hash(encoded).err(), Some(InvalidHash::BadLength));
    // a bad length is reported before a wrong tag
    let encoded = "$X$9/O41.qQéNlleivjbckbSNpfS4xgh0";
    assert_eq!(encoded.len(), 34);
    assert_eq!(parse_hash(encoded).err(), Some(InvalidHash::BadLength));
}

#[test]
fn every_ascii_character_may_stand_in_the_salt() {
    for c in 0u8..128 {
        let salt = String::from(c as char).repeat(8);
        let encoded = format!("$H$9{}QNlleivjbckbSNpfS4xgh0", salt);
        let hash = parse_hash(&encoded).unwrap();
        assert_eq!(hash.salt(), &[c; 8]);
    }
}

#[test]
fn parsed_hash_can_be_printed() {
    let hash = parse_hash("$H$9/O41.qQjQNlleivjbckbSNpfS4xgh0").unwrap();
    let text = format!("{:?}", hash);
    assert!(text.contains("PhpbbHash"));
    assert!(text.contains("2048"));
}
