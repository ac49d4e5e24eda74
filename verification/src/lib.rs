//! Verification of passwords against the salted hashes of phpBB 3.
//!
//! An encoded hash is a string of 34 ASCII characters: the tag `$H$`; one of
//! the alphabet `./0-9A-Za-z`, whose position in it is the binary logarithm of
//! the number of hashing rounds; eight bytes of salt; and 22 characters that
//! spell an MD5 digest. [`check_hash`] says whether a password gives the
//! digest of such a string:
//!
//! ```text
//! check_hash("$H$9/O41.qQjQNlleivjbckbSNpfS4xgh0", "pass1234") == CheckHashResult::Valid
//! check_hash("$H$9/O41.qQjQNlleivjbckbSNpfS4xgh0", "pass1235") == CheckHashResult::Invalid
//! ```
//!
//! The MD5 digests are computed by the `md5` crate and the digest field is
//! decoded by the `base64` crate. What is assumed of the two is written on
//! the functions that call them, [`digest`]'s `md5_compute` and [`crypt64`]'s
//! `crypt_decode`; everything else is proved.
//!
//! The modules:
//!
//! - [`alphabet`]: the 64 characters and the sextets they stand for;
//! - [`ascii`]: strings of ASCII characters and their bytes;
//! - [`parse`]: the fields of an encoded hash;
//! - [`crypt64`]: the decoding of the digest field;
//! - [`encoding`]: the encoding that the decoding undoes, and the laws of the
//!   two;
//! - [`radix`]: field and digest as one number in two bases;
//! - [`digest`]: the iterated digest of salt and password;
//! - [`check`]: the check of a password against an encoded hash;
//! - [`bytes`]: the comparison of byte strings.

pub mod alphabet;
pub mod ascii;
pub mod bytes;
pub mod check;
pub mod crypt64;
pub mod digest;
pub mod encoding;
pub mod parse;
pub mod radix;

pub use check::{check_hash, CheckHashResult};
pub use crypt64::{decode64, DecodeError};
pub use parse::{parse_hash, InvalidHash, PhpbbHash};
