//! The iterated MD5 digest of a salted password.

use vstd::prelude::*;

verus! {

/// The MD5 digest of `data`, as `md5::compute` gives it.
pub uninterp spec fn md5_digest(data: Seq<u8>) -> Seq<u8>;

/// Calls `md5::compute`.
///
/// Not proved: that the sixteen bytes it returns are determined by the bytes
/// of `data`. Nothing is said of which bytes they are.
#[verifier::external_body]
fn md5_compute(data: &Vec<u8>) -> (digest: [u8; 16])
    ensures
        digest@ == md5_digest(data@),
{
    md5::compute(data).0
}

/// The digest of `salt` followed by `password`, hashed again `rounds` times,
/// each time followed by `password`.
pub open spec fn stretched(salt: Seq<u8>, password: Seq<u8>, rounds: nat) -> Seq<u8>
    decreases rounds,
{
    if rounds == 0 {
        md5_digest(salt + password)
    } else {
        md5_digest(stretched(salt, password, (rounds - 1) as nat) + password)
    }
}

/// Computes the digest of `salt` and `password` and hashes it `rounds` more
/// times.
pub fn stretch(salt: &[u8], password: &[u8], rounds: usize) -> (hash: [u8; 16])
    ensures
        hash@ == stretched(salt@, password@, rounds as nat),
{
    let mut buf: Vec<u8> = Vec::new();
    buf.extend_from_slice(salt);
    buf.extend_from_slice(password);
    assert(buf@ =~= salt@ + password@);
    let mut hash: [u8; 16] = md5_compute(&buf);
    let mut done: usize = 0;
    while done < rounds
        invariant
            done <= rounds,
            hash@ == stretched(salt@, password@, done as nat),
        decreases rounds - done,
    {
        buf.clear();
        buf.extend_from_slice(&hash);
        buf.extend_from_slice(password);
        assert(buf@ =~= hash@ + password@);
        hash = md5_compute(&buf);
        done = done + 1;
    }
    hash
}

} // verus!
