//! Viewing keys: secrets that let a player read its own data.
use vstd::prelude::*;

use vstd::utf8::encode_utf8;

use crate::rng::{base64_encode, base64_of, get_rand_slice, rand_block, sha256_of, sha_256, BlockEnv};

verus! {

/// Length of a hashed viewing key.
pub const VIEWING_KEY_SIZE: usize = 32;

/// A viewing key.
#[derive(Clone, Debug)]
pub struct ViewingKey(pub String);

/// The stored form of a key: the SHA-256 digest of its UTF-8 bytes.
pub open spec fn hashed_key(k: Seq<char>) -> Seq<u8> {
    sha256_of(encode_utf8(k))
}

/// Returns whether two byte strings are equal, looking at every byte of the
/// shorter so that the time taken does not depend on where they differ.
pub fn ct_slice_compare(a: &[u8], b: &[u8]) -> (r: bool)
    ensures
        r == (a@ == b@),
{
    let n = if a.len() < b.len() {
        a.len()
    } else {
        b.len()
    };
    let mut same = a.len() == b.len();
    let mut i: usize = 0;
    while i < n
        invariant
            n <= a@.len(),
            n <= b@.len(),
            n == a@.len() || n == b@.len(),
            i <= n,
            same == (a@.len() == b@.len() && forall|j: int| 0 <= j < i ==> a@[j] == b@[j]),
        decreases n - i,
    {
        let d = a[i] != b[i];
        same = same && !d;
        i = i + 1;
    }
    proof {
        if same {
            assert(a@ =~= b@);
        }
    }
    same
}

impl ViewingKey {
    /// Returns a new key: the Base64 text of the SHA-256 digest of a random
    /// block derived from `seed`, `entropy` and `env`.
    pub fn new(env: &BlockEnv, seed: &[u8], entropy: &[u8]) -> (r: ViewingKey)
        ensures
            encode_utf8(r.0@) == base64_of(
                sha256_of(rand_block(seed@, env.height, env.time, env.sender@, entropy@)),
            ),
    {
        let rand_slice = get_rand_slice(env, seed, entropy);
        let key = sha_256(rand_slice.as_slice());
        ViewingKey(base64_encode(key.as_slice()))
    }

    /// Returns the stored form of this key.
    pub fn to_hashed(&self) -> (r: Vec<u8>)
        ensures
            r@ == hashed_key(self.0@),
            r@.len() == VIEWING_KEY_SIZE,
    {
        sha_256(self.0.as_str().as_bytes())
    }

    /// Returns whether this key's stored form is `hashed_pw`.
    pub fn check_viewing_key(&self, hashed_pw: &[u8]) -> (r: bool)
        ensures
            r == (hashed_key(self.0@) == hashed_pw@),
    {
        let mine = self.to_hashed();
        ct_slice_compare(mine.as_slice(), hashed_pw)
    }
}

} // verus!
