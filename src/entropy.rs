use rand::{Rng, SeedableRng};
use rand_chacha::ChaCha20Rng;
use sha2::{Digest, Sha256};
use vstd::prelude::*;

verus! {

/// The SHA-256 digest of the UTF-8 encoding of a string.
pub uninterp spec fn sha256_of(s: Seq<char>) -> Seq<u8>;

/// The draw from `0..bound` that a ChaCha20 generator keyed by `key` and set to
/// stream `stream` makes first.
pub uninterp spec fn chacha_draw(key: Seq<u8>, stream: u64, bound: u64) -> u64;

/// Relies on sha2's `Sha256::digest`: the 32-byte digest of the seed's bytes,
/// which depends on the seed alone.
#[verifier::external_body]
pub(crate) fn seed_digest(seed: &str) -> (r: [u8; 32])
    ensures
        r@ == sha256_of(seed@),
{
    Sha256::digest(seed.as_bytes()).into()
}

/// Relies on rand_chacha's `ChaCha20Rng::from_seed` and `set_stream`, and on
/// rand's `Rng::gen_range` over `0..bound`: a generator keyed by `key` on stream
/// `stream` draws a value below `bound`, the same one for the same arguments.
/// `gen_range` panics on an empty range, which `requires` leaves out.
#[verifier::external_body]
pub(crate) fn keyed_draw(key: &[u8; 32], stream: u64, bound: u64) -> (r: u64)
    requires
        bound > 0,
    ensures
        r == chacha_draw(key@, stream, bound),
        r < bound,
{
    let mut rng = ChaCha20Rng::from_seed(*key);
    rng.set_stream(stream);
    rng.gen_range(0..bound)
}

} // verus!
