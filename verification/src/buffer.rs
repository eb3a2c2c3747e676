//! Byte buffers for the measurements to work on.

use vstd::prelude::*;

verus! {

/// The generator of the `fastrand` crate. Its state is opaque here.
#[verifier::external_type_specification]
#[verifier::external_body]
pub struct ExRng(fastrand::Rng);

/// `fastrand::Rng::new` makes a generator seeded from the thread's own
/// generator. Trusted: nothing is claimed about the generator it returns.
pub assume_specification[ fastrand::Rng::new ]() -> (rng: fastrand::Rng)
;

/// `fastrand::Rng::fill` overwrites a byte slice with random bytes. Trusted:
/// the slice keeps its length; nothing is claimed about the bytes.
pub assume_specification[ fastrand::Rng::fill ](rng: &mut fastrand::Rng, slice: &mut [u8])
    ensures
        final(slice)@.len() == old(slice)@.len(),
;

/// Returns a buffer of exactly `size` bytes for a caller that is about to
/// overwrite all of them. What the bytes hold is not part of the contract.
pub fn mk_vec(size: usize) -> (buffer: Vec<u8>)
    ensures
        buffer@.len() == size,
{
    vec![0u8; size]
}

/// Returns a buffer of exactly `size` bytes drawn from a fast,
/// non-cryptographic random generator. The bytes change from call to call,
/// and nothing is promised about them.
pub fn random_vec(size: usize) -> (buffer: Vec<u8>)
    ensures
        buffer@.len() == size,
{
    let mut buffer = mk_vec(size);
    let mut rng = fastrand::Rng::new();
    rng.fill(buffer.as_mut_slice());
    buffer
}

} // verus!
