use sha2::Digest;
use vstd::prelude::*;

verus! {

/// The longest input, in bytes, whose length in bits still fits the 64-bit
/// counter that SHA-256 appends to its input.
pub const SHA256_MAX_INPUT: u64 = 0x1fff_ffff_ffff_ffff;

/// The number of bytes in a SHA-256 digest.
pub const SHA256_OUTPUT_LEN: usize = 32;

/// A running SHA-256 computation of the `sha2` crate. Nothing of its inside is
/// visible to the verifier; what it has taken in so far goes by the name
/// [`absorbed`].
#[verifier::external_body]
pub struct Sha256State {
    inner: sha2::Sha256,
}

/// The SHA-256 digest of a byte string, as `sha2::Sha256` computes it.
pub uninterp spec fn sha256(message: Seq<u8>) -> Seq<u8>;

/// The bytes that a running computation has been given since it was started,
/// in the order in which they were given.
pub uninterp spec fn absorbed(state: Sha256State) -> Seq<u8>;

/// Calls `sha2::Sha256::new`, which returns a hasher that has taken in
/// nothing yet.
#[verifier::external_body]
pub(crate) fn sha256_start() -> (state: Sha256State)
    ensures
        absorbed(state) == Seq::<u8>::empty(),
{
    Sha256State { inner: sha2::Sha256::new() }
}

/// Calls `sha2::Sha256::update`, which appends the chunk to what the hasher
/// has taken in: feeding a message in pieces is the same as feeding it whole.
/// The bound keeps the hasher's counters from overflowing.
#[verifier::external_body]
pub(crate) fn sha256_update(state: &mut Sha256State, chunk: &[u8])
    requires
        absorbed(*old(state)).len() + chunk@.len() <= SHA256_MAX_INPUT,
    ensures
        absorbed(*final(state)) == absorbed(*old(state)) + chunk@,
{
    state.inner.update(chunk);
}

/// Calls `sha2::Sha256::finalize`, which returns the 32-byte SHA-256 digest of
/// everything the hasher has taken in. The bound is the longest input whose
/// bit length the final padding can hold.
#[verifier::external_body]
pub(crate) fn sha256_finish(state: Sha256State) -> (out: Vec<u8>)
    requires
        absorbed(state).len() <= SHA256_MAX_INPUT,
    ensures
        out@ == sha256(absorbed(state)),
        out@.len() == SHA256_OUTPUT_LEN,
{
    state.inner.finalize().to_vec()
}

} // verus!
