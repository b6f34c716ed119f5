//! The pluggable hashing abstraction: a strategy maps an item's bytes to a
//! single 64-bit digest, which the filter then spreads over `k` bit
//! positions. A strategy must be a pure function of the input bytes; both
//! strategies here take the first 8 bytes of a SHA-3 digest, read
//! big-endian.

use sha3::Digest;
use vstd::prelude::*;

verus! {

/// The 64-bit value that the SHA3-256 strategy assigns to a byte string:
/// the first 8 bytes of the 256-bit digest, read big-endian.
pub uninterp spec fn sha3_256_u64_of(data: Seq<u8>) -> u64;

/// The 64-bit value that the SHA3-512 strategy assigns to a byte string:
/// the first 8 bytes of the 512-bit digest, read big-endian.
pub uninterp spec fn sha3_512_u64_of(data: Seq<u8>) -> u64;

/// Relies on sha3::Sha3_256 through the digest::Digest one-shot interface:
/// the 256-bit digest is a deterministic function of the input bytes alone,
/// and its first 8 bytes are read here as one big-endian u64.
#[verifier::external_body]
fn sha3_256_prefix_u64(data: &[u8]) -> (r: u64)
    ensures
        r == sha3_256_u64_of(data@),
{
    let digest = sha3::Sha3_256::digest(data);
    let mut buf = [0u8; 8];
    buf.copy_from_slice(&digest[..8]);
    u64::from_be_bytes(buf)
}

/// Relies on sha3::Sha3_512 through the digest::Digest one-shot interface:
/// the 512-bit digest is a deterministic function of the input bytes alone,
/// and its first 8 bytes are read here as one big-endian u64.
#[verifier::external_body]
fn sha3_512_prefix_u64(data: &[u8]) -> (r: u64)
    ensures
        r == sha3_512_u64_of(data@),
{
    let digest = sha3::Sha3_512::digest(data);
    let mut buf = [0u8; 8];
    buf.copy_from_slice(&digest[..8]);
    u64::from_be_bytes(buf)
}

/// A hash strategy: a deterministic map from an item's bytes to a 64-bit
/// digest value. `hash_spec` is the strategy's mathematical content, and
/// `hash` must return exactly that value — determinism is what makes the
/// filter's insert and query probe the same positions for the same item.
pub trait Hasher: Sized {
    /// The value this strategy assigns to a byte string.
    spec fn hash_spec(data: Seq<u8>) -> u64;

    /// Computes the strategy's value on the given bytes.
    fn hash(data: &[u8]) -> (r: u64)
        ensures
            r == Self::hash_spec(data@),
    ;
}

/// The default strategy: the first 8 bytes of a SHA3-256 digest of the
/// item, read as a big-endian u64.
pub struct DefaultHasher {}

impl Hasher for DefaultHasher {
    open spec fn hash_spec(data: Seq<u8>) -> u64 {
        sha3_256_u64_of(data)
    }

    fn hash(data: &[u8]) -> (r: u64) {
        sha3_256_prefix_u64(data)
    }
}

/// An alternative strategy built on the wider SHA3-512 digest, again taking
/// the first 8 bytes big-endian; a drop-in swap for the default.
pub struct Sha512Hasher {}

impl Hasher for Sha512Hasher {
    open spec fn hash_spec(data: Seq<u8>) -> u64 {
        sha3_512_u64_of(data)
    }

    fn hash(data: &[u8]) -> (r: u64) {
        sha3_512_prefix_u64(data)
    }
}

} // verus!
