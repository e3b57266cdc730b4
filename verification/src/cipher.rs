//! Key material on secp256k1 and the AES-128-CFB envelope keyed by ECDH.

use vstd::prelude::*;

pub mod aes_cfb_ecdh;
pub mod key_pair;

verus! {

/// Why a key was refused.
#[derive(Debug, Clone, Copy, PartialEq, Eq, Structural)]
pub enum CipherError {
    /// The private key is not the hex form of a scalar in `1..n`, `n` the
    /// order of the curve.
    InvalidKey,
    /// The public key is not 64 bytes that are the coordinates of a point of
    /// the curve.
    InvalidPublicKey,
}

} // verus!
