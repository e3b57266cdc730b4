//! AES-128-CFB under a key agreed by ECDH: the first 16 bytes of the raw
//! shared secret are the key, with no derivation in between.

use vstd::prelude::*;
use aes::cipher::{AsyncStreamCipher, KeyIvInit};
use rand::Rng;
use crate::cipher::CipherError;
use crate::cipher::key_pair::{
    spec_ecdh, spec_is_curve_point, spec_peers_agree, spec_private_key, spec_public_point,
    KeyPair,
};
use crate::io::frame::copy_range;

verus! {

/// What AES-128-CFB makes of `data` under `key` and `iv`.
pub uninterp spec fn spec_aes128_cfb_encrypt(key: Seq<u8>, iv: Seq<u8>, data: Seq<u8>) -> Seq<u8>;

/// What AES-128-CFB recovers from `data` under `key` and `iv`.
pub uninterp spec fn spec_aes128_cfb_decrypt(key: Seq<u8>, iv: Seq<u8>, data: Seq<u8>) -> Seq<u8>;

/// The AES key that a raw shared secret gives: its first 16 bytes.
pub open spec fn spec_aes_key(shared: Seq<u8>) -> Seq<u8> {
    shared.subrange(0, 16)
}

/// `cfb_mode::Encryptor<aes::Aes128>`, `encrypt` in place: the ciphertext
/// has the length of the plaintext, and decryption under the same key and
/// IV gives the plaintext back.
#[verifier::external_body]
fn aes128_cfb_encrypt(key: &[u8], iv: &[u8], buffer: &mut Vec<u8>)
    requires
        key@.len() == 16,
        iv@.len() == 16,
    ensures
        final(buffer)@ == spec_aes128_cfb_encrypt(key@, iv@, old(buffer)@),
        final(buffer)@.len() == old(buffer)@.len(),
        spec_aes128_cfb_decrypt(key@, iv@, final(buffer)@) == old(buffer)@,
{
    cfb_mode::Encryptor::<aes::Aes128>::new(key.into(), iv.into()).encrypt(buffer);
}

/// `cfb_mode::Decryptor<aes::Aes128>`, `decrypt` in place: the result has
/// the length of the input.
#[verifier::external_body]
pub(crate) fn aes128_cfb_decrypt(key: &[u8], iv: &[u8], buffer: &mut Vec<u8>)
    requires
        key@.len() == 16,
        iv@.len() == 16,
    ensures
        final(buffer)@ == spec_aes128_cfb_decrypt(key@, iv@, old(buffer)@),
        final(buffer)@.len() == old(buffer)@.len(),
{
    cfb_mode::Decryptor::<aes::Aes128>::new(key.into(), iv.into()).decrypt(buffer);
}

/// `rand::thread_rng`, `fill` on 16 bytes.
#[verifier::external_body]
fn fill_random_iv() -> (iv: [u8; 16]) {
    let mut iv = [0u8; 16];
    rand::thread_rng().fill(&mut iv[..]);
    iv
}

/// The local party of an exchange: one key pair, with which buffers are
/// sealed for, and opened from, the holder of another.
#[derive(Clone)]
pub struct Cipher {
    key_pair: KeyPair,
}

impl Cipher {
    /// The key pair this cipher holds.
    pub closed spec fn spec_key_pair(&self) -> KeyPair {
        self.key_pair
    }

    /// The secret scalar of the key pair this cipher holds.
    pub open spec fn spec_secret(&self) -> Option<Seq<u8>> {
        self.spec_key_pair().spec_secret()
    }

    /// A cipher for the private key given as hex text.
    pub fn new(pri_key_str: &str) -> (res: Result<Cipher, CipherError>)
        ensures
            match res {
                Ok(cipher) => {
                    &&& spec_private_key(pri_key_str@) matches Some(secret)
                    &&& spec_public_point(secret) matches Some(point)
                    &&& spec_is_curve_point(point)
                    &&& cipher.spec_key_pair().spec_holds(secret, point)
                    &&& cipher.spec_secret() == Some(secret)
                    &&& cipher.spec_key_pair().wf()
                },
                Err(e) => e == CipherError::InvalidKey && spec_private_key(pri_key_str@) is None,
            },
    {
        match KeyPair::from_private_key_str(pri_key_str) {
            Ok(key_pair) => Ok(Cipher { key_pair }),
            Err(e) => Err(e),
        }
    }

    pub fn get_key_pair(&self) -> (key_pair: &KeyPair)
        ensures
            *key_pair == self.spec_key_pair(),
    {
        &self.key_pair
    }

    /// The raw shared secret with the holder of the untagged public key
    /// `swaped_pub_key`.
    pub fn get_shared_key(&self, swaped_pub_key: &[u8]) -> (res: Result<Vec<u8>, CipherError>)
        ensures
            match res {
                Ok(shared) => {
                    &&& self.spec_secret() matches Some(secret)
                    &&& spec_is_curve_point(swaped_pub_key@)
                    &&& shared@ == spec_ecdh(secret, swaped_pub_key@)
                    &&& shared@.len() == 32
                    &&& spec_peers_agree(secret, swaped_pub_key@, shared@)
                },
                Err(CipherError::InvalidKey) => self.spec_secret() is None,
                Err(CipherError::InvalidPublicKey) => self.spec_secret() is Some
                    && !spec_is_curve_point(swaped_pub_key@),
            },
    {
        self.key_pair.diffie_hellman(swaped_pub_key)
    }

    /// Sixteen fresh random bytes.
    pub fn random_iv() -> (iv: [u8; 16])
        ensures
            iv@.len() == 16,
    {
        fill_random_iv()
    }

    /// Decrypts `buffer` in place with the key shared with the holder of
    /// `swaped_pub_key`. Where a key is refused the buffer is left as it is.
    pub fn decrypt_inplace(&self, swaped_pub_key: &[u8], iv: &[u8], buffer: &mut Vec<u8>) -> (res:
        Result<(), CipherError>)
        requires
            iv@.len() == 16,
        ensures
            match res {
                Ok(_) => {
                    &&& self.spec_secret() matches Some(secret)
                    &&& spec_is_curve_point(swaped_pub_key@)
                    &&& final(buffer)@ == spec_aes128_cfb_decrypt(
                        spec_aes_key(spec_ecdh(secret, swaped_pub_key@)),
                        iv@,
                        old(buffer)@,
                    )
                    &&& final(buffer)@.len() == old(buffer)@.len()
                },
                Err(e) => {
                    &&& final(buffer)@ == old(buffer)@
                    &&& e == CipherError::InvalidKey <==> self.spec_secret() is None
                    &&& e == CipherError::InvalidPublicKey ==> !spec_is_curve_point(
                        swaped_pub_key@,
                    )
                },
            },
    {
        let shared = match self.get_shared_key(swaped_pub_key) {
            Ok(shared) => shared,
            Err(e) => {
                return Err(e);
            },
        };
        let aes_key = copy_range(shared.as_slice(), 0, 16);
        aes128_cfb_decrypt(aes_key.as_slice(), iv, buffer);
        Ok(())
    }

    /// Encrypts `buffer` in place with the key shared with the holder of
    /// `swaped_pub_key`. Where a key is refused the buffer is left as it is.
    ///
    /// The holder of the secret scalar of `swaped_pub_key` arrives at the
    /// same key from this cipher's public key, and decrypting under it
    /// with `iv` gives the buffer back.
    pub fn encrypt_inplace(&self, swaped_pub_key: &[u8], iv: &[u8], buffer: &mut Vec<u8>) -> (res:
        Result<(), CipherError>)
        requires
            iv@.len() == 16,
        ensures
            match res {
                Ok(_) => {
                    &&& self.spec_secret() matches Some(secret)
                    &&& spec_is_curve_point(swaped_pub_key@)
                    &&& final(buffer)@ == spec_aes128_cfb_encrypt(
                        spec_aes_key(spec_ecdh(secret, swaped_pub_key@)),
                        iv@,
                        old(buffer)@,
                    )
                    &&& final(buffer)@.len() == old(buffer)@.len()
                    &&& spec_aes128_cfb_decrypt(
                        spec_aes_key(spec_ecdh(secret, swaped_pub_key@)),
                        iv@,
                        final(buffer)@,
                    ) == old(buffer)@
                    &&& spec_peers_agree(
                        secret,
                        swaped_pub_key@,
                        spec_ecdh(secret, swaped_pub_key@),
                    )
                },
                Err(e) => {
                    &&& final(buffer)@ == old(buffer)@
                    &&& e == CipherError::InvalidKey <==> self.spec_secret() is None
                    &&& e == CipherError::InvalidPublicKey ==> !spec_is_curve_point(
                        swaped_pub_key@,
                    )
                },
            },
    {
        let shared = match self.get_shared_key(swaped_pub_key) {
            Ok(shared) => shared,
            Err(e) => {
                return Err(e);
            },
        };
        let aes_key = copy_range(shared.as_slice(), 0, 16);
        aes128_cfb_encrypt(aes_key.as_slice(), iv, buffer);
        Ok(())
    }
}

} // verus!
