//! Opening sealed buffers with a private key alone, for a party that never
//! seals and so needs no public key of its own.

use vstd::prelude::*;
use crate::cipher::aes_cfb_ecdh::{aes128_cfb_decrypt, spec_aes128_cfb_decrypt, spec_aes_key};
use crate::cipher::key_pair::{
    checked_scalar, shared_secret, spec_ecdh, spec_is_curve_point, spec_is_secret_scalar,
    spec_peers_agree, spec_secret_scalar,
};
use crate::cipher::CipherError;
use crate::encoding::{hex_decode, spec_hex_decode};
use crate::io::frame::copy_range;

verus! {

/// The holder of a secret scalar.
pub struct AESDecryptor {
    secret: Vec<u8>,
}

impl AESDecryptor {
    #[verifier::type_invariant]
    spec fn inv(self) -> bool {
        spec_is_secret_scalar(self.secret@)
    }

    /// The secret scalar, as 32 bytes.
    pub closed spec fn spec_secret(&self) -> Seq<u8> {
        self.secret@
    }

    /// The scalar that a private key in hex text stands for.
    pub open spec fn spec_scalar_of(text: Seq<char>) -> Option<Seq<u8>> {
        match spec_hex_decode(text) {
            Some(raw) => spec_secret_scalar(raw),
            None => None,
        }
    }

    /// A decryptor for the private key given as hex text.
    pub fn new(pri_key_str: &str) -> (res: Result<AESDecryptor, CipherError>)
        ensures
            match res {
                Ok(decryptor) => Self::spec_scalar_of(pri_key_str@) == Some(
                    decryptor.spec_secret(),
                ) && spec_is_secret_scalar(decryptor.spec_secret()),
                Err(e) => e == CipherError::InvalidKey && Self::spec_scalar_of(pri_key_str@)
                    is None,
            },
    {
        let raw = match hex_decode(pri_key_str) {
            Some(raw) => raw,
            None => {
                return Err(CipherError::InvalidKey);
            },
        };
        match checked_scalar(raw.as_slice()) {
            Some(secret) => Ok(AESDecryptor { secret }),
            None => Err(CipherError::InvalidKey),
        }
    }

    /// The raw shared secret with the holder of the untagged public key
    /// `client_pub_key`, who arrives at the same bytes from the public key
    /// of this secret scalar.
    pub fn get_shared_key(&self, client_pub_key: &[u8]) -> (res: Result<Vec<u8>, CipherError>)
        ensures
            match res {
                Ok(shared) => {
                    &&& spec_is_curve_point(client_pub_key@)
                    &&& shared@ == spec_ecdh(self.spec_secret(), client_pub_key@)
                    &&& shared@.len() == 32
                    &&& spec_peers_agree(self.spec_secret(), client_pub_key@, shared@)
                },
                Err(e) => e == CipherError::InvalidPublicKey && !spec_is_curve_point(
                    client_pub_key@,
                ),
            },
    {
        proof {
            use_type_invariant(self);
        }
        if client_pub_key.len() != 64 {
            return Err(CipherError::InvalidPublicKey);
        }
        match shared_secret(self.secret.as_slice(), client_pub_key) {
            Some(shared) => Ok(shared),
            None => Err(CipherError::InvalidPublicKey),
        }
    }

    /// Decrypts `encrypt` in place with the key shared with the holder of
    /// `client_pub_key`. Where the key is refused the buffer is left as it is.
    pub fn decrypt_inplace(
        &mut self,
        client_pub_key: &[u8],
        iv: &[u8],
        encrypt: &mut Vec<u8>,
    ) -> (res: Result<(), CipherError>)
        requires
            iv@.len() == 16,
        ensures
            final(self).spec_secret() == old(self).spec_secret(),
            match res {
                Ok(_) => {
                    &&& spec_is_curve_point(client_pub_key@)
                    &&& final(encrypt)@ == spec_aes128_cfb_decrypt(
                        spec_aes_key(spec_ecdh(old(self).spec_secret(), client_pub_key@)),
                        iv@,
                        old(encrypt)@,
                    )
                    &&& final(encrypt)@.len() == old(encrypt)@.len()
                },
                Err(e) => {
                    &&& e == CipherError::InvalidPublicKey
                    &&& !spec_is_curve_point(client_pub_key@)
                    &&& final(encrypt)@ == old(encrypt)@
                },
            },
    {
        let shared = match self.get_shared_key(client_pub_key) {
            Ok(shared) => shared,
            Err(e) => {
                return Err(e);
            },
        };
        let aes_key = copy_range(shared.as_slice(), 0, 16);
        aes128_cfb_decrypt(aes_key.as_slice(), iv, encrypt);
        Ok(())
    }
}

} // verus!
