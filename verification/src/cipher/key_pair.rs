//! Key pairs on secp256k1, kept as upper-case hex.

use vstd::prelude::*;
use crate::cipher::CipherError;
use crate::encoding::{
    hex_decode, hex_encode_upper, lemma_hex_round_trip, spec_hex_decode, spec_hex_encode_upper,
};
use k256::elliptic_curve::sec1::{FromEncodedPoint, ToEncodedPoint};

verus! {

/// The number that `bytes` encode, most significant byte first.
pub open spec fn spec_be_value(bytes: Seq<u8>) -> nat
    decreases bytes.len(),
{
    if bytes.len() == 0 {
        0
    } else {
        spec_be_value(bytes.drop_last()) * 256 + bytes.last() as nat
    }
}

/// The order `n` of the group of secp256k1.
pub open spec fn spec_curve_order() -> nat {
    0xFFFFFFFFFFFFFFFFFFFFFFFFFFFFFFFEBAAEDCE6AF48A03BBFD25E8CD0364141nat
}

/// The prime `p` of the field of secp256k1.
pub open spec fn spec_field_prime() -> nat {
    0xFFFFFFFFFFFFFFFFFFFFFFFFFFFFFFFFFFFFFFFFFFFFFFFFFFFFFFFEFFFFFC2Fnat
}

/// Whether `bytes` are a secret scalar: 32 bytes whose value lies in `1..n`.
pub open spec fn spec_is_secret_scalar(bytes: Seq<u8>) -> bool {
    bytes.len() == 32 && 0 < spec_be_value(bytes) < spec_curve_order()
}

/// Whether `bytes` are an untagged public key: 64 bytes `X ‖ Y` with
/// `X, Y < p` and `Y² = X³ + 7 (mod p)`.
pub open spec fn spec_is_curve_point(bytes: Seq<u8>) -> bool {
    bytes.len() == 64 && {
        let x = spec_be_value(bytes.subrange(0, 32));
        let y = spec_be_value(bytes.subrange(32, 64));
        let p = spec_field_prime();
        x < p && y < p && (y * y) % p == (x * x * x + 7) % p
    }
}

/// The secret scalar that `raw` stands for: `raw` itself, if it has
/// exactly 32 bytes and its value lies in `1..n`.
pub open spec fn spec_secret_scalar(raw: Seq<u8>) -> Option<Seq<u8>> {
    if spec_is_secret_scalar(raw) {
        Some(raw)
    } else {
        None
    }
}

/// The secret scalar that a private key in hex text stands for: the text
/// has to be 64 hex digits, their value has to lie in `1..n`, and the scalar
/// has to have a public point.
pub open spec fn spec_private_key(text: Seq<char>) -> Option<Seq<u8>> {
    match spec_hex_decode(text) {
        Some(raw) => match spec_secret_scalar(raw) {
            Some(secret) => if spec_public_point(secret) is Some {
                Some(secret)
            } else {
                None
            },
            None => None,
        },
        None => None,
    }
}

/// The untagged public key `X ‖ Y` of the point `secret · G`.
pub uninterp spec fn spec_public_point(secret: Seq<u8>) -> Option<Seq<u8>>;

/// The X coordinate of the point `secret · P`, `P` the point that `peer`
/// encodes: the raw shared secret of a Diffie-Hellman exchange.
pub uninterp spec fn spec_ecdh(secret: Seq<u8>, peer: Seq<u8>) -> Seq<u8>;

/// `k256::SecretKey::from_slice` on 32 bytes, then `to_bytes`: the bytes
/// as they are, unless their value is zero or not below the order of the
/// curve.
#[verifier::external_body]
fn secret_scalar(raw: &[u8]) -> (res: Option<Vec<u8>>)
    requires
        raw@.len() == 32,
    ensures
        match res {
            Some(scalar) => spec_secret_scalar(raw@) == Some(scalar@),
            None => spec_secret_scalar(raw@) is None,
        },
{
    match k256::SecretKey::from_slice(raw) {
        Ok(key) => Some(key.to_bytes().to_vec()),
        Err(_) => None,
    }
}

/// The secret scalar that `raw` stands for; bytes that are not 32 are
/// refused before they are looked at.
pub(crate) fn checked_scalar(raw: &[u8]) -> (res: Option<Vec<u8>>)
    ensures
        match res {
            Some(scalar) => spec_secret_scalar(raw@) == Some(scalar@),
            None => spec_secret_scalar(raw@) is None,
        },
{
    if raw.len() != 32 {
        return None;
    }
    secret_scalar(raw)
}

/// `k256::SecretKey::public_key`, encoded without the SEC1 tag. The key is
/// parsed back from its SEC1 form first, which checks that it is a point
/// of the curve.
#[verifier::external_body]
fn public_point(secret: &[u8]) -> (res: Option<Vec<u8>>)
    requires
        spec_is_secret_scalar(secret@),
    ensures
        match res {
            Some(point) => spec_public_point(secret@) == Some(point@) && spec_is_curve_point(
                point@,
            ),
            None => spec_public_point(secret@) is None,
        },
{
    let key = k256::SecretKey::from_slice(secret).ok()?;
    let encoded = k256::EncodedPoint::from(key.public_key());
    let public = k256::PublicKey::from_sec1_bytes(encoded.as_ref()).ok()?;
    let point = public.to_encoded_point(false);
    let mut out: Vec<u8> = Vec::new();
    out.extend_from_slice(point.x()?);
    out.extend_from_slice(point.y()?);
    Some(out)
}

/// `k256::ecdh::diffie_hellman` on a secret scalar and an untagged public
/// key: `None` unless the key is a point of the curve, else the 32 bytes of
/// the shared secret, which are those that the holder of the key's secret
/// scalar computes from this side's public key.
#[verifier::external_body]
pub(crate) fn shared_secret(secret: &[u8], peer: &[u8]) -> (res: Option<Vec<u8>>)
    requires
        spec_is_secret_scalar(secret@),
        peer@.len() == 64,
    ensures
        res is Some == spec_is_curve_point(peer@),
        res matches Some(shared) ==> shared@ == spec_ecdh(secret@, peer@) && shared@.len() == 32
            && spec_peers_agree(secret@, peer@, shared@),
{
    let key = k256::SecretKey::from_slice(secret).ok()?;
    let point = k256::EncodedPoint::from_untagged_bytes(peer.into());
    let public: Option<k256::PublicKey> = k256::PublicKey::from_encoded_point(&point).into();
    let shared = k256::ecdh::diffie_hellman(key.to_nonzero_scalar(), public?.as_affine());
    Some(shared.raw_secret_bytes().to_vec())
}

/// `k256::SecretKey::random` on the operating system's generator: a scalar
/// in `1..n`, as 32 bytes.
#[verifier::external_body]
fn random_secret() -> (res: Vec<u8>)
    ensures
        spec_is_secret_scalar(res@),
{
    k256::SecretKey::random(&mut rand_core::OsRng).to_bytes().to_vec()
}

/// Whether `secret` is the secret scalar of the public key given as hex
/// text.
pub open spec fn spec_owns(secret: Seq<u8>, public_text: Seq<char>) -> bool {
    spec_is_secret_scalar(secret) && spec_hex_decode(public_text) is Some && spec_public_point(
        secret,
    ) == spec_hex_decode(public_text)
}

/// Both sides of an exchange arrive at `shared`: whoever holds the secret
/// scalar of `peer` computes it from the public key of `secret`.
pub open spec fn spec_peers_agree(secret: Seq<u8>, peer: Seq<u8>, shared: Seq<u8>) -> bool {
    forall|other: Seq<u8>|
        spec_is_secret_scalar(other) && spec_public_point(other) == Some(peer) && spec_public_point(
            secret,
        ) is Some ==> #[trigger] spec_ecdh(other, spec_public_point(secret)->0) == shared
}

/// A key pair on secp256k1: the private scalar and the public point, both
/// as upper-case hex, the point as its coordinates `X ‖ Y` without a tag.
#[derive(Debug, Clone)]
pub struct KeyPair {
    pub public_key: String,
    pub private_key: String,
}

impl KeyPair {
    /// The secret scalar that the private key stands for, if it is one.
    pub open spec fn spec_secret(&self) -> Option<Seq<u8>> {
        match spec_hex_decode(self.private_key@) {
            Some(raw) => spec_secret_scalar(raw),
            None => None,
        }
    }

    /// The untagged public key that belongs to the private key.
    pub open spec fn spec_public(&self) -> Option<Seq<u8>> {
        match self.spec_secret() {
            Some(secret) => spec_public_point(secret),
            None => None,
        }
    }

    /// Whether this is a key pair: the private key is the hex text of a
    /// scalar in `1..n`, 64 digits, and the public key the hex text of its
    /// point, 128 digits.
    pub open spec fn wf(&self) -> bool {
        &&& self.spec_secret() matches Some(secret)
        &&& self.private_key@ == spec_hex_encode_upper(secret)
        &&& self.spec_public() matches Some(point)
        &&& spec_is_curve_point(point)
        &&& self.public_key@ == spec_hex_encode_upper(point)
    }

    /// The key pair of a pair of scalar and point.
    pub open spec fn spec_holds(&self, secret: Seq<u8>, point: Seq<u8>) -> bool {
        &&& self.private_key@ == spec_hex_encode_upper(secret)
        &&& self.public_key@ == spec_hex_encode_upper(point)
    }

    /// The key pair of a secret scalar given as 32 bytes, most significant
    /// first.
    pub fn from_secret_key(secret_key: &[u8]) -> (res: Result<KeyPair, CipherError>)
        ensures
            match res {
                Ok(pair) => {
                    &&& spec_secret_scalar(secret_key@) matches Some(secret)
                    &&& spec_public_point(secret) matches Some(point)
                    &&& spec_is_curve_point(point)
                    &&& pair.spec_holds(secret, point)
                    &&& pair.spec_secret() == Some(secret)
                    &&& pair.wf()
                },
                Err(e) => {
                    &&& e == CipherError::InvalidKey
                    &&& spec_secret_scalar(secret_key@) matches Some(secret) ==> spec_public_point(
                        secret,
                    ) is None
                },
            },
    {
        let secret = match checked_scalar(secret_key) {
            Some(secret) => secret,
            None => {
                return Err(CipherError::InvalidKey);
            },
        };
        let point = match public_point(secret.as_slice()) {
            Some(point) => point,
            None => {
                return Err(CipherError::InvalidKey);
            },
        };
        let public_key = hex_encode_upper(point.as_slice());
        let private_key = hex_encode_upper(secret.as_slice());
        proof {
            lemma_hex_round_trip(secret@);
        }
        Ok(KeyPair { public_key, private_key })
    }

    /// The key pair of a private key given as hex text.
    pub fn from_private_key_str(private_key: &str) -> (res: Result<KeyPair, CipherError>)
        ensures
            match res {
                Ok(pair) => {
                    &&& spec_private_key(private_key@) matches Some(secret)
                    &&& spec_public_point(secret) matches Some(point)
                    &&& spec_is_curve_point(point)
                    &&& pair.spec_holds(secret, point)
                    &&& pair.spec_secret() == Some(secret)
                    &&& pair.wf()
                },
                Err(e) => e == CipherError::InvalidKey && spec_private_key(private_key@) is None,
            },
    {
        match hex_decode(private_key) {
            Some(raw) => Self::from_secret_key(raw.as_slice()),
            None => Err(CipherError::InvalidKey),
        }
    }

    /// The secret scalar of this key pair as 32 bytes.
    pub fn secret_bytes(&self) -> (res: Option<Vec<u8>>)
        ensures
            match res {
                Some(secret) => self.spec_secret() == Some(secret@) && spec_is_secret_scalar(
                    secret@,
                ),
                None => self.spec_secret() is None,
            },
    {
        match hex_decode(self.private_key.as_str()) {
            Some(raw) => checked_scalar(raw.as_slice()),
            None => None,
        }
    }

    /// The public key as 64 bytes `X ‖ Y`, derived from the private key.
    pub fn to_public_key_untagged_bytes(&self) -> (res: Result<Vec<u8>, CipherError>)
        ensures
            match res {
                Ok(point) => self.spec_public() == Some(point@) && spec_is_curve_point(point@),
                Err(e) => e == CipherError::InvalidKey && self.spec_public() is None,
            },
    {
        let secret = match self.secret_bytes() {
            Some(secret) => secret,
            None => {
                return Err(CipherError::InvalidKey);
            },
        };
        match public_point(secret.as_slice()) {
            Some(point) => Ok(point),
            None => Err(CipherError::InvalidKey),
        }
    }

    /// A fresh key pair from the operating system's random generator. It
    /// fails only where the scalar that was drawn has no public point.
    pub fn random() -> (res: Result<KeyPair, CipherError>)
        ensures
            res matches Ok(pair) ==> pair.wf(),
            res matches Err(e) ==> e == CipherError::InvalidKey && exists|secret: Seq<u8>|
                spec_is_secret_scalar(secret) && #[trigger] spec_public_point(secret) is None,
    {
        let secret = random_secret();
        Self::from_secret_key(secret.as_slice())
    }

    /// The raw shared secret of a Diffie-Hellman exchange with the holder
    /// of the untagged public key `pub_key_slice`: 32 bytes, the X
    /// coordinate of the shared point.
    ///
    /// The holder of that key's secret scalar arrives at the same bytes
    /// from this pair's public key.
    pub fn diffie_hellman(&self, pub_key_slice: &[u8]) -> (res: Result<Vec<u8>, CipherError>)
        ensures
            match res {
                Ok(shared) => {
                    &&& self.spec_secret() matches Some(secret)
                    &&& spec_is_curve_point(pub_key_slice@)
                    &&& shared@ == spec_ecdh(secret, pub_key_slice@)
                    &&& shared@.len() == 32
                    &&& spec_peers_agree(secret, pub_key_slice@, shared@)
                },
                Err(CipherError::InvalidKey) => self.spec_secret() is None,
                Err(CipherError::InvalidPublicKey) => self.spec_secret() is Some
                    && !spec_is_curve_point(pub_key_slice@),
            },
    {
        let secret = match self.secret_bytes() {
            Some(secret) => secret,
            None => {
                return Err(CipherError::InvalidKey);
            },
        };
        if pub_key_slice.len() != 64 {
            return Err(CipherError::InvalidPublicKey);
        }
        match shared_secret(secret.as_slice(), pub_key_slice) {
            Some(shared) => Ok(shared),
            None => Err(CipherError::InvalidPublicKey),
        }
    }
}

/// Diffie-Hellman is symmetric: the shared secret that one key pair
/// arrives at with the public key of another is the one that the other
/// arrives at with the public key of the first.
pub proof fn lemma_shared_secret_is_symmetric(a: KeyPair, b: KeyPair, shared: Seq<u8>)
    requires
        a.wf(),
        b.wf(),
        spec_peers_agree(a.spec_secret()->0, b.spec_public()->0, shared),
    ensures
        spec_ecdh(b.spec_secret()->0, a.spec_public()->0) == shared,
{
}

/// The private key of a key pair stands for the secret scalar of its
/// public key.
pub proof fn lemma_key_pair_owns_its_public_key(pair: KeyPair)
    requires
        pair.wf(),
    ensures
        spec_private_key(pair.private_key@) == pair.spec_secret(),
        spec_owns(pair.spec_secret()->0, pair.public_key@),
{
    lemma_hex_round_trip(pair.spec_public()->0);
}

} // verus!
