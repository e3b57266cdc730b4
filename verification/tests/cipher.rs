use aes::cipher::{AsyncStreamCipher, KeyIvInit};
use glog_rust::cipher::aes_cfb_ecdh::Cipher;
use glog_rust::cipher::key_pair::KeyPair;
use glog_rust::cipher::CipherError;
use glog_rust::decrypt::AESDecryptor;

const ONE: &str = "0000000000000000000000000000000000000000000000000000000000000001";
const GENERATOR: &str = "79BE667EF9DCBBAC55A06295CE870B07029BFCDB2DCE28D959F2815B16F81798483ADA7726A3C4655DA4FBFC0E1108A8FD17B448A68554199C47D08FFB10D4B8";
const ORDER: &str = "FFFFFFFFFFFFFFFFFFFFFFFFFFFFFFFEBAAEDCE6AF48A03BBFD25E8CD0364141";
const ORDER_MINUS_ONE: &str = "FFFFFFFFFFFFFFFFFFFFFFFFFFFFFFFEBAAEDCE6AF48A03BBFD25E8CD0364140";
const SERVER_KEY: &str = "1E99423A4ED27608A15A2616A2B0E9E52CED330AC530EDCC32C8FFC6A526AEDD";

#[test]
fn test_encryption() {
    let plain_text = b"hello world";
    let client_key_pair = KeyPair::random().unwrap();
    let server_key_pair = KeyPair::random().unwrap();

    let client_cipher = Cipher::new(&client_key_pair.private_key).unwrap();
    let random_iv = Cipher::random_iv();
    let mut buffer = plain_text.to_vec();

    client_cipher
        .encrypt_inplace(
            &server_key_pair.to_public_key_untagged_bytes().unwrap(),
            &random_iv,
            &mut buffer,
        )
        .unwrap();

    println!("encrypted: {:?}", String::from_utf8_lossy(&buffer));

    let server_cipher = Cipher::new(&server_key_pair.private_key).unwrap();
    server_cipher
        .decrypt_inplace(
            &client_key_pair.to_public_key_untagged_bytes().unwrap(),
            &random_iv,
            &mut buffer,
        )
        .unwrap();

    println!("decrypted: {:?}", String::from_utf8_lossy(&buffer));
    println!("decrypted == original: {}", buffer == plain_text);

    assert!(buffer == plain_text);
}

#[test]
fn public_key_of_scalar_one_is_the_generator() {
    let pair = KeyPair::from_private_key_str(ONE).unwrap();
    assert_eq!(pair.private_key, ONE);
    assert_eq!(pair.public_key, GENERATOR);
    assert_eq!(pair.to_public_key_untagged_bytes().unwrap(), hex::decode(GENERATOR).unwrap());
}

#[test]
fn private_key_is_kept_as_upper_case_hex() {
    let pair = KeyPair::from_private_key_str(&SERVER_KEY.to_lowercase()).unwrap();
    assert_eq!(pair.private_key, SERVER_KEY);
    assert_eq!(pair.public_key.len(), 128);
    assert_eq!(pair.public_key, pair.public_key.to_uppercase());
}

#[test]
fn key_pair_from_scalar_bytes() {
    let from_bytes = KeyPair::from_secret_key(&hex::decode(SERVER_KEY).unwrap()).unwrap();
    let from_text = KeyPair::from_private_key_str(SERVER_KEY).unwrap();
    assert_eq!(from_bytes.private_key, from_text.private_key);
    assert_eq!(from_bytes.public_key, from_text.public_key);
}

#[test]
fn private_key_must_be_64_hex_digits() {
    for digits in [0usize, 2, 46, 48, 50, 62, 63, 65, 66, 128] {
        let text = "1".repeat(digits);
        assert_eq!(
            KeyPair::from_private_key_str(&text).err(),
            Some(CipherError::InvalidKey),
            "{} digits",
            digits
        );
        assert_eq!(Cipher::new(&text).err(), Some(CipherError::InvalidKey));
        assert_eq!(AESDecryptor::new(&text).err(), Some(CipherError::InvalidKey));
    }
    let pair = KeyPair::from_private_key_str(&"1".repeat(64)).unwrap();
    assert_eq!(pair.private_key, "1".repeat(64));
    assert!(Cipher::new(&"1".repeat(64)).is_ok());
    assert!(AESDecryptor::new(&"1".repeat(64)).is_ok());
}

#[test]
fn secret_scalar_must_be_32_bytes() {
    for len in [0usize, 1, 23, 24, 31, 33, 64] {
        assert_eq!(
            KeyPair::from_secret_key(&vec![1u8; len]).err(),
            Some(CipherError::InvalidKey),
            "{} bytes",
            len
        );
    }
    let pair = KeyPair::from_secret_key(&[1u8; 32]).unwrap();
    assert_eq!(pair.private_key, "01".repeat(32));
    assert_eq!(pair.public_key.len(), 128);
}

#[test]
fn zero_and_out_of_range_scalars_are_refused() {
    let zero = "00".repeat(32);
    assert_eq!(KeyPair::from_private_key_str(&zero).err(), Some(CipherError::InvalidKey));
    assert_eq!(KeyPair::from_private_key_str(ORDER).err(), Some(CipherError::InvalidKey));
    assert_eq!(
        KeyPair::from_private_key_str(&"FF".repeat(32)).err(),
        Some(CipherError::InvalidKey)
    );
    assert!(KeyPair::from_private_key_str(ORDER_MINUS_ONE).is_ok());
}

#[test]
fn malformed_private_keys_are_refused() {
    assert_eq!(KeyPair::from_private_key_str("").err(), Some(CipherError::InvalidKey));
    assert_eq!(KeyPair::from_private_key_str("xyz").err(), Some(CipherError::InvalidKey));
    assert_eq!(KeyPair::from_private_key_str(&ONE[1..]).err(), Some(CipherError::InvalidKey));
    assert_eq!(
        KeyPair::from_private_key_str(&"01".repeat(23)).err(),
        Some(CipherError::InvalidKey)
    );
    assert_eq!(
        KeyPair::from_private_key_str(&"01".repeat(33)).err(),
        Some(CipherError::InvalidKey)
    );
    assert_eq!(Cipher::new("not a key").err(), Some(CipherError::InvalidKey));
    assert_eq!(AESDecryptor::new("not a key").err(), Some(CipherError::InvalidKey));
    assert_eq!(AESDecryptor::new(ORDER).err(), Some(CipherError::InvalidKey));
}

#[test]
fn key_pair_with_broken_private_key_reports_invalid_key() {
    let pair = KeyPair { public_key: GENERATOR.to_string(), private_key: "zz".to_string() };
    assert_eq!(pair.to_public_key_untagged_bytes().err(), Some(CipherError::InvalidKey));
    assert_eq!(
        pair.diffie_hellman(&hex::decode(GENERATOR).unwrap()).err(),
        Some(CipherError::InvalidKey)
    );
    assert!(pair.secret_bytes().is_none());
}

#[test]
fn random_key_pairs_are_valid_and_differ() {
    let a = KeyPair::random().unwrap();
    let b = KeyPair::random().unwrap();
    assert_ne!(a.private_key, b.private_key);
    assert_eq!(a.private_key.len(), 64);
    assert_eq!(a.public_key.len(), 128);
    let again = KeyPair::from_private_key_str(&a.private_key).unwrap();
    assert_eq!(again.public_key, a.public_key);
    assert_eq!(a.secret_bytes().unwrap(), hex::decode(&a.private_key).unwrap());
}

#[test]
fn ecdh_is_symmetric() {
    for _ in 0..8 {
        let a = KeyPair::random().unwrap();
        let b = KeyPair::random().unwrap();
        let ab = a.diffie_hellman(&b.to_public_key_untagged_bytes().unwrap()).unwrap();
        let ba = b.diffie_hellman(&a.to_public_key_untagged_bytes().unwrap()).unwrap();
        assert_eq!(ab, ba);
        assert_eq!(ab.len(), 32);
    }
}

#[test]
fn ecdh_with_scalar_one_gives_x_of_the_peer() {
    let one = KeyPair::from_private_key_str(ONE).unwrap();
    let server = KeyPair::from_private_key_str(SERVER_KEY).unwrap();
    let server_public = server.to_public_key_untagged_bytes().unwrap();
    let shared = one.diffie_hellman(&server_public).unwrap();
    assert_eq!(shared, server_public[..32].to_vec());
    let generator = hex::decode(GENERATOR).unwrap();
    assert_eq!(server.diffie_hellman(&generator).unwrap(), shared);
}

#[test]
fn ecdh_refuses_what_is_not_a_point() {
    let pair = KeyPair::from_private_key_str(SERVER_KEY).unwrap();
    assert_eq!(pair.diffie_hellman(&[0u8; 64]).err(), Some(CipherError::InvalidPublicKey));
    assert_eq!(pair.diffie_hellman(&[0xffu8; 64]).err(), Some(CipherError::InvalidPublicKey));
    assert_eq!(pair.diffie_hellman(&[]).err(), Some(CipherError::InvalidPublicKey));
    let generator = hex::decode(GENERATOR).unwrap();
    assert_eq!(pair.diffie_hellman(&generator[..63]).err(), Some(CipherError::InvalidPublicKey));
    let mut tagged = vec![4u8];
    tagged.extend_from_slice(&generator);
    assert_eq!(pair.diffie_hellman(&tagged).err(), Some(CipherError::InvalidPublicKey));
    let mut off_curve = generator.clone();
    off_curve[63] ^= 1;
    assert_eq!(pair.diffie_hellman(&off_curve).err(), Some(CipherError::InvalidPublicKey));
}

#[test]
fn cipher_holds_the_key_pair_of_its_private_key() {
    let cipher = Cipher::new(SERVER_KEY).unwrap();
    let expected = KeyPair::from_private_key_str(SERVER_KEY).unwrap();
    assert_eq!(cipher.get_key_pair().private_key, expected.private_key);
    assert_eq!(cipher.get_key_pair().public_key, expected.public_key);
    let generator = hex::decode(GENERATOR).unwrap();
    assert_eq!(
        cipher.get_shared_key(&generator).unwrap(),
        expected.diffie_hellman(&generator).unwrap()
    );
}

#[test]
fn aes_key_is_the_first_half_of_the_shared_secret() {
    let client = Cipher::new(ONE).unwrap();
    let server = KeyPair::from_private_key_str(SERVER_KEY).unwrap();
    let server_public = server.to_public_key_untagged_bytes().unwrap();
    let iv = [0x24u8; 16];
    let plain = b"hello world! this is my plaintext.".to_vec();

    let mut sealed = plain.clone();
    client.encrypt_inplace(&server_public, &iv, &mut sealed).unwrap();
    assert_eq!(sealed.len(), plain.len());
    assert_ne!(sealed, plain);

    let shared = client.get_shared_key(&server_public).unwrap();
    let mut expected = plain.clone();
    cfb_mode::Encryptor::<aes::Aes128>::new(shared[..16].into(), (&iv).into())
        .encrypt(&mut expected);
    assert_eq!(sealed, expected);

    let mut opened = sealed.clone();
    cfb_mode::Decryptor::<aes::Aes128>::new(shared[..16].into(), (&iv).into())
        .decrypt(&mut opened);
    assert_eq!(opened, plain);
}

#[test]
fn decrypt_inplace_inverts_encrypt_inplace() {
    let client = Cipher::new(ONE).unwrap();
    let server = Cipher::new(SERVER_KEY).unwrap();
    let client_public = client.get_key_pair().to_public_key_untagged_bytes().unwrap();
    let server_public = server.get_key_pair().to_public_key_untagged_bytes().unwrap();
    let iv = Cipher::random_iv();
    for len in [0usize, 1, 15, 16, 17, 1000] {
        let plain: Vec<u8> = (0..len).map(|i| (i * 7) as u8).collect();
        let mut buffer = plain.clone();
        client.encrypt_inplace(&server_public, &iv, &mut buffer).unwrap();
        assert_eq!(buffer.len(), len);
        server.decrypt_inplace(&client_public, &iv, &mut buffer).unwrap();
        assert_eq!(buffer, plain);
    }
}

#[test]
fn refused_key_leaves_the_buffer_alone() {
    let cipher = Cipher::new(SERVER_KEY).unwrap();
    let iv = [0u8; 16];
    let mut buffer = b"untouched".to_vec();
    assert_eq!(
        cipher.encrypt_inplace(&[1u8; 64], &iv, &mut buffer).err(),
        Some(CipherError::InvalidPublicKey)
    );
    assert_eq!(buffer, b"untouched".to_vec());
    assert_eq!(
        cipher.decrypt_inplace(&[1u8; 10], &iv, &mut buffer).err(),
        Some(CipherError::InvalidPublicKey)
    );
    assert_eq!(buffer, b"untouched".to_vec());
}

#[test]
fn random_ivs_differ() {
    let a = Cipher::random_iv();
    let b = Cipher::random_iv();
    assert_eq!(a.len(), 16);
    assert_ne!(a, b);
}

#[test]
fn decryptor_opens_what_a_cipher_sealed() {
    let client = Cipher::new(ONE).unwrap();
    let server_pair = KeyPair::from_private_key_str(SERVER_KEY).unwrap();
    let server_public = server_pair.to_public_key_untagged_bytes().unwrap();
    let client_public = client.get_key_pair().to_public_key_untagged_bytes().unwrap();
    let iv = [7u8; 16];
    let mut buffer = b"sealed for the server".to_vec();
    client.encrypt_inplace(&server_public, &iv, &mut buffer).unwrap();

    let mut decryptor = AESDecryptor::new(SERVER_KEY).unwrap();
    assert_eq!(
        decryptor.get_shared_key(&client_public).unwrap(),
        client.get_shared_key(&server_public).unwrap()
    );
    decryptor.decrypt_inplace(&client_public, &iv, &mut buffer).unwrap();
    assert_eq!(buffer, b"sealed for the server".to_vec());

    let mut other = b"kept".to_vec();
    assert_eq!(
        decryptor.decrypt_inplace(&[0u8; 64], &iv, &mut other).err(),
        Some(CipherError::InvalidPublicKey)
    );
    assert_eq!(other, b"kept".to_vec());
    assert_eq!(
        decryptor.get_shared_key(&[0u8; 3]).err(),
        Some(CipherError::InvalidPublicKey)
    );
}
