use aead_boundary::encryption::decrypt_data;
use aead_boundary::encryption::encrypt_data;
use aead_boundary::encryption::encrypt_with_nonce;
use aead_boundary::encryption::generate_aes_key;
use aead_boundary::encryption::generate_nonce;
use aead_boundary::encryption::AesKey;
use aead_boundary::encryption::KEY_LEN;
use aead_boundary::encryption::NONCE_LEN;
use aead_boundary::encryption::TAG_LEN;
use aead_boundary::error::CryptoError;

fn zero_key() -> AesKey {
    AesKey::from_slice(&[0u8; 32]).unwrap()
}

#[test]
fn lengths_are_those_of_aes_256_gcm() {
    assert_eq!(KEY_LEN, 32);
    assert_eq!(NONCE_LEN, 12);
    assert_eq!(TAG_LEN, 16);
}

#[test]
fn round_trip_recovers_plaintext() {
    let key = generate_aes_key().unwrap();
    let plaintext: Vec<u8> = (0..=255u8).cycle().take(1000).collect();
    let (nonce, ciphertext) = encrypt_data(&key, &plaintext).unwrap();
    assert_eq!(nonce.len(), 12);
    assert_eq!(ciphertext.len(), plaintext.len() + 16);
    assert_ne!(&ciphertext[..plaintext.len()], &plaintext[..]);
    assert_eq!(decrypt_data(&key, &ciphertext, &nonce).unwrap(), plaintext);
}

#[test]
fn two_encryptions_differ_in_nonce_and_ciphertext() {
    let key = zero_key();
    let (nonce_a, ciphertext_a) = encrypt_data(&key, b"same input").unwrap();
    let (nonce_b, ciphertext_b) = encrypt_data(&key, b"same input").unwrap();
    assert_ne!(nonce_a, nonce_b);
    assert_ne!(ciphertext_a, ciphertext_b);
}

#[test]
fn flipping_any_ciphertext_bit_fails_authentication() {
    let key = zero_key();
    let (nonce, ciphertext) = encrypt_data(&key, b"attack at dawn").unwrap();
    for byte in 0..ciphertext.len() {
        for bit in 0..8 {
            let mut tampered = ciphertext.clone();
            tampered[byte] ^= 1 << bit;
            assert_eq!(
                decrypt_data(&key, &tampered, &nonce),
                Err(CryptoError::AuthenticationFailure)
            );
        }
    }
}

#[test]
fn flipping_any_nonce_bit_fails_authentication() {
    let key = zero_key();
    let (nonce, ciphertext) = encrypt_data(&key, b"attack at dawn").unwrap();
    for byte in 0..nonce.len() {
        for bit in 0..8 {
            let mut tampered = nonce.clone();
            tampered[byte] ^= 1 << bit;
            assert_eq!(
                decrypt_data(&key, &ciphertext, &tampered),
                Err(CryptoError::AuthenticationFailure)
            );
        }
    }
}

#[test]
fn wrong_key_fails_authentication() {
    let key = zero_key();
    let other = AesKey::from_slice(&[1u8; 32]).unwrap();
    let (nonce, ciphertext) = encrypt_data(&key, b"secret").unwrap();
    assert_eq!(
        decrypt_data(&other, &ciphertext, &nonce),
        Err(CryptoError::AuthenticationFailure)
    );
}

#[test]
fn generated_keys_are_32_bytes_and_differ() {
    let a = generate_aes_key().unwrap();
    let b = generate_aes_key().unwrap();
    assert_eq!(a.as_slice().len(), 32);
    assert_eq!(b.as_slice().len(), 32);
    assert_ne!(a.as_slice(), b.as_slice());
}

#[test]
fn generated_nonces_are_12_bytes_and_differ() {
    let a = generate_nonce().unwrap();
    let b = generate_nonce().unwrap();
    assert_eq!(a.len(), 12);
    assert_eq!(b.len(), 12);
    assert_ne!(a, b);
}

#[test]
fn zero_length_plaintext_round_trip() {
    let key = generate_aes_key().unwrap();
    let (nonce, ciphertext) = encrypt_data(&key, &[]).unwrap();
    assert_eq!(ciphertext.len(), 16);
    assert_eq!(decrypt_data(&key, &ciphertext, &nonce).unwrap(), Vec::<u8>::new());
}

#[test]
fn hello_world_end_to_end() {
    let key = zero_key();
    let (nonce, ciphertext) = encrypt_data(&key, "hello world".as_bytes()).unwrap();
    let plaintext = decrypt_data(&key, &ciphertext, &nonce).unwrap();
    assert_eq!(plaintext, "hello world".as_bytes());
    let mut other = nonce.clone();
    other[0] = other[0].wrapping_add(1);
    assert_eq!(
        decrypt_data(&key, &ciphertext, &other),
        Err(CryptoError::AuthenticationFailure)
    );
    assert_eq!(
        decrypt_data(&key, &ciphertext, &[0xa5u8; 12]).is_err(),
        nonce != vec![0xa5u8; 12]
    );
}

#[test]
fn known_answer_for_empty_plaintext() {
    let key = zero_key();
    let ciphertext = encrypt_with_nonce(&key, &[0u8; 12], &[]).unwrap();
    let tag: [u8; 16] = [
        0x53, 0x0f, 0x8a, 0xfb, 0xc7, 0x45, 0x36, 0xb9, 0xa9, 0x63, 0xb4, 0xf1, 0xc4, 0xcb, 0x73,
        0x8b,
    ];
    assert_eq!(ciphertext, tag.to_vec());
    assert_eq!(decrypt_data(&key, &tag, &[0u8; 12]).unwrap(), Vec::<u8>::new());
}

#[test]
fn known_answer_for_one_zero_block() {
    let key = zero_key();
    let ciphertext = encrypt_with_nonce(&key, &[0u8; 12], &[0u8; 16]).unwrap();
    let expected: [u8; 32] = [
        0xce, 0xa7, 0x40, 0x3d, 0x4d, 0x60, 0x6b, 0x6e, 0x07, 0x4e, 0xc5, 0xd3, 0xba, 0xf3, 0x9d,
        0x18, 0xd0, 0xd1, 0xc8, 0xa7, 0x99, 0x99, 0x6b, 0xf0, 0x26, 0x5b, 0x98, 0xb5, 0xd4, 0x8a,
        0xb9, 0x19,
    ];
    assert_eq!(ciphertext, expected.to_vec());
    assert_eq!(decrypt_data(&key, &expected, &[0u8; 12]).unwrap(), vec![0u8; 16]);
}

#[test]
fn sealing_is_a_function_of_key_nonce_and_plaintext() {
    let key = zero_key();
    let nonce = [7u8; 12];
    let a = encrypt_with_nonce(&key, &nonce, b"payload").unwrap();
    let b = encrypt_with_nonce(&key, &nonce, b"payload").unwrap();
    assert_eq!(a, b);
    assert_eq!(a.len(), 7 + 16);
    assert_eq!(decrypt_data(&key, &a, &nonce).unwrap(), b"payload".to_vec());
}

#[test]
fn key_of_wrong_length_is_rejected() {
    assert_eq!(AesKey::from_slice(&[0u8; 31]).err(), Some(CryptoError::InvalidKeyLength));
    assert_eq!(AesKey::from_slice(&[0u8; 33]).err(), Some(CryptoError::InvalidKeyLength));
    assert_eq!(AesKey::from_slice(&[]).err(), Some(CryptoError::InvalidKeyLength));
    let bytes: Vec<u8> = (0..32u8).collect();
    assert_eq!(AesKey::from_slice(&bytes).unwrap().as_slice(), &bytes[..]);
}

#[test]
fn nonce_of_wrong_length_is_rejected() {
    let key = zero_key();
    assert_eq!(
        encrypt_with_nonce(&key, &[0u8; 11], b"x"),
        Err(CryptoError::InvalidNonceLength)
    );
    assert_eq!(
        encrypt_with_nonce(&key, &[0u8; 13], b"x"),
        Err(CryptoError::InvalidNonceLength)
    );
    let (_, ciphertext) = encrypt_data(&key, b"x").unwrap();
    assert_eq!(
        decrypt_data(&key, &ciphertext, &[0u8; 11]),
        Err(CryptoError::InvalidNonceLength)
    );
    assert_eq!(decrypt_data(&key, &ciphertext, &[]), Err(CryptoError::InvalidNonceLength));
}

#[test]
fn ciphertext_shorter_than_a_tag_fails_authentication() {
    let key = zero_key();
    assert_eq!(
        decrypt_data(&key, &[0u8; 15], &[0u8; 12]),
        Err(CryptoError::AuthenticationFailure)
    );
    assert_eq!(decrypt_data(&key, &[], &[0u8; 12]), Err(CryptoError::AuthenticationFailure));
}

#[test]
fn truncated_ciphertext_fails_authentication() {
    let key = zero_key();
    let (nonce, ciphertext) = encrypt_data(&key, b"some longer message").unwrap();
    assert_eq!(
        decrypt_data(&key, &ciphertext[..ciphertext.len() - 1], &nonce),
        Err(CryptoError::AuthenticationFailure)
    );
}

#[test]
fn every_failure_has_its_own_message() {
    let all = [
        CryptoError::EntropyUnavailable,
        CryptoError::InvalidKeyLength,
        CryptoError::InvalidNonceLength,
        CryptoError::AuthenticationFailure,
        CryptoError::LengthLimitExceeded,
        CryptoError::AllocationFailure,
        CryptoError::ContractViolation,
    ];
    for (i, a) in all.iter().enumerate() {
        assert!(!a.message().is_empty());
        for b in all.iter().skip(i + 1) {
            assert_ne!(a.message(), b.message());
        }
    }
    assert_eq!(CryptoError::AuthenticationFailure.message(), "authentication failed");
    assert_eq!(CryptoError::InvalidKeyLength.message(), "key must be 32 bytes");
}
