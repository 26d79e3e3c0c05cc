use unicloud::common::encrypt::seal_with_nonce;
use aes_gcm::aead::Aead;
use aes_gcm::{Aes256Gcm, KeyInit, Nonce};
use unicloud::api::encrypt as api_encrypt;
use unicloud::common::encrypt::{decrypt, encrypt, DecryptError};
use unicloud::common::export_envs::parse_encryption_key;
use unicloud::services::app_errors::AppError;

const KEY: [u8; 32] = [0x42u8; 32];

fn sealed_bytes(plaintext: &[u8], key: &[u8; 32], nonce: &[u8; 12]) -> Vec<u8> {
    let cipher = Aes256Gcm::new_from_slice(key).unwrap();
    let ct = cipher.encrypt(Nonce::from_slice(nonce), plaintext).unwrap();
    let mut out = nonce.to_vec();
    out.extend_from_slice(&ct);
    out
}

#[test]
fn encrypt_then_decrypt_gives_the_plaintext_back() {
    let c = encrypt("ya29.access-token", &KEY).ok().unwrap();
    match decrypt(c, &KEY) {
        Ok(s) => assert_eq!(s, "ya29.access-token"),
        Err(_) => panic!("the token did not decrypt"),
    }
}

#[test]
fn encrypt_prefixes_the_nonce_and_adds_the_tag() {
    let c = encrypt("hello", &KEY).ok().unwrap();
    assert_eq!(c.len(), 12 + 5 + 16);
    assert_ne!(&c[12..17], b"hello");
}

#[test]
fn encrypt_of_the_empty_string_round_trips() {
    let c = encrypt("", &KEY).ok().unwrap();
    assert_eq!(c.len(), 28);
    assert_eq!(decrypt(c, &KEY).ok().unwrap(), "");
}

#[test]
fn encrypt_uses_a_fresh_nonce_each_time() {
    let a = encrypt("same", &KEY).ok().unwrap();
    let b = encrypt("same", &KEY).ok().unwrap();
    assert_ne!(a, b);
}

#[test]
fn decrypt_with_another_key_fails_authentication() {
    let c = encrypt("secret", &KEY).ok().unwrap();
    assert!(matches!(decrypt(c, &[1u8; 32]), Err(DecryptError::Aes(_))));
}

#[test]
fn decrypt_of_a_tampered_token_fails_authentication() {
    let mut c = encrypt("secret", &KEY).ok().unwrap();
    let last = c.len() - 1;
    c[last] ^= 1;
    assert!(matches!(decrypt(c, &KEY), Err(DecryptError::Aes(_))));
}

#[test]
fn decrypt_of_a_token_without_ciphertext_fails() {
    assert!(matches!(decrypt(vec![0u8; 12], &KEY), Err(DecryptError::Aes(_))));
}

#[test]
fn decrypt_of_bytes_that_are_no_utf8_fails_as_utf8() {
    let data = sealed_bytes(&[0xff, 0xfe, 0x41], &KEY, &[3u8; 12]);
    assert!(matches!(decrypt(data, &KEY), Err(DecryptError::Utf8(_))));
}

#[test]
fn decrypt_reads_a_token_sealed_elsewhere() {
    let data = sealed_bytes("1//refresh".as_bytes(), &KEY, &[5u8; 12]);
    assert_eq!(decrypt(data, &KEY).ok().unwrap(), "1//refresh");
}

#[test]
fn api_encrypt_round_trips() {
    let c = api_encrypt::encrypt("token", &KEY).ok().unwrap();
    assert_eq!(c.len(), 12 + 5 + 16);
    assert_eq!(api_encrypt::decrypt(c, &KEY).ok().unwrap(), "token");
}

#[test]
fn api_decrypt_answers_a_failure_as_internal_error() {
    let c = api_encrypt::encrypt("token", &KEY).ok().unwrap();
    match api_encrypt::decrypt(c, &[0u8; 32]) {
        Err(AppError::Internal(Some(m))) => assert_eq!(m, "aead::Error"),
        _ => panic!("expected an internal error"),
    }
}

#[test]
fn api_decrypt_answers_bad_utf8_as_internal_error() {
    let data = sealed_bytes(&[0xc3, 0x28], &KEY, &[8u8; 12]);
    match api_encrypt::decrypt(data, &KEY) {
        Err(AppError::Internal(Some(m))) => {
            assert_eq!(m, String::from_utf8(vec![0xc3, 0x28]).unwrap_err().to_string());
            assert_eq!(m, "invalid utf-8 sequence of 1 bytes from index 0");
        },
        _ => panic!("expected an internal error"),
    }
}

#[test]
fn parse_encryption_key_reads_64_hex_digits() {
    let text = "000102030405060708090a0b0c0d0e0f101112131415161718191A1B1C1D1E1F";
    let key = parse_encryption_key(text).unwrap();
    let expected: Vec<u8> = (0u8..32).collect();
    assert_eq!(key.to_vec(), expected);
}

#[test]
fn parse_encryption_key_refuses_other_text() {
    assert!(parse_encryption_key("00").is_none());
    assert!(parse_encryption_key("").is_none());
    let bad = "zz0102030405060708090a0b0c0d0e0f101112131415161718191a1b1c1d1e1f";
    assert!(parse_encryption_key(bad).is_none());
    let long = "000102030405060708090a0b0c0d0e0f101112131415161718191a1b1c1d1e1f00";
    assert!(parse_encryption_key(long).is_none());
}

#[test]
fn seal_with_nonce_is_the_nonce_then_aes_gcm() {
    let nonce = [9u8; 12];
    let c = seal_with_nonce("token", &KEY, &nonce).ok().unwrap();
    assert_eq!(c, sealed_bytes(b"token", &KEY, &nonce));
    assert_eq!(&c[..12], &nonce);
    assert_eq!(decrypt(c, &KEY).ok().unwrap(), "token");
}
