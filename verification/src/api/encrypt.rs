//! Token encryption as the first API server did it: a failure is answered as
//! an internal error that carries the failure's text.
use crate::common::encrypt::{
    aes256gcm_decrypt, aes256gcm_open, aes256gcm_seal, decryption, encrypt as encrypt_token,
    string_from_utf8, Decrypted, NONCE_LEN, P_MAX, TAG_LEN,
};
use crate::services::app_errors::AppError;
use vstd::prelude::*;
use vstd::utf8::{encode_utf8, valid_utf8};

verus! {

/// The text of an `aead::Error` (its `Display`): the crate's source writes
/// "aead::Error".
#[verifier::external_body]
fn aead_error_text(e: &aes_gcm::Error) -> (s: String)
    ensures
        s@ == "aead::Error"@,
{
    e.to_string()
}

/// The text (`Display`) of the error that `String::from_utf8` gives for
/// bytes that are no valid UTF-8: it tells where the first invalid sequence
/// starts and how long it is.
pub uninterp spec fn from_utf8_error_text(bytes: Seq<u8>) -> Seq<char>;

/// `String::from_utf8(bytes)` on bytes that are no valid UTF-8, its error
/// taken as its text.
#[verifier::external_body]
fn utf8_error_text(bytes: &[u8]) -> (s: String)
    requires
        !valid_utf8(bytes@),
    ensures
        s@ == from_utf8_error_text(bytes@),
{
    match String::from_utf8(bytes.to_vec()) {
        Err(e) => e.to_string(),
        Ok(text) => text,
    }
}

/// Encrypts `plaintext` under `key` as [`crate::common::encrypt::encrypt`]
/// does; a failure becomes an internal error with the text "aead::Error".
pub fn encrypt(plaintext: &str, key: &[u8; 32]) -> (r: Result<Vec<u8>, AppError>)
    ensures
        r is Ok <==> encode_utf8(plaintext@).len() <= P_MAX,
        r matches Ok(c) ==> {
            &&& c@.len() == NONCE_LEN + encode_utf8(plaintext@).len() + TAG_LEN
            &&& c@.skip(NONCE_LEN as int) == aes256gcm_seal(
                key@,
                c@.take(NONCE_LEN as int),
                encode_utf8(plaintext@),
            )
            &&& decryption(key@, c@) == Decrypted::Plaintext(plaintext@)
        },
        r matches Err(e) ==> e matches AppError::Internal(Some(m)) && m@ == "aead::Error"@,
{
    match encrypt_token(plaintext, key) {
        Ok(c) => Ok(c),
        Err(err) => Err(AppError::Internal(Some(aead_error_text(&err)))),
    }
}

/// Decrypts a stored token as [`crate::common::encrypt::decrypt`] does; a
/// failure becomes an internal error with the failure's text: "aead::Error"
/// where the tag does not authenticate, that of `String::from_utf8`'s error
/// where the plaintext is no UTF-8.
pub fn decrypt(data: Vec<u8>, key: &[u8; 32]) -> (r: Result<String, AppError>)
    requires
        data@.len() >= NONCE_LEN,
    ensures
        match decryption(key@, data@) {
            Decrypted::Plaintext(p) => r matches Ok(s) && s@ == p,
            Decrypted::AuthenticationFailed => r matches Err(AppError::Internal(Some(m))) && m@
                == "aead::Error"@,
            Decrypted::NotUtf8 => r matches Err(AppError::Internal(Some(_))),
        },
        match aes256gcm_open(key@, data@.take(NONCE_LEN as int), data@.skip(NONCE_LEN as int)) {
            Some(b) => !valid_utf8(b) ==> (r matches Err(AppError::Internal(Some(m))) && m@
                == from_utf8_error_text(b)),
            None => true,
        },
{
    let (nonce_bytes, ciphertext) = data.as_slice().split_at(NONCE_LEN);
    let opened = aes256gcm_decrypt(key, nonce_bytes, ciphertext);
    proof {
        assert(nonce_bytes@ =~= data@.take(NONCE_LEN as int));
        assert(ciphertext@ =~= data@.skip(NONCE_LEN as int));
    }
    match opened {
        Err(err) => Err(AppError::Internal(Some(aead_error_text(&err)))),
        Ok(bytes) => {
            let copy = bytes.clone();
            match string_from_utf8(bytes) {
                Ok(s) => Ok(s),
                Err(_) => Err(AppError::Internal(Some(utf8_error_text(copy.as_slice())))),
            }
        },
    }
}

} // verus!
