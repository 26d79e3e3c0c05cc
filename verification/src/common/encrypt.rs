//! AES-256-GCM encryption of the tokens that are stored in the database.
//!
//! A stored token is the 12-byte nonce followed by the ciphertext and its tag.
use aes_gcm::aead::{AeadMut, OsRng};
use aes_gcm::{AeadCore, Aes256Gcm, KeyInit};
use vstd::prelude::*;
use vstd::utf8::{decode_utf8, encode_utf8, valid_utf8};

verus! {

#[verifier::external_type_specification]
#[verifier::external_body]
pub struct ExAeadError(aes_gcm::Error);

#[verifier::external_type_specification]
#[verifier::external_body]
pub struct ExFromUtf8Error(std::string::FromUtf8Error);

/// The largest plaintext, in bytes, that AES-GCM encrypts.
pub const P_MAX: u64 = 0x10_0000_0000;

/// Length in bytes of the nonce that a stored token starts with.
pub const NONCE_LEN: usize = 12;

/// Length in bytes of the authentication tag that ends a ciphertext.
pub const TAG_LEN: usize = 16;

/// What `Aes256Gcm::encrypt` gives for a key, a nonce and a plaintext: the
/// ciphertext followed by its tag.
pub uninterp spec fn aes256gcm_seal(key: Seq<u8>, nonce: Seq<u8>, plaintext: Seq<u8>) -> Seq<u8>;

/// What `Aes256Gcm::decrypt` gives for a key, a nonce and a ciphertext with
/// its tag: the plaintext, or `None` where the tag does not authenticate it.
pub uninterp spec fn aes256gcm_open(key: Seq<u8>, nonce: Seq<u8>, ciphertext: Seq<u8>) -> Option<
    Seq<u8>,
>;

/// `Aes256Gcm::generate_nonce(&mut OsRng)`: twelve bytes from the operating
/// system's random number generator. Nothing is claimed of their value; the
/// generator panics where the operating system cannot give random bytes.
#[verifier::external_body]
fn random_nonce() -> (nonce: Vec<u8>)
    ensures
        nonce@.len() == NONCE_LEN,
{
    Aes256Gcm::generate_nonce(&mut OsRng).to_vec()
}

/// `Aes256Gcm::new(key).encrypt(nonce, plaintext)` (trait `AeadMut`).
/// Claimed, as the crate's source shows: it fails exactly when the plaintext
/// is longer than `P_MAX` bytes; otherwise it gives the named seal, 16 bytes
/// longer than the plaintext, which `decrypt` with the same key and nonce
/// opens to the plaintext (what AEAD promises).
#[verifier::external_body]
fn aes256gcm_encrypt(key: &[u8; 32], nonce: &[u8], plaintext: &[u8]) -> (r: Result<Vec<u8>, aes_gcm::Error>)
    requires
        nonce@.len() == NONCE_LEN,
    ensures
        r is Ok <==> plaintext@.len() <= P_MAX,
        r matches Ok(c) ==> {
            &&& c@ == aes256gcm_seal(key@, nonce@, plaintext@)
            &&& c@.len() == plaintext@.len() + TAG_LEN
            &&& aes256gcm_open(key@, nonce@, c@) == Some(plaintext@)
        },
{
    let mut cipher = Aes256Gcm::new(key.into());
    cipher.encrypt(aes_gcm::Nonce::from_slice(nonce), plaintext)
}

/// `Aes256Gcm::new(key).decrypt(nonce, ciphertext)` (trait `AeadMut`).
/// Claimed: it gives the named opening, and fails where that is `None`; a
/// ciphertext shorter than its 16-byte tag never opens.
#[verifier::external_body]
pub(crate) fn aes256gcm_decrypt(key: &[u8; 32], nonce: &[u8], ciphertext: &[u8]) -> (r: Result<Vec<u8>, aes_gcm::Error>)
    requires
        nonce@.len() == NONCE_LEN,
    ensures
        r matches Ok(p) ==> aes256gcm_open(key@, nonce@, ciphertext@) == Some(p@),
        r is Err ==> aes256gcm_open(key@, nonce@, ciphertext@) is None,
        ciphertext@.len() < TAG_LEN ==> r is Err,
{
    let mut cipher = Aes256Gcm::new(key.into());
    cipher.decrypt(aes_gcm::Nonce::from_slice(nonce), ciphertext)
}

/// `String::from_utf8`: the string that the bytes encode in UTF-8, or an
/// error where they are no valid UTF-8 (std's documentation).
#[verifier::external_body]
pub(crate) fn string_from_utf8(bytes: Vec<u8>) -> (r: Result<String, std::string::FromUtf8Error>)
    ensures
        r is Ok <==> valid_utf8(bytes@),
        r matches Ok(s) ==> s@ == decode_utf8(bytes@),
{
    String::from_utf8(bytes)
}

/// Why a stored token could not be decrypted.
pub enum DecryptError {
    /// The tag did not authenticate the ciphertext under the key.
    Aes(aes_gcm::Error),
    /// The plaintext is no valid UTF-8.
    Utf8(std::string::FromUtf8Error),
}

/// What decrypting a stored token gives, in the model.
pub enum Decrypted {
    Plaintext(Seq<char>),
    AuthenticationFailed,
    NotUtf8,
}

/// Decrypting the stored token `data` with `key`: its first 12 bytes are the
/// nonce, the rest the ciphertext and tag; the plaintext must be UTF-8.
pub open spec fn decryption(key: Seq<u8>, data: Seq<u8>) -> Decrypted {
    match aes256gcm_open(key, data.take(NONCE_LEN as int), data.skip(NONCE_LEN as int)) {
        None => Decrypted::AuthenticationFailed,
        Some(bytes) => if valid_utf8(bytes) {
            Decrypted::Plaintext(decode_utf8(bytes))
        } else {
            Decrypted::NotUtf8
        },
    }
}

/// The model of what [`decrypt`] returned.
pub open spec fn decrypt_outcome(r: Result<String, DecryptError>) -> Decrypted {
    match r {
        Ok(s) => Decrypted::Plaintext(s@),
        Err(DecryptError::Aes(_)) => Decrypted::AuthenticationFailed,
        Err(DecryptError::Utf8(_)) => Decrypted::NotUtf8,
    }
}

/// What sealing `plaintext` under `key` with `nonce` stores: the nonce
/// followed by the ciphertext and its tag.
pub open spec fn sealed(key: Seq<u8>, nonce: Seq<u8>, plaintext: Seq<char>) -> Seq<u8> {
    nonce + aes256gcm_seal(key, nonce, encode_utf8(plaintext))
}

/// Encrypts `plaintext` under `key` with the 12-byte `nonce`, and returns the
/// nonce followed by the ciphertext and its tag. Fails only for a plaintext
/// longer than AES-GCM allows.
pub fn seal_with_nonce(plaintext: &str, key: &[u8; 32], nonce: &[u8]) -> (r: Result<Vec<u8>, aes_gcm::Error>)
    requires
        nonce@.len() == NONCE_LEN,
    ensures
        r is Ok <==> encode_utf8(plaintext@).len() <= P_MAX,
        r matches Ok(c) ==> {
            &&& c@ == sealed(key@, nonce@, plaintext@)
            &&& c@.len() == NONCE_LEN + encode_utf8(plaintext@).len() + TAG_LEN
            &&& c@.take(NONCE_LEN as int) == nonce@
            &&& decryption(key@, c@) == Decrypted::Plaintext(plaintext@)
        },
{
    let bytes = plaintext.as_bytes();
    let cipher_text = match aes256gcm_encrypt(key, nonce, bytes) {
        Ok(ciphertext) => ciphertext,
        Err(err) => {
            return Err(err);
        },
    };
    let mut concat_nonce_cipher: Vec<u8> = Vec::new();
    concat_nonce_cipher.extend_from_slice(nonce);
    concat_nonce_cipher.extend_from_slice(cipher_text.as_slice());
    proof {
        let c = concat_nonce_cipher@;
        assert(c =~= nonce@ + cipher_text@);
        assert(c.take(NONCE_LEN as int) =~= nonce@);
        assert(c.skip(NONCE_LEN as int) =~= cipher_text@);
        vstd::utf8::encode_utf8_valid_utf8(plaintext@);
        vstd::utf8::encode_utf8_decode_utf8(plaintext@);
    }
    Ok(concat_nonce_cipher)
}

/// Encrypts `plaintext` under `key` with a fresh random nonce, and returns the
/// nonce followed by the ciphertext and its tag. Fails only for a plaintext
/// longer than AES-GCM allows.
pub fn encrypt(plaintext: &str, key: &[u8; 32]) -> (r: Result<Vec<u8>, aes_gcm::Error>)
    ensures
        r is Ok <==> encode_utf8(plaintext@).len() <= P_MAX,
        r matches Ok(c) ==> {
            &&& c@.len() == NONCE_LEN + encode_utf8(plaintext@).len() + TAG_LEN
            &&& c@ == sealed(key@, c@.take(NONCE_LEN as int), plaintext@)
            &&& c@.skip(NONCE_LEN as int) == aes256gcm_seal(
                key@,
                c@.take(NONCE_LEN as int),
                encode_utf8(plaintext@),
            )
            &&& decryption(key@, c@) == Decrypted::Plaintext(plaintext@)
        },
{
    let nonce = random_nonce();
    let r = seal_with_nonce(plaintext, key, nonce.as_slice());
    proof {
        if r is Ok {
            let c = r->Ok_0;
            assert(c@.skip(NONCE_LEN as int) =~= aes256gcm_seal(key@, nonce@, encode_utf8(plaintext@)));
        }
    }
    r
}

/// Decrypts a stored token: the nonce is its first 12 bytes, the rest is the
/// ciphertext and tag. The token must hold at least the nonce.
pub fn decrypt(data: Vec<u8>, key: &[u8; 32]) -> (r: Result<String, DecryptError>)
    requires
        data@.len() >= NONCE_LEN,
    ensures
        decrypt_outcome(r) == decryption(key@, data@),
{
    let (nonce_bytes, ciphertext) = data.as_slice().split_at(NONCE_LEN);
    let plaintext_bytes = aes256gcm_decrypt(key, nonce_bytes, ciphertext);
    proof {
        assert(nonce_bytes@ =~= data@.take(NONCE_LEN as int));
        assert(ciphertext@ =~= data@.skip(NONCE_LEN as int));
    }
    match plaintext_bytes {
        Ok(bytes) => match string_from_utf8(bytes) {
            Ok(s) => Ok(s),
            Err(err) => Err(DecryptError::Utf8(err)),
        },
        Err(err) => Err(DecryptError::Aes(err)),
    }
}

} // verus!
