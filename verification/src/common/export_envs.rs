//! The settings that the services read from the environment.
use hex::FromHex;
use vstd::prelude::*;
use vstd::utf8::encode_utf8;

verus! {

/// The settings of the services.
pub struct Envs {
    pub database_url: String,
    pub redis_url: String,
    pub google_client_id: String,
    pub google_client_secret: String,
    pub google_client_redirect_url: String,
    pub backend_url: String,
    pub jwt_secret: String,
    pub frontend_url: String,
    pub environment: String,
    pub google_drive_client_id: String,
    pub google_drive_client_secret: String,
    pub google_drive_redirect_url: String,
    pub encryption_key: [u8; 32],
}

/// The value of a hexadecimal digit, either case.
pub open spec fn hex_digit(b: u8) -> Option<u8> {
    if 0x30 <= b <= 0x39 {
        Some((b - 0x30) as u8)
    } else if 0x41 <= b <= 0x46 {
        Some((b - 0x41 + 10) as u8)
    } else if 0x61 <= b <= 0x66 {
        Some((b - 0x61 + 10) as u8)
    } else {
        None
    }
}

/// The 32 bytes that 64 hexadecimal digits spell, two digits a byte, high
/// digit first: `None` for any other text.
pub open spec fn hex_key(text: Seq<u8>) -> Option<Seq<u8>> {
    if text.len() == 64 && forall|i: int| 0 <= i < 64 ==> (#[trigger] hex_digit(text[i])) is Some {
        Some(Seq::new(32, |i: int| (hex_digit(text[2 * i])->0 * 16 + hex_digit(text[2 * i + 1])->0) as u8))
    } else {
        None
    }
}

/// `<[u8; 32]>::from_hex(text)` of the crate `hex`: as its source shows, the
/// text's bytes must be 64 hexadecimal digits, either case, and each pair,
/// high digit first, gives one byte.
#[verifier::external_body]
fn key_from_hex(text: &str) -> (r: Option<[u8; 32]>)
    ensures
        match hex_key(encode_utf8(text@)) {
            None => r is None,
            Some(k) => r matches Some(a) && a@ == k,
        },
{
    <[u8; 32]>::from_hex(text).ok()
}

/// The encryption key that the setting `ENCRYPTION_KEY` spells in hexadecimal.
pub fn parse_encryption_key(text: &str) -> (r: Option<[u8; 32]>)
    ensures
        match hex_key(encode_utf8(text@)) {
            None => r is None,
            Some(k) => r matches Some(a) && a@ == k,
        },
{
    key_from_hex(text)
}

} // verus!
