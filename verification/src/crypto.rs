//! Storage encoding of the saved password: standard Base64 of its UTF-8
//! bytes (a fallback where no platform key store is used).
use vstd::prelude::*;
use vstd::utf8::{decode_utf8, encode_utf8, valid_utf8};
use base64::Engine;
use crate::text::chars_of;
use crate::exams::join;

verus! {

/// What `general_purpose::STANDARD.encode` makes of the bytes.
pub uninterp spec fn base64_encoding(bytes: Seq<u8>) -> Seq<char>;

/// What `general_purpose::STANDARD.decode` makes of the text: the bytes, or
/// the rendering of the error.
pub uninterp spec fn base64_decoding(text: Seq<char>) -> Result<Seq<u8>, Seq<char>>;

/// The rendering of the error `String::from_utf8` reports for invalid bytes.
pub uninterp spec fn utf8_error_text(bytes: Seq<u8>) -> Seq<char>;

/// A successful decoding into `bytes`.
pub open spec fn decoded_ok(bytes: Seq<u8>) -> Result<Seq<u8>, Seq<char>> {
    Ok(bytes)
}

/// The length of the standard (padded) Base64 encoding of `n` bytes.
pub open spec fn encoded_len(n: int) -> int {
    (n / 3) * 4 + if n % 3 > 0 {
        4int
    } else {
        0int
    }
}

/// `base64::engine::general_purpose::STANDARD.encode(bytes)`. The encoder
/// panics when the encoded length overflows `usize`; such inputs are
/// excluded. The contract claims that the result is [`base64_encoding`] of
/// the bytes and that decoding it with the same engine gives the bytes back.
#[verifier::external_body]
fn base64_encode(bytes: &[u8]) -> (r: String)
    requires
        encoded_len(bytes@.len() as int) <= usize::MAX,
    ensures
        r@ == base64_encoding(bytes@),
        base64_decoding(r@) == crate::crypto::decoded_ok(bytes@),
{
    base64::engine::general_purpose::STANDARD.encode(bytes)
}

/// `base64::engine::general_purpose::STANDARD.decode(text)`, with the error
/// rendered by its `Display`. The contract claims only that the result is
/// [`base64_decoding`] of the text.
#[verifier::external_body]
fn base64_decode(text: &str) -> (r: Result<Vec<u8>, String>)
    ensures
        match r {
            Ok(b) => base64_decoding(text@) matches Ok(d) && d == b@,
            Err(e) => base64_decoding(text@) matches Err(m) && m == e@,
        },
{
    base64::engine::general_purpose::STANDARD.decode(text).map_err(|e| e.to_string())
}

/// `String::from_utf8(bytes)`, with the error rendered by its `Display`. The
/// contract claims what the documentation says: the bytes are accepted
/// exactly when they are valid UTF-8, and then the string holds the
/// characters they encode.
#[verifier::external_body]
fn string_from_utf8(bytes: Vec<u8>) -> (r: Result<String, String>)
    ensures
        match r {
            Ok(s) => valid_utf8(bytes@) && s@ == decode_utf8(bytes@),
            Err(e) => !valid_utf8(bytes@) && e@ == utf8_error_text(bytes@),
        },
{
    String::from_utf8(bytes).map_err(|e| e.to_string())
}

/// The stored form of a password: the standard Base64 of its UTF-8 bytes.
pub fn encrypt_password_dpapi(password: &str) -> (r: Result<String, String>)
    requires
        encoded_len(encode_utf8(password@).len() as int) <= usize::MAX,
    ensures
        r matches Ok(s) && s@ == base64_encoding(encode_utf8(password@)),
        r matches Ok(s) && base64_decoding(s@) == decoded_ok(encode_utf8(password@)),
{
    Ok(base64_encode(password.as_bytes()))
}

/// The password from its stored form: Base64-decoded, then read as UTF-8.
/// Either step may fail, with a message naming it.
pub fn decrypt_password_dpapi(encrypted_base64: &str) -> (r: Result<String, String>)
    ensures
        match base64_decoding(encrypted_base64@) {
            Err(e) => r matches Err(m) && m@ == "Base64 解码失败: "@ + e,
            Ok(b) => if valid_utf8(b) {
                r matches Ok(s) && s@ == decode_utf8(b)
            } else {
                r matches Err(m) && m@ == "UTF-8 解码失败: "@ + utf8_error_text(b)
            },
        },
{
    let bytes = match base64_decode(encrypted_base64) {
        Ok(b) => b,
        Err(e) => {
            return Err(join("Base64 解码失败: ", &chars_of(e.as_str())));
        },
    };
    match string_from_utf8(bytes) {
        Ok(s) => Ok(s),
        Err(e) => Err(join("UTF-8 解码失败: ", &chars_of(e.as_str()))),
    }
}

/// Reading back a stored form of a password (any text that Base64-decodes
/// to the password's UTF-8 bytes, as [`encrypt_password_dpapi`] produces)
/// gives the password: [`decrypt_password_dpapi`] succeeds with it.
pub proof fn law_password_round_trip(password: Seq<char>, stored: Seq<char>)
    requires
        base64_decoding(stored) == decoded_ok(encode_utf8(password)),
    ensures
        base64_decoding(stored) matches Ok(b) && valid_utf8(b) && decode_utf8(b) == password,
{
    vstd::utf8::encode_utf8_valid_utf8(password);
    vstd::utf8::encode_utf8_decode_utf8(password);
}

} // verus!
