//! Credential storage: secrets are kept in the OS keyed credential
//! store under their base64-encoded form, with a base64 fallback when
//! the store cannot produce the secret again.

use vstd::prelude::*;
use vstd::utf8::{valid_utf8, decode_utf8};
use crate::strutil::spec_starts_with;
use base64::Engine as _;

verus! {

/// The base64 encoding (standard alphabet, padded) of the bytes of a
/// character sequence.
pub uninterp spec fn b64_of(s: Seq<char>) -> Seq<char>;

/// The base64 decoding of a character sequence: the decoded bytes, or
/// nothing where the input is not valid base64.
pub uninterp spec fn b64_decode_of(s: Seq<char>) -> Option<Seq<u8>>;

/// Relies on base64's standard engine `encode`: the result is a function
/// of the input alone, and an empty input encodes to an empty string.
#[verifier::external_body]
fn b64_encode(s: &str) -> (r: String)
    ensures
        r@ == b64_of(s@),
        s@.len() == 0 ==> r@.len() == 0,
{
    base64::engine::general_purpose::STANDARD.encode(s.as_bytes())
}

/// Relies on base64's standard engine `decode`: it succeeds exactly on
/// valid base64, with a result that is a function of the input alone.
/// A failure is reported under a `Failed to decode: ` prefix, which this
/// wrapper itself prepends.
#[verifier::external_body]
fn b64_decode(s: &str) -> (r: Result<Vec<u8>, String>)
    ensures
        r matches Ok(v) ==> b64_decode_of(s@) == Option::Some(v@),
        r is Err <==> b64_decode_of(s@) is None,
        r matches Err(m) ==> spec_starts_with(m@, "Failed to decode: "@),
{
    base64::engine::general_purpose::STANDARD.decode(s).map_err(
        |e| format!("Failed to decode: {}", e),
    )
}

/// Relies on String::from_utf8: it succeeds exactly on valid UTF-8 and
/// yields its decoding.  A failure is reported under an `Invalid UTF-8: `
/// prefix, which this wrapper itself prepends.
#[verifier::external_body]
fn utf8_to_string(v: Vec<u8>) -> (r: Result<String, String>)
    ensures
        r matches Ok(s) ==> valid_utf8(v@) && s@ == decode_utf8(v@),
        r is Err <==> !valid_utf8(v@),
        r matches Err(m) ==> spec_starts_with(m@, "Invalid UTF-8: "@),
{
    String::from_utf8(v).map_err(|e| format!("Invalid UTF-8: {}", e))
}

/// Relies on keyring's Entry::new: builds a handle into the credential
/// store; whether it succeeds depends on the platform store.  A failure
/// is reported under a `Keyring error: ` prefix, which this wrapper
/// itself prepends.
#[verifier::external_body]
fn keyring_entry(service: &str, user: &str) -> (r: Result<keyring::Entry, String>)
    ensures
        r matches Err(m) ==> spec_starts_with(m@, "Keyring error: "@),
{
    keyring::Entry::new(service, user).map_err(|e| format!("Keyring error: {}", e))
}

/// Relies on keyring's Entry::set_password: stores the secret; whether
/// it succeeds depends on the platform store.  A failure is reported
/// under a `Failed to store credential: ` prefix, which this wrapper
/// itself prepends.
#[verifier::external_body]
fn keyring_set_password(entry: &keyring::Entry, password: &str) -> (r: Result<(), String>)
    ensures
        r matches Err(m) ==> spec_starts_with(m@, "Failed to store credential: "@),
{
    entry.set_password(password).map_err(|e| format!("Failed to store credential: {}", e))
}

/// Relies on keyring's Entry::get_password: retrieves the stored secret;
/// what comes back depends on the platform store's state.
#[verifier::external_body]
fn keyring_get_password(entry: &keyring::Entry) -> (r: Result<String, String>)
{
    entry.get_password().map_err(|e| format!("{}", e))
}

/// Declares keyring's Entry type so that handles into the credential
/// store can pass through signatures; the library never looks inside.
#[verifier::external_type_specification]
#[verifier::external_body]
pub struct ExKeyringEntry(keyring::Entry);

/// The service name under which credentials are stored.
pub fn service_name() -> (r: String)
    ensures
        r@ == "com.notemac.plusplus"@,
{
    let s = "com.notemac.plusplus";
    s.to_owned()
}

/// Encodes the secret and stores it in the credential store under its
/// encoded form.  On success the returned string is exactly the base64
/// encoding of the secret; on failure the store's error is returned.
pub fn safe_storage_encrypt(plaintext: String) -> (r: Result<String, String>)
    ensures
        r matches Ok(enc) ==> enc@ == b64_of(plaintext@),
        r matches Err(m) ==> spec_starts_with(m@, "Keyring error: "@) || spec_starts_with(
            m@,
            "Failed to store credential: "@,
        ),
{
    let encoded = b64_encode(plaintext.as_str());
    let entry = match keyring_entry("com.notemac.plusplus", encoded.as_str()) {
        Result::Ok(e) => e,
        Result::Err(m) => {
            return Result::Err(m);
        },
    };
    match keyring_set_password(&entry, plaintext.as_str()) {
        Result::Ok(_) => Result::Ok(encoded),
        Result::Err(m) => Result::Err(m),
    }
}

/// Decodes a stored payload without the credential store: base64, then
/// UTF-8.  Succeeds exactly when the payload is valid base64 whose bytes
/// are valid UTF-8, and then yields that text.
pub fn decode_stored_payload(encrypted: &str) -> (r: Result<String, String>)
    ensures
        r matches Ok(s) ==> b64_decode_of(encrypted@) matches Some(b) && valid_utf8(b) && s@
            == decode_utf8(b),
        r is Ok <==> (b64_decode_of(encrypted@) matches Some(b) && valid_utf8(b)),
        b64_decode_of(encrypted@) is None ==> (r matches Err(m) && spec_starts_with(
            m@,
            "Failed to decode: "@,
        )),
        b64_decode_of(encrypted@) is Some && !valid_utf8(b64_decode_of(encrypted@)->Some_0) ==> (
        r matches Err(m) && spec_starts_with(m@, "Invalid UTF-8: "@)),
{
    match b64_decode(encrypted) {
        Result::Err(m) => Result::Err(m),
        Result::Ok(bytes) => utf8_to_string(bytes),
    }
}

/// What decryption returns once the store has answered: a successful
/// lookup is handed through unchanged; a failed one falls back to
/// reading the payload itself as base64 text, succeeding exactly when
/// the payload is valid base64 whose bytes are valid UTF-8.
pub fn decrypt_from_lookup(encrypted: &str, looked_up: Result<String, String>) -> (r: Result<
    String,
    String,
>)
    ensures
        looked_up matches Ok(p) ==> r == Result::<String, String>::Ok(p),
        looked_up is Err ==> (r is Ok <==> (b64_decode_of(encrypted@) matches Some(b)
            && valid_utf8(b))),
        looked_up is Err ==> (r matches Ok(s) ==> b64_decode_of(encrypted@) matches Some(b)
            && valid_utf8(b) && s@ == decode_utf8(b)),
        looked_up is Err ==> (r matches Err(m) ==> spec_starts_with(m@, "Failed to decode: "@)
            || spec_starts_with(m@, "Invalid UTF-8: "@)),
{
    match looked_up {
        Result::Ok(p) => Result::Ok(p),
        Result::Err(_) => decode_stored_payload(encrypted),
    }
}

/// Looks the payload up in the credential store; where the store cannot
/// produce it, falls back to reading the payload itself as base64 text
/// (the contract of [`decrypt_from_lookup`]).  A successful lookup
/// returns whatever the store held; any failure names its cause.
pub fn safe_storage_decrypt(encrypted: String) -> (r: Result<String, String>)
    ensures
        r matches Err(m) ==> spec_starts_with(m@, "Keyring error: "@) || spec_starts_with(
            m@,
            "Failed to decode: "@,
        ) || spec_starts_with(m@, "Invalid UTF-8: "@),
{
    let entry = match keyring_entry("com.notemac.plusplus", encrypted.as_str()) {
        Result::Ok(e) => e,
        Result::Err(m) => {
            return Result::Err(m);
        },
    };
    let looked_up = keyring_get_password(&entry);
    decrypt_from_lookup(encrypted.as_str(), looked_up)
}

/// Reports whether the credential store accepts entries at all: true or
/// false, never an error.
pub fn is_safe_storage_available() -> (r: Result<bool, String>)
    ensures
        r is Ok,
{
    match keyring_entry("com.notemac.plusplus", "__test_availability__") {
        Result::Ok(_) => Result::Ok(true),
        Result::Err(_) => Result::Ok(false),
    }
}

} // verus!
