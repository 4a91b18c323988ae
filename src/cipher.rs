use vstd::prelude::*;
use vstd::utf8::{decode_utf8, encode_utf8, valid_utf8};
use aes_gcm::aead::{Aead, KeyInit};

verus! {

#[verifier::external_type_specification]
#[verifier::external_body]
pub struct ExArgonError(argon2::Error);

#[verifier::external_type_specification]
#[verifier::external_body]
pub struct ExAeadError(aes_gcm::Error);

/// The 32-byte key that argon2 with its default parameters derives from a
/// password and a salt.
pub uninterp spec fn argon2_key_of(password: Seq<char>, salt: Seq<u8>) -> Seq<u8>;

/// The ciphertext, tag included, that AES-256-GCM makes of `plain` under
/// `key` and `nonce`, with no associated data.
pub uninterp spec fn aes_gcm_seal_of(key: Seq<u8>, nonce: Seq<u8>, plain: Seq<u8>) -> Seq<u8>;

/// Longest password and salt, in bytes, that argon2 takes.
pub const ARGON2_MAX_INPUT: usize = 0xffff_ffff;

/// Shortest salt, in bytes, that argon2 takes.
pub const ARGON2_MIN_SALT: usize = 8;

/// Longest plaintext, in bytes, that AES-GCM seals.
pub const AES_GCM_MAX_PLAIN: u64 = 0x10_0000_0000;

/// Relies on argon2's `Argon2::default().hash_password_into`, filling a
/// 32-byte key: with a 32-byte output it fails only for a password longer
/// than `0xffffffff` bytes or a salt outside 8 to `0xffffffff` bytes.
#[verifier::external_body]
pub(crate) fn argon2_key(password: &str, salt: &[u8]) -> (r: Result<[u8; 32], argon2::Error>)
    ensures
        r matches Ok(k) ==> k@ == argon2_key_of(password@, salt@),
        r is Ok <==> (encode_utf8(password@).len() <= ARGON2_MAX_INPUT && ARGON2_MIN_SALT <= salt@.len()
            <= ARGON2_MAX_INPUT),
{
    let mut key = [0u8; 32];
    argon2::Argon2::default().hash_password_into(password.as_bytes(), salt, &mut key).map(|_| key)
}

/// Relies on aes-gcm's `Aes256Gcm::encrypt`: it fails only for a plaintext
/// longer than `1 << 36` bytes.
#[verifier::external_body]
pub(crate) fn aes_gcm_seal(key: &[u8; 32], nonce: &[u8; 12], plain: &[u8]) -> (r: Result<Vec<u8>, aes_gcm::Error>)
    ensures
        r matches Ok(c) ==> c@ == aes_gcm_seal_of(key@, nonce@, plain@),
        r is Ok <==> plain@.len() <= AES_GCM_MAX_PLAIN,
{
    let cipher = aes_gcm::Aes256Gcm::new(aes_gcm::Key::<aes_gcm::Aes256Gcm>::from_slice(key));
    cipher.encrypt(aes_gcm::Nonce::from_slice(nonce), plain)
}

/// Relies on aes-gcm's `Aes256Gcm::decrypt`: it accepts exactly what
/// `encrypt` makes under the same key and nonce, and gives the plaintext back.
#[verifier::external_body]
pub(crate) fn aes_gcm_open(key: &[u8; 32], nonce: &[u8; 12], sealed: &[u8]) -> (r: Result<Vec<u8>, aes_gcm::Error>)
    ensures
        r matches Ok(p) ==> sealed@ == aes_gcm_seal_of(key@, nonce@, p@),
        forall|p: Seq<u8>|
            #[trigger] aes_gcm_seal_of(key@, nonce@, p) == sealed@ ==> r is Ok && r->Ok_0@ == p,
{
    let cipher = aes_gcm::Aes256Gcm::new(aes_gcm::Key::<aes_gcm::Aes256Gcm>::from_slice(key));
    cipher.decrypt(aes_gcm::Nonce::from_slice(nonce), sealed)
}

/// Relies on `String::from_utf8`: it accepts exactly the valid UTF-8 byte
/// strings.
#[verifier::external_body]
pub(crate) fn utf8_string(bytes: Vec<u8>) -> (r: Option<String>)
    ensures
        r is Some <==> valid_utf8(bytes@),
        r matches Some(s) ==> s@ == decode_utf8(bytes@),
{
    String::from_utf8(bytes).ok()
}

} // verus!
