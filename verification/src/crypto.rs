//! The library's interface to its cryptographic and system dependencies.
//!
//! Every item here is trusted: its contract is taken as given and the body,
//! which calls `sha2`, `secp256k1`, `getrandom`, `argon2`,
//! `chacha20poly1305`, `base64` or `std`, is not verified.
use vstd::prelude::*;
use vstd::utf8::*;
use sha2::Digest;
use base64::Engine;
use chacha20poly1305::aead::{Aead, KeyInit};

verus! {

/// SHA-256 digest of a byte string.
pub uninterp spec fn spec_sha256(data: Seq<u8>) -> Seq<u8>;

/// Value of a byte string read as a big-endian unsigned integer.
pub open spec fn big_endian_value(s: Seq<u8>) -> int
    decreases s.len(),
{
    if s.len() == 0 {
        0
    } else {
        big_endian_value(s.drop_last()) * 256 + s.last()
    }
}

/// Order of the secp256k1 group.
pub open spec fn secp256k1_order() -> int {
    0xFFFF_FFFF_FFFF_FFFF_FFFF_FFFF_FFFF_FFFE_BAAE_DCE6_AF48_A03B_BFD2_5E8C_D036_4141int
}

/// Whether bytes form a valid secp256k1 secret key: 32 bytes whose
/// big-endian value is nonzero and below the group order.
pub open spec fn spec_secret_key_valid(secret: Seq<u8>) -> bool {
    secret.len() == 32 && 0 < big_endian_value(secret) < secp256k1_order()
}

/// The 33-byte compressed secp256k1 public key of a secret key.
pub uninterp spec fn spec_public_key(secret: Seq<u8>) -> Seq<u8>;

/// The 64-byte compact ECDSA signature that a secret key gives a digest.
pub uninterp spec fn spec_ecdsa_sign(secret: Seq<u8>, digest: Seq<u8>) -> Seq<u8>;

/// Whether a compact signature and a serialized public key parse and the
/// signature verifies for the digest.
pub uninterp spec fn spec_ecdsa_verify(digest: Seq<u8>, signature: Seq<u8>, public_key: Seq<u8>) -> bool;

/// Calls `sha2::Sha256::digest`. Claims that the 32-byte result is the
/// SHA-256 digest of the input, a function of the input bytes alone.
#[verifier::external_body]
pub(crate) fn sha256(data: &[u8]) -> (r: [u8; 32])
    ensures
        r@ == spec_sha256(data@),
{
    let digest = sha2::Sha256::digest(data);
    let mut out = [0u8; 32];
    out.copy_from_slice(&digest);
    out
}

/// Calls `secp256k1::SecretKey::from_slice`. Claims that it accepts exactly
/// the byte strings that `spec_secret_key_valid` describes, which is what
/// libsecp256k1's `secp256k1_ec_seckey_verify` documents.
#[verifier::external_body]
pub(crate) fn secret_key_is_valid(secret: &[u8; 32]) -> (r: bool)
    ensures
        r == spec_secret_key_valid(secret@),
{
    secp256k1::SecretKey::from_slice(secret).is_ok()
}

/// Calls `secp256k1::PublicKey::from_secret_key` and `serialize`. Claims that
/// the compressed public key is a function of the secret key alone.
#[verifier::external_body]
pub(crate) fn derive_public_key(secret: &[u8; 32]) -> (r: [u8; 33])
    requires
        spec_secret_key_valid(secret@),
    ensures
        r@ == spec_public_key(secret@),
{
    let key = secp256k1::SecretKey::from_slice(secret).expect("the secret key was checked as valid");
    secp256k1::PublicKey::from_secret_key(&secp256k1::Secp256k1::new(), &key).serialize()
}

/// Calls `secp256k1::Secp256k1::sign_ecdsa` (RFC 6979 nonces, so the result
/// depends on the key and the digest alone) and `serialize_compact`. Claims
/// also that the signature verifies under the key's public key, which is the
/// correctness of ECDSA.
#[verifier::external_body]
pub(crate) fn ecdsa_sign(secret: &[u8; 32], digest: &[u8; 32]) -> (r: [u8; 64])
    requires
        spec_secret_key_valid(secret@),
    ensures
        r@ == spec_ecdsa_sign(secret@, digest@),
        spec_ecdsa_verify(digest@, r@, spec_public_key(secret@)),
{
    let key = secp256k1::SecretKey::from_slice(secret).expect("the secret key was checked as valid");
    secp256k1::Secp256k1::new().sign_ecdsa(&secp256k1::Message::from_digest(*digest), &key).serialize_compact()
}

/// Calls `secp256k1::Secp256k1::verify_ecdsa` after parsing the key with
/// `PublicKey::from_slice` and the signature with `Signature::from_compact`;
/// a parse failure answers false. Claims that the answer is a function of
/// the three byte strings alone.
#[verifier::external_body]
pub(crate) fn ecdsa_verify(digest: &[u8; 32], signature: &[u8], public_key: &[u8]) -> (r: bool)
    ensures
        r == spec_ecdsa_verify(digest@, signature@, public_key@),
{
    let key = match secp256k1::PublicKey::from_slice(public_key) {
        Ok(key) => key,
        Err(_) => return false,
    };
    let sig = match secp256k1::ecdsa::Signature::from_compact(signature) {
        Ok(sig) => sig,
        Err(_) => return false,
    };
    secp256k1::Secp256k1::verification_only().verify_ecdsa(&secp256k1::Message::from_digest(*digest), &sig, &key).is_ok()
}

/// Calls `getrandom::getrandom` on a zeroed buffer of `len` bytes. Nothing is
/// claimed of the bytes but their number; `None` when the operating system
/// source fails.
#[verifier::external_body]
pub(crate) fn random_bytes(len: usize) -> (r: Option<Vec<u8>>)
    ensures
        r matches Some(v) ==> v@.len() == len,
{
    let mut bytes = vec![0u8; len];
    match getrandom::getrandom(&mut bytes) {
        Ok(()) => Some(bytes),
        Err(_) => None,
    }
}

/// Calls `std::string::String::from_utf8`. Claims, as its documentation
/// says, that it succeeds exactly on valid UTF-8 and then holds the decoded
/// characters.
#[verifier::external_body]
pub(crate) fn string_from_utf8(bytes: Vec<u8>) -> (r: Option<String>)
    ensures
        r is Some <==> valid_utf8(bytes@),
        r matches Some(s) ==> s@ == decode_utf8(bytes@),
{
    match String::from_utf8(bytes) {
        Ok(s) => Some(s),
        Err(_) => None,
    }
}

/// Argon2id key (crate defaults: version 0x13, 19456 KiB, two passes, one
/// lane) of a password and a salt, 32 bytes long.
pub uninterp spec fn spec_argon2_key(password: Seq<u8>, salt: Seq<u8>) -> Seq<u8>;

/// ChaCha20-Poly1305 ciphertext, tag appended, of a plaintext under a key and a
/// nonce, with no associated data.
pub uninterp spec fn spec_chacha20poly1305_seal(key: Seq<u8>, nonce: Seq<u8>, plaintext: Seq<u8>) -> Seq<u8>;

/// The ASCII code of a 6-bit value in the standard base64 alphabet.
pub open spec fn base64_digit(v: int) -> u8 {
    if v < 26 {
        (65 + v) as u8
    } else if v < 52 {
        (97 + v - 26) as u8
    } else if v < 62 {
        (48 + v - 52) as u8
    } else if v == 62 {
        43u8
    } else {
        47u8
    }
}

/// Standard base64 (RFC 4648 alphabet, `=` padding) of a byte string, as
/// ASCII codes.
pub open spec fn spec_base64(data: Seq<u8>) -> Seq<u8>
    decreases data.len(),
{
    if data.len() == 0 {
        Seq::empty()
    } else if data.len() == 1 {
        let a = data[0] as int;
        seq![base64_digit(a / 4), base64_digit((a % 4) * 16), 61u8, 61u8]
    } else if data.len() == 2 {
        let a = data[0] as int;
        let b = data[1] as int;
        seq![base64_digit(a / 4), base64_digit((a % 4) * 16 + b / 16), base64_digit((b % 16) * 4), 61u8]
    } else {
        let a = data[0] as int;
        let b = data[1] as int;
        let c = data[2] as int;
        seq![
            base64_digit(a / 4),
            base64_digit((a % 4) * 16 + b / 16),
            base64_digit((b % 16) * 4 + c / 64),
            base64_digit(c % 64),
        ] + spec_base64(data.subrange(3, data.len() as int))
    }
}

#[verifier::external_type_specification]
#[verifier::external_body]
pub struct ExArgon2Error(argon2::Error);

#[verifier::external_type_specification]
#[verifier::external_body]
pub struct ExAeadError(chacha20poly1305::Error);

/// Calls `argon2::Argon2::default().hash_password_into` with a 32-byte
/// output. Claims that a key it produces is the one `spec_argon2_key` names
/// for the password and salt, and that it succeeds for a password of at most
/// `u32::MAX` bytes: with a 16-byte salt and a 32-byte output, the password
/// length is the only input check that can fail.
#[verifier::external_body]
pub(crate) fn argon2_derive_key(password: &[u8], salt: &[u8; 16]) -> (r: Result<[u8; 32], argon2::Error>)
    ensures
        r matches Ok(key) ==> key@ == spec_argon2_key(password@, salt@),
        password@.len() <= 0xFFFF_FFFF ==> r is Ok,
{
    let mut key = [0u8; 32];
    match argon2::Argon2::default().hash_password_into(password, salt, &mut key) {
        Ok(()) => Ok(key),
        Err(e) => Err(e),
    }
}

/// Calls `Aead::encrypt` of `chacha20poly1305::ChaCha20Poly1305` built with
/// `KeyInit::new`. Claims that a ciphertext it produces is the one
/// `spec_chacha20poly1305_seal` names, 16 tag bytes longer than the
/// plaintext, and that it succeeds for a plaintext under 4 GiB: the cipher
/// refuses only a message of `u32::MAX` 64-byte blocks or more.
#[verifier::external_body]
pub(crate) fn chacha20poly1305_seal(key: &[u8; 32], nonce: &[u8; 12], plaintext: &[u8]) -> (r: Result<
    Vec<u8>,
    chacha20poly1305::Error,
>)
    ensures
        r matches Ok(c) ==> c@ == spec_chacha20poly1305_seal(key@, nonce@, plaintext@) && c@.len()
            == plaintext@.len() + 16,
        plaintext@.len() < 0x1_0000_0000 ==> r is Ok,
{
    let cipher = chacha20poly1305::ChaCha20Poly1305::new(chacha20poly1305::Key::from_slice(key));
    cipher.encrypt(chacha20poly1305::Nonce::from_slice(nonce), plaintext)
}

/// Calls `base64::engine::general_purpose::STANDARD.encode` and takes the
/// string's bytes. Claims the standard padded encoding, as `spec_base64`
/// writes it out. The length bound keeps the output length from overflowing,
/// where the crate panics.
#[verifier::external_body]
pub(crate) fn base64_encode(data: &[u8]) -> (r: Vec<u8>)
    requires
        data@.len() <= usize::MAX / 2,
    ensures
        r@ == spec_base64(data@),
{
    base64::engine::general_purpose::STANDARD.encode(data).into_bytes()
}

} // verus!
