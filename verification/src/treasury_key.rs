//! Sealing the treasury secret key under a password: the checks on the key
//! and on the password, and the layout of the sealed key file.
use vstd::prelude::*;
use vstd::string::StringSliceAdditionalSpecFns;
use vstd::utf8::encode_utf8_decode_utf8;
use crate::bytes::{bytes_eq, push_bytes, read_array_16};
use crate::crypto::{
    argon2_derive_key, base64_encode, chacha20poly1305_seal, random_bytes, spec_argon2_key, spec_base64,
    spec_chacha20poly1305_seal,
};

verus! {

pub const SALT_LENGTH: usize = 16;

pub const NONCE_LENGTH: usize = 12;

/// Hex digits of a 32-byte secret key.
pub const PRIVATE_KEY_HEX_LENGTH: usize = 64;

#[derive(Debug, Clone, Copy, PartialEq, Eq, Structural)]
pub enum TreasuryKeyError {
    InvalidPrivateKeyFormat,
    EmptyPassword,
    PasswordMismatch,
    RandomSourceFailed,
    KeyDerivationFailed,
    EncryptionFailed,
}

/// The text that reports an error to the user.
pub open spec fn spec_error_message(e: TreasuryKeyError) -> Seq<char> {
    match e {
        TreasuryKeyError::InvalidPrivateKeyFormat => "invalid treasury private key format"@,
        TreasuryKeyError::EmptyPassword => "password cannot be empty"@,
        TreasuryKeyError::PasswordMismatch => "passwords do not match"@,
        TreasuryKeyError::RandomSourceFailed => "failed to generate secure random bytes"@,
        TreasuryKeyError::KeyDerivationFailed => "failed to derive encryption key"@,
        TreasuryKeyError::EncryptionFailed => "failed to encrypt treasury private key"@,
    }
}

impl TreasuryKeyError {
    pub fn message(self) -> (r: &'static str)
        ensures
            r@ == spec_error_message(self),
    {
        match self {
            TreasuryKeyError::InvalidPrivateKeyFormat => "invalid treasury private key format",
            TreasuryKeyError::EmptyPassword => "password cannot be empty",
            TreasuryKeyError::PasswordMismatch => "passwords do not match",
            TreasuryKeyError::RandomSourceFailed => "failed to generate secure random bytes",
            TreasuryKeyError::KeyDerivationFailed => "failed to derive encryption key",
            TreasuryKeyError::EncryptionFailed => "failed to encrypt treasury private key",
        }
    }
}

/// An ASCII hexadecimal digit, either case.
pub open spec fn is_hex_byte(b: u8) -> bool {
    (48 <= b <= 57) || (65 <= b <= 70) || (97 <= b <= 102)
}

/// Exactly 64 bytes, each an ASCII hexadecimal digit.
pub open spec fn private_key_hex_ok(bytes: Seq<u8>) -> bool {
    bytes.len() == PRIVATE_KEY_HEX_LENGTH && forall|i: int| 0 <= i < bytes.len() ==> is_hex_byte(#[trigger] bytes[i])
}

/// The sealed key file: a version line, then the salt, the nonce and the
/// ciphertext in base64, one `name=value` line each.
pub open spec fn spec_key_file(salt: Seq<u8>, nonce: Seq<u8>, ciphertext: Seq<u8>) -> Seq<u8> {
    "NIO-TREASURY-KEY-V1\nsalt=".spec_bytes() + spec_base64(salt) + "\nnonce=".spec_bytes() + spec_base64(nonce)
        + "\nciphertext=".spec_bytes() + spec_base64(ciphertext) + "\n".spec_bytes()
}

/// The key file that sealing a hex key under a password gives for a salt and
/// a nonce: the key is derived from the password and salt, and seals the hex
/// text.
pub open spec fn spec_sealed_key_file(hex: Seq<u8>, password: Seq<u8>, salt: Seq<u8>, nonce: Seq<u8>) -> Seq<u8> {
    spec_key_file(salt, nonce, spec_chacha20poly1305_seal(spec_argon2_key(password, salt), nonce, hex))
}

/// Which failure an input can give: a bad key first, then an empty password;
/// past both checks, a failure of the random source (where one is drawn), or
/// of key derivation for a password over `u32::MAX` bytes.
pub open spec fn failure_fits(e: TreasuryKeyError, hex: Seq<u8>, password: &str, random: bool) -> bool {
    match e {
        TreasuryKeyError::InvalidPrivateKeyFormat => !private_key_hex_ok(hex),
        TreasuryKeyError::EmptyPassword => private_key_hex_ok(hex) && password@.len() == 0,
        TreasuryKeyError::RandomSourceFailed => random && private_key_hex_ok(hex) && password@.len() > 0,
        TreasuryKeyError::KeyDerivationFailed => private_key_hex_ok(hex) && password@.len() > 0
            && password.spec_bytes().len() > 0xFFFF_FFFF,
        TreasuryKeyError::EncryptionFailed | TreasuryKeyError::PasswordMismatch => false,
    }
}

/// Whether the text is 64 hexadecimal digits.
pub fn is_valid_private_key_hex(hex: &str) -> (r: bool)
    ensures
        r == private_key_hex_ok(hex.spec_bytes()),
{
    let bytes = hex.as_bytes();
    if bytes.len() != PRIVATE_KEY_HEX_LENGTH {
        return false;
    }
    for i in 0..PRIVATE_KEY_HEX_LENGTH
        invariant
            bytes@ == hex.spec_bytes(),
            bytes@.len() == PRIVATE_KEY_HEX_LENGTH,
            forall|j: int| 0 <= j < i ==> is_hex_byte(#[trigger] bytes@[j]),
    {
        let b = bytes[i];
        let digit = (48 <= b && b <= 57) || (65 <= b && b <= 70) || (97 <= b && b <= 102);
        if !digit {
            return false;
        }
    }
    true
}

/// A password must not be empty.
pub fn check_password(password: &str) -> (r: Result<(), TreasuryKeyError>)
    ensures
        r is Ok <==> password@.len() > 0,
        r is Err ==> r == Err::<(), TreasuryKeyError>(TreasuryKeyError::EmptyPassword),
{
    if password.is_empty() {
        Err(TreasuryKeyError::EmptyPassword)
    } else {
        Ok(())
    }
}

/// The confirmation must repeat the password exactly.
pub fn confirm_password(password: &str, confirmation: &str) -> (r: Result<(), TreasuryKeyError>)
    ensures
        r is Ok <==> password@ == confirmation@,
        r is Err ==> r == Err::<(), TreasuryKeyError>(TreasuryKeyError::PasswordMismatch),
{
    let same = bytes_eq(password.as_bytes(), confirmation.as_bytes());
    proof {
        encode_utf8_decode_utf8(password@);
        encode_utf8_decode_utf8(confirmation@);
    }
    if same {
        Ok(())
    } else {
        Err(TreasuryKeyError::PasswordMismatch)
    }
}

/// Appends the base64 of `data` to `out`.
fn push_base64(out: &mut Vec<u8>, data: &[u8])
    requires
        data@.len() <= usize::MAX / 2,
    ensures
        final(out)@ == old(out)@ + spec_base64(data@),
{
    let encoded = base64_encode(data);
    push_bytes(out, encoded.as_slice());
}

/// The bytes of the sealed key file.
pub fn encrypted_key_file(salt: &[u8; 16], nonce: &[u8; 12], ciphertext: &[u8]) -> (r: Vec<u8>)
    requires
        ciphertext@.len() <= usize::MAX / 2,
    ensures
        r@ == spec_key_file(salt@, nonce@, ciphertext@),
{
    let mut out: Vec<u8> = Vec::new();
    push_bytes(&mut out, "NIO-TREASURY-KEY-V1\nsalt=".as_bytes());
    push_base64(&mut out, salt.as_slice());
    push_bytes(&mut out, "\nnonce=".as_bytes());
    push_base64(&mut out, nonce.as_slice());
    push_bytes(&mut out, "\nciphertext=".as_bytes());
    push_base64(&mut out, ciphertext);
    push_bytes(&mut out, "\n".as_bytes());
    out
}

/// Seals a hex secret key under a password with the given salt and nonce and
/// lays out the key file. The key format is checked first, then the
/// password.
pub fn seal_private_key_with(private_key_hex: &str, password: &str, salt: &[u8; 16], nonce: &[u8; 12]) -> (r:
    Result<Vec<u8>, TreasuryKeyError>)
    ensures
        !private_key_hex_ok(private_key_hex.spec_bytes()) ==> r == Err::<Vec<u8>, TreasuryKeyError>(
            TreasuryKeyError::InvalidPrivateKeyFormat,
        ),
        private_key_hex_ok(private_key_hex.spec_bytes()) && password@.len() == 0 ==> r == Err::<
            Vec<u8>,
            TreasuryKeyError,
        >(TreasuryKeyError::EmptyPassword),
        r matches Ok(file) ==> private_key_hex_ok(private_key_hex.spec_bytes()) && password@.len() > 0 && file@
            == spec_sealed_key_file(private_key_hex.spec_bytes(), password.spec_bytes(), salt@, nonce@),
        r matches Err(e) ==> failure_fits(e, private_key_hex.spec_bytes(), password, false),
        private_key_hex_ok(private_key_hex.spec_bytes()) && password@.len() > 0 && password.spec_bytes().len()
            <= 0xFFFF_FFFF ==> r is Ok,
{
    if !is_valid_private_key_hex(private_key_hex) {
        return Err(TreasuryKeyError::InvalidPrivateKeyFormat);
    }
    match check_password(password) {
        Ok(()) => {},
        Err(e) => return Err(e),
    }
    let key = match argon2_derive_key(password.as_bytes(), salt) {
        Ok(k) => k,
        Err(_) => return Err(TreasuryKeyError::KeyDerivationFailed),
    };
    let ciphertext = match chacha20poly1305_seal(&key, nonce, private_key_hex.as_bytes()) {
        Ok(c) => c,
        Err(_) => return Err(TreasuryKeyError::EncryptionFailed),
    };
    Ok(encrypted_key_file(salt, nonce, ciphertext.as_slice()))
}

/// Seals a hex secret key under a password with a fresh random salt and
/// nonce. Whatever the random source gave, the file is the one
/// `seal_private_key_with` lays out for some 16-byte salt and 12-byte nonce.
pub fn seal_private_key(private_key_hex: &str, password: &str) -> (r: Result<Vec<u8>, TreasuryKeyError>)
    ensures
        !private_key_hex_ok(private_key_hex.spec_bytes()) ==> r == Err::<Vec<u8>, TreasuryKeyError>(
            TreasuryKeyError::InvalidPrivateKeyFormat,
        ),
        private_key_hex_ok(private_key_hex.spec_bytes()) && password@.len() == 0 ==> r == Err::<
            Vec<u8>,
            TreasuryKeyError,
        >(TreasuryKeyError::EmptyPassword),
        r matches Ok(file) ==> private_key_hex_ok(private_key_hex.spec_bytes()) && password@.len() > 0 && exists|
            salt: Seq<u8>,
            nonce: Seq<u8>,
        |
            salt.len() == SALT_LENGTH && nonce.len() == NONCE_LENGTH && file@ == #[trigger] spec_sealed_key_file(
                private_key_hex.spec_bytes(),
                password.spec_bytes(),
                salt,
                nonce,
            ),
        r matches Err(e) ==> failure_fits(e, private_key_hex.spec_bytes(), password, true),
{
    if !is_valid_private_key_hex(private_key_hex) {
        return Err(TreasuryKeyError::InvalidPrivateKeyFormat);
    }
    match check_password(password) {
        Ok(()) => {},
        Err(e) => return Err(e),
    }
    let salt_bytes = match random_bytes(SALT_LENGTH) {
        Some(b) => b,
        None => return Err(TreasuryKeyError::RandomSourceFailed),
    };
    let nonce_bytes = match random_bytes(NONCE_LENGTH) {
        Some(b) => b,
        None => return Err(TreasuryKeyError::RandomSourceFailed),
    };
    let salt = read_array_16(salt_bytes.as_slice(), 0);
    let nonce = read_array_12(nonce_bytes.as_slice());
    seal_private_key_with(private_key_hex, password, &salt, &nonce)
}

/// The first 12 bytes as an array.
fn read_array_12(data: &[u8]) -> (r: [u8; 12])
    requires
        data@.len() >= 12,
    ensures
        r@ == data@.subrange(0, 12),
{
    let r = [
        data[0],
        data[1],
        data[2],
        data[3],
        data[4],
        data[5],
        data[6],
        data[7],
        data[8],
        data[9],
        data[10],
        data[11],
    ];
    assert(r@ =~= data@.subrange(0, 12));
    r
}

} // verus!
