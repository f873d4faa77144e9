use nio_blockchain::treasury_key::{
    check_password, confirm_password, encrypted_key_file, is_valid_private_key_hex, seal_private_key,
    seal_private_key_with, TreasuryKeyError,
};
use nio_blockchain::wallet::to_lower_hex;

fn sample_hex() -> String {
    "0123456789abcdef".repeat(4)
}

fn sample_salt() -> [u8; 16] {
    [0, 1, 2, 3, 4, 5, 6, 7, 8, 9, 10, 11, 12, 13, 14, 15]
}

fn sample_nonce() -> [u8; 12] {
    [100, 101, 102, 103, 104, 105, 106, 107, 108, 109, 110, 111]
}

#[test]
fn private_key_hex_must_be_64_hex_digits() {
    assert!(is_valid_private_key_hex(&sample_hex()));
    assert!(is_valid_private_key_hex(&"ABCDEF0123456789".repeat(4)));
    assert!(!is_valid_private_key_hex(""));
    assert!(!is_valid_private_key_hex(&"0".repeat(63)));
    assert!(!is_valid_private_key_hex(&"0".repeat(65)));
    assert!(!is_valid_private_key_hex(&format!("{}g", "0".repeat(63))));
    assert!(!is_valid_private_key_hex(&format!("{} ", "0".repeat(63))));
}

#[test]
fn passwords_must_be_non_empty_and_confirmed() {
    assert_eq!(check_password(""), Err(TreasuryKeyError::EmptyPassword));
    assert_eq!(check_password("secret"), Ok(()));
    assert_eq!(confirm_password("secret", "secret"), Ok(()));
    assert_eq!(confirm_password("secret", "Secret"), Err(TreasuryKeyError::PasswordMismatch));
    assert_eq!(confirm_password("secret", "secret "), Err(TreasuryKeyError::PasswordMismatch));
}

#[test]
fn key_file_layout_uses_padded_base64() {
    let file = encrypted_key_file(&sample_salt(), &[255u8; 12], &[97, 98]);
    assert_eq!(
        String::from_utf8(file).unwrap(),
        "NIO-TREASURY-KEY-V1\nsalt=AAECAwQFBgcICQoLDA0ODw==\nnonce=////////////////\nciphertext=YWI=\n"
    );
    let file = encrypted_key_file(&sample_salt(), &[255u8; 12], &[97, 98, 99, 0]);
    assert!(String::from_utf8(file).unwrap().ends_with("ciphertext=YWJjAA==\n"));
}

#[test]
fn sealing_is_argon2id_and_chacha20poly1305() {
    let file = seal_private_key_with(&sample_hex(), "correct horse", &sample_salt(), &sample_nonce()).unwrap();
    assert_eq!(
        String::from_utf8(file).unwrap(),
        "NIO-TREASURY-KEY-V1\nsalt=AAECAwQFBgcICQoLDA0ODw==\nnonce=ZGVmZ2hpamtsbW5v\nciphertext=ezzAcyT6Yn7JZ3HhhOI+fUVKShct5BMAR21a4sJlLKlEHMrcvOLvw3oB3tbAIevLNmXf9AFD0blSsLUo0RAP7LSyT9mZsLMBcRRXL1OUPVA=\n"
    );
}

#[test]
fn sealing_depends_on_the_password() {
    let a = seal_private_key_with(&sample_hex(), "one", &sample_salt(), &sample_nonce()).unwrap();
    let b = seal_private_key_with(&sample_hex(), "two", &sample_salt(), &sample_nonce()).unwrap();
    assert_ne!(a, b);
    let again = seal_private_key_with(&sample_hex(), "one", &sample_salt(), &sample_nonce()).unwrap();
    assert_eq!(a, again);
}

#[test]
fn sealing_checks_key_before_password() {
    assert_eq!(
        seal_private_key_with("xyz", "", &sample_salt(), &sample_nonce()),
        Err(TreasuryKeyError::InvalidPrivateKeyFormat)
    );
    assert_eq!(
        seal_private_key_with(&sample_hex(), "", &sample_salt(), &sample_nonce()),
        Err(TreasuryKeyError::EmptyPassword)
    );
    assert_eq!(seal_private_key("xyz", "pw"), Err(TreasuryKeyError::InvalidPrivateKeyFormat));
    assert_eq!(seal_private_key(&sample_hex(), ""), Err(TreasuryKeyError::EmptyPassword));
}

#[test]
fn random_sealing_uses_fresh_salt_and_nonce() {
    let a = String::from_utf8(seal_private_key(&sample_hex(), "pw").unwrap()).unwrap();
    let b = String::from_utf8(seal_private_key(&sample_hex(), "pw").unwrap()).unwrap();
    assert!(a.starts_with("NIO-TREASURY-KEY-V1\nsalt="));
    let lines: Vec<&str> = a.lines().collect();
    assert_eq!(lines.len(), 4);
    assert_eq!(lines[1].len(), "salt=".len() + 24);
    assert_eq!(lines[2].len(), "nonce=".len() + 16);
    assert_eq!(lines[3].len(), "ciphertext=".len() + 108);
    assert_ne!(a, b);
}

#[test]
fn error_messages_match_the_tool() {
    assert_eq!(TreasuryKeyError::InvalidPrivateKeyFormat.message(), "invalid treasury private key format");
    assert_eq!(TreasuryKeyError::EmptyPassword.message(), "password cannot be empty");
    assert_eq!(TreasuryKeyError::PasswordMismatch.message(), "passwords do not match");
}

#[test]
fn lower_hex_writes_two_digits_per_byte() {
    assert_eq!(to_lower_hex(&[]), "");
    assert_eq!(to_lower_hex(&[0x00, 0x0f, 0xa0, 0xff]), "000fa0ff");
}
