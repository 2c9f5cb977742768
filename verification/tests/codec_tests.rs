use sref_core::codec::{decrypt_data, encrypt_data, export_bytes, import_bytes, is_container};
use sref_core::error::CoreError;

#[test]
fn round_trip_returns_original_plaintext() {
    let plaintext: Vec<u8> = b"line 1;12.50\nline 2;-3.40\n".to_vec();
    let container = encrypt_data(&plaintext, "hunter2").unwrap();
    assert_eq!(container.len(), plaintext.len() + 49);
    let recovered = decrypt_data(&container, "hunter2").unwrap();
    assert_eq!(recovered, plaintext);
}

#[test]
fn round_trip_empty_plaintext() {
    let container = encrypt_data(b"", "pw").unwrap();
    assert_eq!(container.len(), 49);
    let recovered = decrypt_data(&container, "pw").unwrap();
    assert!(recovered.is_empty());
}

#[test]
fn tamper_any_section_fails_authentication() {
    let container = encrypt_data(b"sensitive data", "pw").unwrap();
    // one offset in each section: salt, nonce, ciphertext, tag
    let offsets = [
        5,                    // salt
        21,                   // nonce
        33,                   // ciphertext
        container.len() - 1,  // tag
    ];
    for &off in &offsets {
        let mut tampered = container.clone();
        tampered[off] ^= 0x01;
        let r = decrypt_data(&tampered, "pw");
        assert_eq!(r, Err(CoreError::AuthenticationFailed), "offset {}", off);
    }
}

#[test]
fn wrong_password_fails_like_tampering() {
    let container = encrypt_data(b"abc", "right").unwrap();
    let wrong = decrypt_data(&container, "wrong");
    assert_eq!(wrong, Err(CoreError::AuthenticationFailed));

    let mut tampered = container.clone();
    tampered[40] ^= 0x80;
    let tampered_r = decrypt_data(&tampered, "right");
    assert_eq!(wrong, tampered_r);
}

#[test]
fn fresh_salt_and_nonce_every_encryption() {
    let a = encrypt_data(b"same input", "same pw").unwrap();
    let b = encrypt_data(b"same input", "same pw").unwrap();
    assert_ne!(a, b);
    assert_ne!(&a[5..33], &b[5..33]);
    assert_eq!(decrypt_data(&a, "same pw").unwrap(), b"same input");
    assert_eq!(decrypt_data(&b, "same pw").unwrap(), b"same input");
}

#[test]
fn magic_check_reports_plaintext() {
    assert!(!is_container(b""));
    assert!(!is_container(b"SRE"));
    assert!(!is_container(b"hello world, a plain csv"));
    assert!(!is_container(b"XREF rest of file"));
    assert!(is_container(b"SREF"));
    assert!(is_container(b"SREF and anything after"));
}

#[test]
fn unsupported_version_is_rejected_explicitly() {
    let mut container = encrypt_data(b"abc", "pw").unwrap();
    container[4] = 2;
    assert_eq!(decrypt_data(&container, "pw"), Err(CoreError::UnsupportedVersion(2)));
    container[4] = 0;
    assert_eq!(decrypt_data(&container, "pw"), Err(CoreError::UnsupportedVersion(0)));
}

#[test]
fn too_small_and_bad_magic_are_distinct() {
    assert_eq!(decrypt_data(b"SREF", "pw"), Err(CoreError::TooSmall));
    let not_magic = [0u8; 64];
    assert_eq!(decrypt_data(&not_magic, "pw"), Err(CoreError::BadMagic));
}

#[test]
fn export_without_password_is_verbatim() {
    let out = export_bytes("plain text content", None).unwrap();
    assert_eq!(out, b"plain text content");
    let out2 = export_bytes("plain text content", Some("")).unwrap();
    assert_eq!(out2, b"plain text content");
}

#[test]
fn export_with_password_import_round_trip() {
    let out = export_bytes("csv;content;1.23", Some("s3cret")).unwrap();
    assert!(is_container(&out));
    let back = import_bytes(&out, Some("s3cret")).unwrap();
    assert_eq!(back, "csv;content;1.23");
}

#[test]
fn import_plain_bytes_without_password() {
    let r = import_bytes(b"just a file", None).unwrap();
    assert_eq!(r, "just a file");
}

#[test]
fn import_container_without_password_is_refused() {
    let out = export_bytes("secret", Some("pw")).unwrap();
    assert_eq!(import_bytes(&out, None), Err(CoreError::PasswordRequired));
    assert_eq!(import_bytes(&out, Some("")), Err(CoreError::PasswordRequired));
}

#[test]
fn import_rejects_non_utf8_plaintext() {
    let bytes = vec![0xC3u8, 0x28, 0xA0, 0xFF];
    assert_eq!(import_bytes(&bytes, None), Err(CoreError::NotUtf8));
}

#[test]
fn import_rejects_non_utf8_decrypted_payload() {
    let container = encrypt_data(&[0xFFu8, 0xFE, 0x00, 0x80], "pw").unwrap();
    assert_eq!(import_bytes(&container, Some("pw")), Err(CoreError::NotUtf8));
}

#[test]
fn error_messages_are_descriptive() {
    assert_eq!(
        CoreError::TooSmall.message(),
        "File is too small to be a valid encrypted file"
    );
    assert_eq!(CoreError::BadMagic.message(), "Not a valid SREF encrypted file");
    assert_eq!(CoreError::UnsupportedVersion(9).message(), "Unsupported SREF version: 9");
    assert_eq!(
        CoreError::AuthenticationFailed.message(),
        "Decryption failed - wrong password or corrupted file"
    );
    assert_eq!(
        CoreError::PasswordRequired.message(),
        "This file is encrypted - a password is required"
    );
    assert_eq!(CoreError::NotUtf8.message(), "File content is not valid UTF-8");
}

#[test]
fn container_header_layout() {
    let container = encrypt_data(b"xyz", "pw").unwrap();
    assert_eq!(&container[0..4], b"SREF");
    assert_eq!(container[4], 1);
    // 16-byte salt, 12-byte nonce, 3-byte ciphertext, 16-byte tag
    assert_eq!(container.len(), 4 + 1 + 16 + 12 + 3 + 16);
}
