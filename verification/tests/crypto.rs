use stripe_subscriber_role::routes::admin::seal_secret;
use stripe_subscriber_role::services::crypto::{decrypt, encrypt, encrypt_with_nonce, CryptoError};
use stripe_subscriber_role::tasks::reconcile::decrypt_key;

const SECRET: &str = "session-secret-not-for-prod";

#[test]
fn round_trip_short() {
    let pt = b"hello";
    let ct = encrypt(SECRET, pt);
    let decrypted = decrypt(SECRET, &ct).unwrap();
    assert_eq!(&decrypted, pt);
}

#[test]
fn round_trip_real_token_size() {
    let pt = b"kck_access_token_kf83hf83hf83hf8hf8h83hf83hf83hf83hf83hf83hf83hf83hf83hf";
    let ct = encrypt(SECRET, pt);
    assert_ne!(&ct, pt);
    let decrypted = decrypt(SECRET, &ct).unwrap();
    assert_eq!(decrypted.as_slice(), pt);
}

#[test]
fn nonce_is_unique() {
    let pt = b"same-plaintext";
    let a = encrypt(SECRET, pt);
    let b = encrypt(SECRET, pt);
    assert_ne!(a, b, "fresh nonce must change ciphertext");
}

#[test]
fn wrong_secret_fails() {
    let ct = encrypt(SECRET, b"x");
    assert!(decrypt("wrong-secret", &ct).is_err());
}

#[test]
fn tampered_ciphertext_fails() {
    let mut ct = encrypt(SECRET, b"x");
    let last = ct.len() - 1;
    ct[last] ^= 0x01;
    assert!(decrypt(SECRET, &ct).is_err());
}

#[test]
fn too_short_blob_errors() {
    assert!(matches!(
        decrypt(SECRET, b"abc"),
        Err(CryptoError::TooShort)
    ));
}

#[test]
fn blob_is_nonce_ciphertext_and_tag() {
    let nonce = [7u8; 12];
    let blob = encrypt_with_nonce(SECRET, &nonce, b"hello");
    assert_eq!(blob.len(), 12 + 5 + 16);
    assert_eq!(&blob[..12], &nonce);
    assert_ne!(&blob[12..17], b"hello");
    assert_eq!(blob, encrypt_with_nonce(SECRET, &nonce, b"hello"));
    assert_ne!(blob, encrypt_with_nonce("other", &nonce, b"hello"));
    assert_eq!(decrypt(SECRET, &blob).unwrap(), b"hello".to_vec());
}

#[test]
fn errors_say_what_went_wrong() {
    assert_eq!(CryptoError::TooShort.message(), "ciphertext too short");
    assert_eq!(CryptoError::DecryptFailed.message(), "decrypt failed");
    assert!(matches!(
        decrypt(SECRET, &[0u8; 28]),
        Err(CryptoError::DecryptFailed)
    ));
}

#[test]
fn stored_key_reads_back() {
    let enc = seal_secret(SECRET, "rk_live_ä");
    assert_eq!(decrypt_key(SECRET, &enc).unwrap(), "rk_live_ä");
    assert!(decrypt_key("other", &enc).is_err());
}

#[test]
fn stored_key_must_be_utf8() {
    let enc = encrypt(SECRET, &[0xff, 0xfe]);
    let e = decrypt_key(SECRET, &enc).unwrap_err();
    assert!(format!("{:?}", e).contains("Stripe key is not valid UTF-8"));
    let e = decrypt_key(SECRET, &[0u8; 3]).unwrap_err();
    assert!(format!("{:?}", e).contains("failed to decrypt Stripe key"));
}
