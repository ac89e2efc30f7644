use base64::Engine;
use domain_audit::crypto::{CryptoError, CryptoManager, EncryptionConfig};

fn quick() -> CryptoManager {
    CryptoManager::new(EncryptionConfig {
        iterations: 10,
        key_length: 32,
        algorithm: "AES-256-GCM".to_string(),
    })
}

#[test]
fn test_encrypt_decrypt() {
    let crypto = CryptoManager::default();
    let data = "test_data";
    let password = "test_password";

    let encrypted = crypto.encrypt(data, password).unwrap();
    let decrypted = crypto.decrypt(&encrypted, password).unwrap();

    assert_eq!(data, decrypted);
}

#[test]
fn test_wrong_password() {
    let crypto = CryptoManager::default();
    let data = "test_data";
    let password = "test_password";
    let wrong_password = "wrong_password";

    let encrypted = crypto.encrypt(data, password).unwrap();
    let result = crypto.decrypt(&encrypted, wrong_password);

    assert!(result.is_err());
}

#[test]
fn test_invalid_base64() {
    let crypto = CryptoManager::default();
    let result = crypto.decrypt("not-base64", "password");
    assert!(matches!(result, Err(CryptoError::InvalidFormat)));
}

#[test]
fn test_too_short_payload() {
    let crypto = CryptoManager::default();
    let short = base64::engine::general_purpose::STANDARD.encode([0u8; 10]);
    let result = crypto.decrypt(&short, "password");
    assert!(matches!(result, Err(CryptoError::InvalidFormat)));
}

#[test]
fn the_default_configuration_is_aes_256_gcm() {
    let config = EncryptionConfig::default();
    assert_eq!(config.iterations, 100_000);
    assert_eq!(config.key_length, 32);
    assert_eq!(config.algorithm, "AES-256-GCM");
    let mut crypto = CryptoManager::default();
    assert_eq!(crypto.get_config().iterations, 100_000);
    crypto.update_config(EncryptionConfig {
        iterations: 42,
        key_length: 16,
        algorithm: "other".to_string(),
    });
    let updated = crypto.get_config();
    assert_eq!((updated.iterations, updated.key_length), (42, 16));
    assert_eq!(updated.algorithm, "other");
    assert_eq!(updated.clone().algorithm, "other");
}

#[test]
fn a_payload_is_salt_nonce_and_sealed_text_in_base64() {
    let crypto = quick();
    let salt: Vec<u8> = (0u8..16).collect();
    let nonce: Vec<u8> = (100u8..112).collect();
    let encrypted = crypto.encrypt_with("héllo", "pw", &salt, &nonce).expect("encrypt");
    let payload = base64::engine::general_purpose::STANDARD.decode(&encrypted).expect("base64");
    assert_eq!(&payload[..16], &salt[..]);
    assert_eq!(&payload[16..28], &nonce[..]);
    assert_eq!(payload.len(), 28 + "héllo".len() + 16);
    assert_ne!(&payload[28..28 + "héllo".len()], "héllo".as_bytes());
    assert_eq!(crypto.encrypt_with("héllo", "pw", &salt, &nonce).expect("encrypt"), encrypted);
    assert_eq!(crypto.decrypt(&encrypted, "pw").expect("decrypt"), "héllo");
    let other = crypto.encrypt("héllo", "pw").expect("encrypt");
    assert_ne!(other, encrypted);
    assert_eq!(crypto.decrypt(&other, "pw").expect("decrypt"), "héllo");
}

#[test]
fn the_key_is_derived_by_pbkdf2_with_hmac_sha256() {
    let crypto = quick();
    let salt = vec![7u8; 16];
    let nonce = vec![9u8; 12];
    let encrypted = crypto.encrypt_with("data", "password", &salt, &nonce).expect("encrypt");
    let payload = base64::engine::general_purpose::STANDARD.decode(&encrypted).expect("base64");
    let mut key = [0u8; 32];
    pbkdf2::pbkdf2_hmac::<sha2::Sha256>(b"password", &salt, 10, &mut key);
    let cipher = <aes_gcm::Aes256Gcm as aes_gcm::aead::KeyInit>::new_from_slice(&key).expect("key");
    let plain = aes_gcm::aead::Aead::decrypt(
        &cipher,
        aes_gcm::Nonce::from_slice(&nonce),
        &payload[28..],
    )
    .expect("opened");
    assert_eq!(plain, b"data");
}

#[test]
fn failures_are_told_apart() {
    let crypto = quick();
    let encrypted = crypto.encrypt("data", "pw").expect("encrypt");
    assert!(matches!(crypto.decrypt(&encrypted, "other"), Err(CryptoError::DecryptionFailed(_))));
    let mut payload = base64::engine::general_purpose::STANDARD.decode(&encrypted).expect("base64");
    let last = payload.len() - 1;
    payload[last] ^= 1;
    let tampered = base64::engine::general_purpose::STANDARD.encode(&payload);
    assert!(matches!(crypto.decrypt(&tampered, "pw"), Err(CryptoError::DecryptionFailed(_))));
    let exactly = base64::engine::general_purpose::STANDARD.encode([0u8; 28]);
    assert!(matches!(crypto.decrypt(&exactly, "pw"), Err(CryptoError::DecryptionFailed(_))));
    let almost = base64::engine::general_purpose::STANDARD.encode([0u8; 27]);
    assert!(matches!(crypto.decrypt(&almost, "pw"), Err(CryptoError::InvalidFormat)));
    let short_key = CryptoManager::new(EncryptionConfig {
        iterations: 10,
        key_length: 16,
        algorithm: "AES-256-GCM".to_string(),
    });
    match short_key.encrypt("data", "pw") {
        Err(CryptoError::EncryptionFailed(message)) => assert_eq!(message, "Invalid Length"),
        _ => panic!("a key of 16 bytes was taken"),
    }
    match short_key.decrypt(&encrypted, "pw") {
        Err(e) => assert_eq!(e.message(), "Decryption failed: Invalid Length"),
        Ok(_) => panic!("a key of 16 bytes was taken"),
    }
    assert_eq!(CryptoError::InvalidFormat.message(), "Invalid format");
    assert_eq!(CryptoError::EncryptionFailed("x".to_string()).message(), "Encryption failed: x");
}

#[test]
fn text_that_is_not_utf8_is_refused() {
    let crypto = quick();
    let salt = vec![1u8; 16];
    let nonce = vec![2u8; 12];
    let mut key = [0u8; 32];
    pbkdf2::pbkdf2_hmac::<sha2::Sha256>(b"pw", &salt, 10, &mut key);
    let cipher = <aes_gcm::Aes256Gcm as aes_gcm::aead::KeyInit>::new_from_slice(&key).expect("key");
    let sealed = aes_gcm::aead::Aead::encrypt(
        &cipher,
        aes_gcm::Nonce::from_slice(&nonce),
        &[0xffu8, 0xfe][..],
    )
    .expect("sealed");
    let mut payload = salt.clone();
    payload.extend_from_slice(&nonce);
    payload.extend_from_slice(&sealed);
    let encrypted = base64::engine::general_purpose::STANDARD.encode(&payload);
    match crypto.decrypt(&encrypted, "pw") {
        Err(CryptoError::DecryptionFailed(message)) => assert_eq!(message, "Invalid UTF-8"),
        _ => panic!("bytes that are no text were taken"),
    }
}
