use face_catalog::config::{ApiConfig, ReportGenerator};
use face_catalog::security::{CryptoError, EncryptedData, Encryptor, SecureStorage};

#[test]
fn test_encryption_decryption() {
    let password = "test_password";
    let encryptor = Encryptor::new(password).unwrap();

    let data = b"Hello, World!".to_vec();
    let encrypted = encryptor.encrypt(&data).unwrap();
    let decrypted = encryptor.decrypt(&encrypted).unwrap();

    assert_eq!(data.as_slice(), decrypted.as_slice());
}

#[test]
fn from_key_checks_length() {
    assert!(matches!(Encryptor::from_key(vec![7u8; 31]), Err(CryptoError::InvalidKeyLength)));
    let e = Encryptor::from_key(vec![7u8; 32]).unwrap();
    let sealed = e.encrypt(&b"abc".to_vec()).unwrap();
    assert_eq!(sealed.nonce.len(), 16);
    assert_eq!(sealed.salt.len(), 44);
    assert_eq!(e.decrypt(&sealed).unwrap(), b"abc".to_vec());
}

#[test]
fn fresh_nonces_differ() {
    let e = Encryptor::from_key(vec![1u8; 32]).unwrap();
    let a = e.encrypt(&b"same".to_vec()).unwrap();
    let b = e.encrypt(&b"same".to_vec()).unwrap();
    assert_ne!(a.nonce, b.nonce);
    assert_ne!(a.ciphertext, b.ciphertext);
}

#[test]
fn decrypt_errors() {
    let e = Encryptor::from_key(vec![3u8; 32]).unwrap();
    let other = Encryptor::from_key(vec![4u8; 32]).unwrap();
    let sealed = e.encrypt(&b"secret".to_vec()).unwrap();
    assert!(matches!(other.decrypt(&sealed), Err(CryptoError::DecryptionFailed)));
    let bad = EncryptedData { ciphertext: "%%%".to_string(), nonce: sealed.nonce.clone(), salt: sealed.salt.clone() };
    assert!(matches!(e.decrypt(&bad), Err(CryptoError::InvalidEncoding)));
    let short = EncryptedData { ciphertext: sealed.ciphertext.clone(), nonce: "AAAA".to_string(), salt: String::new() };
    assert!(matches!(e.decrypt(&short), Err(CryptoError::InvalidEncoding)));
}

#[test]
fn passwords_give_distinct_keys() {
    let a = Encryptor::new("pw").unwrap();
    let b = Encryptor::new("pw").unwrap();
    let sealed = a.encrypt(&b"x".to_vec()).unwrap();
    assert!(matches!(b.decrypt(&sealed), Err(CryptoError::DecryptionFailed)));
}

#[test]
fn secure_storage_names() {
    let s = SecureStorage::new("test_password", "vault".to_string()).unwrap();
    assert_eq!(s.entry_path("test_key"), "vault/test_key.enc");
    assert_eq!(s.directory(), "vault");
    let names: Vec<String> = ["a.enc", "b.txt", ".enc", "c.enc.bak", "d.enc"].iter().map(|s| s.to_string()).collect();
    assert_eq!(SecureStorage::keys_from_names(&names), vec!["a".to_string(), String::new(), "d".to_string()]);
    let sealed = s.cipher().encrypt(&b"Hello, World!".to_vec()).unwrap();
    assert_eq!(s.cipher().decrypt(&sealed).unwrap(), b"Hello, World!".to_vec());
}

#[test]
fn configs_and_report_generator() {
    let c = ApiConfig::default();
    assert_eq!(c.host, "127.0.0.1");
    assert_eq!(c.port, 8080);
    assert_eq!(c.upload_dir, "uploads");
    assert_eq!(c.cors_origins, vec!["http://localhost:3000".to_string()]);
    let r = ReportGenerator::new("reports".to_string());
    assert_eq!(r.output_dir_path(), "reports");
}
