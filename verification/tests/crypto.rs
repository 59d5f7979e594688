use lazarus::catalog::sealed::SealedEntry;
use lazarus::config::{ConfigManager, RetentionPolicy};
use lazarus::encryption::aes::{ChunkFraming, StreamingEncryptor};
use lazarus::encryption::key_manager::KeyManager;
use lazarus::encryption::vault::{Vault, VAULT_VERSION};
use lazarus::error::LazarusError;
use lazarus::storage::backend::{RetentionLock, RetentionMode};
use lazarus::storage::chunks::{
    chunk_key, open_chunk, open_object_text, open_text, seal_chunk, seal_text, shardable,
};

fn stream_key() -> [u8; 32] {
    let mut k = [0u8; 32];
    for (i, b) in k.iter_mut().enumerate() {
        *b = i as u8;
    }
    k
}

fn hash_of(data: &[u8]) -> [u8; 32] {
    *blake3::hash(data).as_bytes()
}

#[test]
fn round_trip() {
    let enc = StreamingEncryptor::new(&stream_key());
    let chunk_hash = hash_of(b"plaintext");
    let ct = enc.encrypt_chunk(&chunk_hash, b"plaintext").unwrap();
    let pt = enc.decrypt_chunk(&chunk_hash, &ct).unwrap();
    assert_eq!(pt, b"plaintext");
}

#[test]
fn deterministic_ciphertext_preserves_dedup() {
    let enc = StreamingEncryptor::new(&stream_key());
    let chunk_hash = hash_of(b"the same");
    let a = enc.encrypt_chunk(&chunk_hash, b"the same").unwrap();
    let b = enc.encrypt_chunk(&chunk_hash, b"the same").unwrap();
    assert_eq!(a, b, "deterministic encryption must yield identical output");
}

#[test]
fn different_epoch_yields_different_ciphertext() {
    let enc1 = StreamingEncryptor::new(&stream_key()).with_epoch(0);
    let enc2 = StreamingEncryptor::new(&stream_key()).with_epoch(1);
    let chunk_hash = hash_of(b"data");
    let a = enc1.encrypt_chunk(&chunk_hash, b"data").unwrap();
    let b = enc2.encrypt_chunk(&chunk_hash, b"data").unwrap();
    assert_ne!(a, b);
    assert_eq!(enc1.decrypt_chunk(&chunk_hash, &a).unwrap(), b"data");
    assert_eq!(enc2.decrypt_chunk(&chunk_hash, &b).unwrap(), b"data");
}

#[test]
fn cross_epoch_decrypt_works_via_embedded_epoch() {
    let writer = StreamingEncryptor::new(&stream_key()).with_epoch(0);
    let reader = StreamingEncryptor::new(&stream_key()).with_epoch(5);
    let chunk_hash = hash_of(b"old chunk");
    let ct = writer.encrypt_chunk(&chunk_hash, b"old chunk").unwrap();
    assert_eq!(reader.decrypt_chunk(&chunk_hash, &ct).unwrap(), b"old chunk");
}

#[test]
fn rejects_corrupted_ciphertext() {
    let enc = StreamingEncryptor::new(&stream_key());
    let chunk_hash = hash_of(b"x");
    let mut ct = enc.encrypt_chunk(&chunk_hash, b"x").unwrap();
    let last = ct.len() - 1;
    ct[last] ^= 0x01;
    assert!(enc.decrypt_chunk(&chunk_hash, &ct).is_err());
}

#[test]
fn rejects_wrong_chunk_hash() {
    let enc = StreamingEncryptor::new(&stream_key());
    let real = hash_of(b"x");
    let other = hash_of(b"y");
    let ct = enc.encrypt_chunk(&real, b"x").unwrap();
    assert!(enc.decrypt_chunk(&other, &ct).is_err());
}

#[test]
fn detect_framing_distinguishes_versions() {
    let enc = StreamingEncryptor::new(&stream_key());
    let ch = hash_of(b"x");
    let ct = enc.encrypt_chunk(&ch, b"x").unwrap();
    assert_eq!(StreamingEncryptor::detect_framing(&ct), ChunkFraming::Streaming);
    let legacy = vec![0u8; 32];
    assert_eq!(StreamingEncryptor::detect_framing(&legacy), ChunkFraming::Legacy);
}

#[test]
fn legacy_chunks_are_read() {
    let keys = KeyManager::from_keys(stream_key(), [1u8; 32]);
    let (ciphertext, nonce) = keys.encrypt_data(b"old").unwrap();
    let mut framed = nonce;
    framed.extend_from_slice(&ciphertext);
    let enc = StreamingEncryptor::new(&stream_key());
    assert_eq!(enc.decrypt_legacy(&framed).unwrap(), b"old");
    assert!(enc.decrypt_legacy(&framed[..5]).is_err());
    assert_eq!(enc.with_epoch(4).epoch(), 4);
}

// --- Keys ------------------------------------------------------------------------------------

#[test]
fn test_init_and_unlock() {
    let password = "test_password_12345";
    let (manager1, config) = KeyManager::init_repository(password).unwrap();
    let manager2 = KeyManager::unlock_repository(password, &config).unwrap();
    assert_eq!(manager1.get_repo_key(), manager2.get_repo_key());
    assert_eq!(manager1.get_metadata_key(), manager2.get_metadata_key());
}

#[test]
fn test_unlock_wrong_password() {
    let password = "correct_password";
    let (_manager, config) = KeyManager::init_repository(password).unwrap();
    let wrong_password = "wrong_password";
    let result = KeyManager::unlock_repository(wrong_password, &config);
    assert!(result.is_err());
    match result {
        Err(LazarusError::EncryptionError(msg)) => {
            assert!(msg.contains("wrong password") || msg.contains("decrypt"));
        }
        _ => panic!("Expected EncryptionError"),
    }
}

#[test]
fn test_data_encryption_roundtrip() {
    let password = "test_password";
    let (manager, _config) = KeyManager::init_repository(password).unwrap();
    let original_data = b"This is some test data that should be encrypted and decrypted correctly!";
    let (encrypted, nonce) = manager.encrypt_data(original_data).unwrap();
    assert_ne!(&encrypted[..], &original_data[..]);
    let decrypted = manager.decrypt_data(&encrypted, &nonce).unwrap();
    assert_eq!(&decrypted[..], &original_data[..]);
}

#[test]
fn test_metadata_encryption_roundtrip() {
    let password = "test_password";
    let (manager, _config) = KeyManager::init_repository(password).unwrap();
    let original_metadata = "test_file.txt";
    let (encrypted, nonce) = manager.encrypt_metadata(original_metadata).unwrap();
    let decrypted = manager.decrypt_metadata(&encrypted, &nonce).unwrap();
    assert_eq!(decrypted, original_metadata);
}

#[test]
fn test_different_nonces_produce_different_ciphertexts() {
    let password = "test_password";
    let (manager, _config) = KeyManager::init_repository(password).unwrap();
    let data = b"same data";
    let (encrypted1, nonce1) = manager.encrypt_data(data).unwrap();
    let (encrypted2, nonce2) = manager.encrypt_data(data).unwrap();
    assert_ne!(nonce1, nonce2);
    assert_ne!(encrypted1, encrypted2);
    let decrypted1 = manager.decrypt_data(&encrypted1, &nonce1).unwrap();
    let decrypted2 = manager.decrypt_data(&encrypted2, &nonce2).unwrap();
    assert_eq!(decrypted1, decrypted2);
    assert_eq!(&decrypted1[..], data);
}

#[test]
fn test_decrypt_with_wrong_nonce_fails() {
    let password = "test_password";
    let (manager, _config) = KeyManager::init_repository(password).unwrap();
    let data = b"test data";
    let (encrypted, _correct_nonce) = manager.encrypt_data(data).unwrap();
    let wrong_nonce = vec![0u8; 12];
    let result = manager.decrypt_data(&encrypted, &wrong_nonce);
    assert!(result.is_err());
}

#[test]
fn a_rotated_password_opens_the_same_keys() {
    let (manager, config) = KeyManager::init_repository("first").unwrap();
    let rotated = ConfigManager::rotate_master_key(&config, "first", "second").unwrap();
    let opened = KeyManager::unlock_repository("second", &rotated).unwrap();
    assert_eq!(opened.get_repo_key(), manager.get_repo_key());
    assert_eq!(opened.get_metadata_key(), manager.get_metadata_key());
    assert!(KeyManager::unlock_repository("first", &rotated).is_err());
    assert!(ConfigManager::rotate_master_key(&config, "wrong", "second").is_err());
}

#[test]
fn a_bad_salt_is_refused() {
    let (_, mut config) = KeyManager::init_repository("first").unwrap();
    config.salt = "no salt!".to_string();
    assert!(KeyManager::unlock_repository("first", &config).is_err());
}

#[test]
fn metadata_must_be_text() {
    let keys = KeyManager::from_keys([1u8; 32], [2u8; 32]);
    let (ct, nonce) = keys.encrypt_metadata_bytes(&[0xff, 0xfe]).unwrap();
    assert_eq!(keys.decrypt_metadata_bytes(&ct, &nonce).unwrap(), vec![0xff, 0xfe]);
    let e = keys.decrypt_metadata(&ct, &nonce).unwrap_err();
    assert_eq!(e.describe(), "Encryption error: Invalid UTF-8 in metadata");
}

// --- Vault -----------------------------------------------------------------------------------

fn vault_key() -> [u8; 32] {
    [7u8; 32]
}

#[test]
fn put_get_round_trip() {
    let mut v = Vault::open("/repo", vault_key());
    v.put_secret_str("aws_access_key_id", "AKIA...").unwrap();
    assert_eq!(v.get_secret_str("aws_access_key_id").unwrap().unwrap(), "AKIA...");
}

#[test]
fn missing_secret_returns_none() {
    let v = Vault::open("/repo", vault_key());
    assert!(v.get_secret_str("nope").unwrap().is_none());
}

#[test]
fn delete_works() {
    let mut v = Vault::open("/repo", vault_key());
    v.put_secret_str("x", "1").unwrap();
    v.delete_secret("x");
    assert!(v.get_secret("x").unwrap().is_none());
}

#[test]
fn wrong_key_fails_to_decrypt() {
    let mut v = Vault::open("/repo", vault_key());
    v.put_secret_str("x", "secret").unwrap();
    let entries: Vec<SealedEntry> = v
        .entries()
        .iter()
        .map(|e| SealedEntry {
            name: e.name.clone(),
            nonce: e.nonce.clone(),
            ciphertext: e.ciphertext.clone(),
        })
        .collect();
    let attacker = Vault::load("/repo", [0u8; 32], VAULT_VERSION, entries).unwrap();
    assert!(attacker.get_secret("x").is_err());
}

#[test]
fn list_names_visible() {
    let mut v = Vault::open("/repo", vault_key());
    v.put_secret_str("a", "1").unwrap();
    v.put_secret_str("b", "2").unwrap();
    let names = v.list_names();
    assert!(names.contains(&"a".to_string()));
    assert!(names.contains(&"b".to_string()));
}

#[test]
fn vaults_check_what_they_hold() {
    assert!(Vault::load("/repo", vault_key(), VAULT_VERSION + 1, Vec::new()).is_err());
    let broken = SealedEntry { name: "x".to_string(), nonce: vec![0; 5], ciphertext: vec![1] };
    let v = Vault::load("/repo", vault_key(), VAULT_VERSION, vec![broken]).unwrap();
    assert!(matches!(v.get_secret("x"), Err(LazarusError::EncryptionError(_))));
    let mut v = Vault::open("/repo", vault_key());
    v.put_secret("bytes", &[0xff]).unwrap();
    assert_eq!(v.get_secret("bytes").unwrap().unwrap(), vec![0xff]);
    assert!(v.get_secret_str("bytes").is_err());
}

// --- Chunks in storage -----------------------------------------------------------------------

#[test]
fn sealed_chunks_open_again() {
    let keys = KeyManager::from_keys([1u8; 32], [2u8; 32]);
    let chunk = vec![5u8; 5000];
    let sealed = seal_chunk(&keys, &chunk).unwrap();
    assert_eq!(sealed.hash_hex, blake3::hash(&chunk).to_hex().to_string());
    assert_eq!(sealed.chunk_len, 5000);
    assert_eq!(open_chunk(&keys, &sealed.hash_hex, &sealed.stored_data).unwrap(), chunk);
    let short = open_chunk(&keys, &sealed.hash_hex, &sealed.stored_data[..11]).unwrap_err();
    assert_eq!(short.describe(), "Encryption error: Stored chunk too small");
    let wrong = open_chunk(&keys, "00", &sealed.stored_data).unwrap_err();
    assert!(matches!(wrong, LazarusError::VerificationFailed(m) if m.contains("mismatch")));
    let other = KeyManager::from_keys([9u8; 32], [2u8; 32]);
    assert!(open_chunk(&other, &sealed.hash_hex, &sealed.stored_data).is_err());
}

#[test]
fn chunk_keys_are_sharded() {
    assert_eq!(chunk_key("abcdef"), "ab/abcdef");
    assert!(shardable("ab"));
    assert!(!shardable("a"));
}

#[test]
fn sealed_texts_open_again() {
    let keys = KeyManager::from_keys([1u8; 32], [2u8; 32]);
    let blob = seal_text(&keys, "name é").unwrap();
    assert_eq!(open_text(&keys, &blob).unwrap(), "name é");
    assert_eq!(open_object_text(&keys, &blob).unwrap(), "name é");
    assert_eq!(open_object_text(&keys, b"{}").unwrap(), "{}");
    assert!(open_object_text(&keys, &[0xff]).is_err());
}

// --- Retention -------------------------------------------------------------------------------

#[test]
fn retention_policy_disabled() {
    let policy = RetentionPolicy::default();
    assert!(policy.as_lock().is_none());
}

#[test]
fn retention_policy_enabled_generates_lock() {
    let mut policy = RetentionPolicy::default();
    policy.enabled = true;
    policy.min_retention_days = 1;
    policy.legal_hold = true;
    policy.local_immutability = true;
    let lock = policy.as_lock().expect("lock expected");
    assert!(lock.retain_until.is_some());
    assert!(lock.legal_hold);
    assert!(lock.local_immutability);
}

#[test]
fn locks_last_for_the_days_of_the_policy() {
    let mut policy = RetentionPolicy::default();
    policy.enabled = true;
    policy.min_retention_days = 2;
    let lock = policy.as_lock_at(1000).unwrap();
    assert_eq!(lock.retain_until, Some(1000 + 2 * 86_400));
    let lock = RetentionLock::new(RetentionMode::Compliance).with_retain_duration_from(10, 5);
    assert_eq!(lock.retain_until, Some(15));
    assert_eq!(lock.mode, RetentionMode::Compliance);
}

#[test]
fn a_repository_has_its_places() {
    let c = ConfigManager::new("/repo");
    assert_eq!(c.repo_path(), "/repo");
    assert_eq!(c.data_path(), "/repo/data");
    assert_eq!(c.indexes_path(), "/repo/indexes");
    assert_eq!(c.snapshots_path(), "/repo/snapshots");
    assert!(c.database_path().starts_with("/repo/indexes/"));
    assert!(ConfigManager::check_init(false).is_ok());
    assert!(ConfigManager::check_init(true).is_err());
    assert!(ConfigManager::check_open(false).is_err());
}

#[test]
fn a_wrong_nonce_matters_only_where_unlocking_gets_to_it() {
    let (manager, config) = KeyManager::init_repository("right").unwrap();
    let opened = KeyManager::try_unlock_repository("right", &config).unwrap().unwrap();
    assert_eq!(opened.get_repo_key(), manager.get_repo_key());
    let mut second = config.clone();
    second.metadata_key_nonce = vec![0u8; 5];
    assert!(KeyManager::try_unlock_repository("right", &second).is_none());
    let wrong = KeyManager::try_unlock_repository("wrong", &second).unwrap();
    assert!(matches!(wrong.err().unwrap(), LazarusError::EncryptionError(m)
        if m == "Failed to decrypt repository key - wrong password?"));
    let mut first = config.clone();
    first.repo_key_nonce = Vec::new();
    assert!(KeyManager::try_unlock_repository("right", &first).is_none());
    first.salt = "?".to_string();
    let salt = KeyManager::try_unlock_repository("right", &first).unwrap();
    assert!(matches!(salt.err().unwrap(), LazarusError::EncryptionError(m) if m == "Invalid salt"));
}
