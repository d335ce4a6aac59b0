use pv::crypto;
use pv::errors::PasswordError;

fn hex(s: &str) -> Vec<u8> {
    (0..s.len() / 2)
        .map(|i| u8::from_str_radix(&s[2 * i..2 * i + 2], 16).unwrap())
        .collect()
}

#[test]
fn test_generate_random_iv() {
    assert_eq!(crypto::generate_random_iv().unwrap().len(), 16);
}

#[test]
fn test_generate_random_salt() {
    assert_eq!(crypto::generate_random_salt().unwrap().len(), 32);
}

#[test]
fn test_generate_encryption_key() {
    assert_eq!(
        crypto::generate_encryption_key("hi", &crypto::generate_random_salt().unwrap()).len(),
        32
    )
}

#[test]
fn key_derivation_is_deterministic() {
    let salt = vec![7u8; 32];
    let a = crypto::generate_encryption_key("correct-horse", &salt);
    let b = crypto::generate_encryption_key("correct-horse", &salt);
    assert_eq!(a, b);
    assert_ne!(a, vec![0u8; 32]);
}

#[test]
fn key_depends_on_salt_and_passphrase() {
    let s1 = vec![1u8; 32];
    let s2 = vec![2u8; 32];
    let a = crypto::generate_encryption_key("pw", &s1);
    assert_ne!(a, crypto::generate_encryption_key("pw", &s2));
    assert_ne!(a, crypto::generate_encryption_key("other", &s1));
}

#[test]
fn empty_passphrase_is_accepted() {
    let key = crypto::generate_encryption_key("", &[0u8; 32]);
    assert_eq!(key.len(), 32);
}

#[test]
fn aes_matches_known_vector() {
    let key = hex("603deb1015ca71be2b73aef0857d77811f352c073b6108d72d9810a30914dff4");
    let iv = hex("000102030405060708090a0b0c0d0e0f");
    let plain = hex("6bc1bee22e409f96e93d7e117393172a");
    let ct = crypto::aes_encrypt(&plain, &key, &iv).unwrap();
    assert_eq!(ct.len(), 32);
    assert_eq!(&ct[..16], &hex("f58c4c04d6e5f1ba779eabfb5f7bfbd6")[..]);
    assert_eq!(crypto::aes_decrypt(&ct, &key, &iv).unwrap(), plain);
}

#[test]
fn aes_pads_to_next_block() {
    let key = vec![3u8; 32];
    let iv = vec![4u8; 16];
    assert_eq!(crypto::aes_encrypt(b"", &key, &iv).unwrap().len(), 16);
    assert_eq!(crypto::aes_encrypt(&[9u8; 15], &key, &iv).unwrap().len(), 16);
    assert_eq!(crypto::aes_encrypt(&[9u8; 17], &key, &iv).unwrap().len(), 32);
    let ct = crypto::aes_encrypt(b"secret", &key, &iv).unwrap();
    assert_ne!(&ct[..6], b"secret");
    assert_eq!(crypto::aes_decrypt(&ct, &key, &iv).unwrap(), b"secret".to_vec());
}

#[test]
fn aes_rejects_bad_lengths() {
    assert_eq!(
        crypto::aes_encrypt(b"x", &[0u8; 31], &[0u8; 16]),
        Err(PasswordError::EncryptionError)
    );
    assert_eq!(
        crypto::aes_encrypt(b"x", &[0u8; 32], &[0u8; 15]),
        Err(PasswordError::EncryptionError)
    );
    assert_eq!(
        crypto::aes_decrypt(&[0u8; 16], &[0u8; 32], &[0u8; 17]),
        Err(PasswordError::DecryptionError)
    );
    assert_eq!(
        crypto::aes_decrypt(&[0u8; 15], &[0u8; 32], &[0u8; 16]),
        Err(PasswordError::DecryptionError)
    );
}

#[test]
fn aes_decrypt_with_wrong_key_fails_or_differs() {
    let iv = vec![0u8; 16];
    let ct = crypto::aes_encrypt(b"hello world", &[1u8; 32], &iv).unwrap();
    match crypto::aes_decrypt(&ct, &[2u8; 32], &iv) {
        Ok(p) => assert_ne!(p, b"hello world".to_vec()),
        Err(e) => assert_eq!(e, PasswordError::DecryptionError),
    }
}
