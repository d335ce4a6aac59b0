use pv::container::{decode_container, encode_container};
use pv::errors::PasswordError;
use pv::pass::{self, PasswordStore};
use pv::schema::Password;

fn pw(name: &str, value: &str) -> Password {
    Password::new(name.to_string(), value.to_string())
}

#[test]
fn test_create_password_store() {
    let store = pass::PasswordStore::new("123").unwrap();
    assert_eq!(store.get_all_passwords().len(), 0)
}

#[test]
fn test_add_password() {
    let mut store = pass::PasswordStore::new("123").unwrap();

    let pass = Password::new("e".to_string(), "123".to_string());
    assert_eq!(pass.name, "e");
    assert_eq!(pass.password, "123");

    assert!(store.add_password(pass).is_ok());

    let added_password = store.get_password("e").unwrap();
    assert_eq!(added_password.name, "e");
    assert_eq!(added_password.password, "123");

    assert_eq!(store.get_all_passwords().len(), 1);
}

#[test]
fn test_delete_password() {
    let mut store = pass::PasswordStore::new("123").unwrap();
    let pass = Password::new("e".to_string(), "123".to_string());
    assert!(store.add_password(pass).is_ok());
    assert_eq!(store.get_all_passwords().len(), 1);

    store.delete_password("e").unwrap();

    assert_eq!(store.get_all_passwords().len(), 0);
}

#[test]
fn save_then_load_restores_records_in_order() {
    let mut store = PasswordStore::new("pw").unwrap();
    store.add_password(pw("b", "2")).unwrap();
    store.add_password(pw("a", "1")).unwrap();
    store.add_password(pw("quote\"and\\slash", "tab\tnl\nctl\u{1}é€😀")).unwrap();
    let bytes = store.save_store().unwrap();
    let loaded = PasswordStore::load_store("pw".to_string(), &bytes).unwrap();
    let all = loaded.get_all_passwords();
    assert_eq!(all.len(), 3);
    assert_eq!(all[0].name, "b");
    assert_eq!(all[0].password, "2");
    assert_eq!(all[1].name, "a");
    assert_eq!(all[1].password, "1");
    assert_eq!(all[2].name, "quote\"and\\slash");
    assert_eq!(all[2].password, "tab\tnl\nctl\u{1}é€😀");
}

#[test]
fn saved_container_layout() {
    let store = PasswordStore::with_salt("pw", vec![5u8; 32]);
    let iv = vec![6u8; 16];
    let bytes = store.seal(&iv);
    assert_eq!(&bytes[..32], &[5u8; 32][..]);
    assert_eq!(&bytes[32..48], &[6u8; 16][..]);
    assert_eq!((bytes.len() - 48) % 16, 0);
    assert!(bytes.len() > 48);
    let again = store.seal(&iv);
    assert_eq!(bytes, again);
}

#[test]
fn fresh_iv_on_every_save() {
    let store = PasswordStore::new("pw").unwrap();
    let a = store.save_store().unwrap();
    let b = store.save_store().unwrap();
    assert_eq!(&a[..32], &b[..32]);
    assert_ne!(&a[32..48], &b[32..48]);
}

#[test]
fn scenario_correct_and_wrong_passphrase() {
    let mut store = PasswordStore::new("correct-horse").unwrap();
    store.add_password(pw("email", "s3cr3t")).unwrap();
    let b = store.save_store().unwrap();
    let loaded = PasswordStore::load_store("correct-horse".to_string(), &b).unwrap();
    assert_eq!(loaded.get_password("email").unwrap().password, "s3cr3t");
    let wrong = PasswordStore::load_store("wrong-pw".to_string(), &b);
    match wrong {
        Err(e) => assert!(e == PasswordError::DecryptionError || e == PasswordError::InvalidFormat),
        Ok(_) => panic!("a wrong passphrase opened the vault"),
    }
}

#[test]
fn scenario_empty_collection_round_trips() {
    let store = PasswordStore::new("pw").unwrap();
    let b = store.save_store().unwrap();
    let loaded = PasswordStore::load_store("pw".to_string(), &b).unwrap();
    assert!(loaded.get_all_passwords().is_empty());
}

#[test]
fn scenario_delete_then_re_add() {
    let mut store = PasswordStore::new("pw").unwrap();
    store.add_password(pw("a", "1")).unwrap();
    store.delete_password("a").unwrap();
    store.add_password(pw("a", "2")).unwrap();
    assert_eq!(store.get_password("a").unwrap().password, "2");
}

#[test]
fn duplicate_add_conflicts_and_keeps_value() {
    let mut store = PasswordStore::new("pw").unwrap();
    store.add_password(pw("x", "v")).unwrap();
    assert_eq!(store.add_password(pw("x", "v2")), Err(PasswordError::ConflictError));
    assert_eq!(store.get_password("x").unwrap().password, "v");
    assert_eq!(store.get_all_passwords().len(), 1);
}

#[test]
fn empty_name_or_value_is_rejected() {
    let mut store = PasswordStore::new("pw").unwrap();
    assert_eq!(store.add_password(pw("", "v")), Err(PasswordError::EmptyValueError));
    assert_eq!(store.add_password(pw("n", "")), Err(PasswordError::EmptyValueError));
    store.add_password(pw("n", "v")).unwrap();
    assert_eq!(store.change_password("n", String::new()), Err(PasswordError::EmptyValueError));
    assert_eq!(store.get_password("n").unwrap().password, "v");
}

#[test]
fn absent_name_operations_fail_and_change_nothing() {
    let mut store = PasswordStore::new("pw").unwrap();
    store.add_password(pw("a", "1")).unwrap();
    assert_eq!(store.change_password("zz", "2".to_string()), Err(PasswordError::NotFoundError));
    assert_eq!(store.delete_password("zz"), Err(PasswordError::NotFoundError));
    assert!(store.get_password("zz").is_none());
    assert!(!store.has_password("zz"));
    let all = store.get_all_passwords();
    assert_eq!(all.len(), 1);
    assert_eq!(all[0].name, "a");
    assert_eq!(all[0].password, "1");
}

#[test]
fn update_keeps_position() {
    let mut store = PasswordStore::new("pw").unwrap();
    store.add_password(pw("a", "1")).unwrap();
    store.add_password(pw("b", "2")).unwrap();
    store.add_password(pw("c", "3")).unwrap();
    store.change_password("b", "20".to_string()).unwrap();
    let names: Vec<(String, String)> = store
        .get_all_passwords()
        .iter()
        .map(|p| (p.name.clone(), p.password.clone()))
        .collect();
    assert_eq!(
        names,
        vec![
            ("a".to_string(), "1".to_string()),
            ("b".to_string(), "20".to_string()),
            ("c".to_string(), "3".to_string())
        ]
    );
}

#[test]
fn delete_keeps_order_of_others() {
    let mut store = PasswordStore::new("pw").unwrap();
    store.add_password(pw("a", "1")).unwrap();
    store.add_password(pw("b", "2")).unwrap();
    store.add_password(pw("c", "3")).unwrap();
    store.delete_password("b").unwrap();
    let all = store.get_all_passwords();
    assert_eq!(all.len(), 2);
    assert_eq!(all[0].name, "a");
    assert_eq!(all[1].name, "c");
    assert!(store.has_password("c"));
    assert!(!store.has_password("b"));
}

#[test]
fn listing_twice_gives_the_same_records() {
    let mut store = PasswordStore::new("pw").unwrap();
    store.add_password(pw("a", "1")).unwrap();
    store.add_password(pw("b", "2")).unwrap();
    let first: Vec<String> = store.get_all_passwords().iter().map(|p| p.name.clone()).collect();
    let second: Vec<String> = store.get_all_passwords().iter().map(|p| p.name.clone()).collect();
    assert_eq!(first, second);
}

#[test]
fn short_container_is_invalid_format() {
    assert_eq!(
        PasswordStore::load_store("pw".to_string(), &vec![0u8; 47]).err(),
        Some(PasswordError::InvalidFormat)
    );
    assert_eq!(decode_container(&[0u8; 47]), Err(PasswordError::InvalidFormat));
    assert_eq!(decode_container(&[]), Err(PasswordError::InvalidFormat));
}

#[test]
fn container_with_bad_ciphertext_length_fails_to_decrypt() {
    let mut data = vec![0u8; 48];
    data.extend_from_slice(&[1u8; 5]);
    assert_eq!(
        PasswordStore::load_store("pw".to_string(), &data).err(),
        Some(PasswordError::DecryptionError)
    );
}

#[test]
fn decrypted_non_payload_is_invalid_format() {
    let salt = vec![9u8; 32];
    let iv = vec![8u8; 16];
    let key = pv::crypto::generate_encryption_key("pw", &salt);
    let ct = pv::crypto::aes_encrypt(b"{\"entries\": []}", &key, &iv).unwrap();
    let data = encode_container(&salt, &iv, &ct);
    assert_eq!(
        PasswordStore::load_store("pw".to_string(), &data).err(),
        Some(PasswordError::InvalidFormat)
    );
    let ct = pv::crypto::aes_encrypt(&[0xff, 0xfe], &key, &iv).unwrap();
    let data = encode_container(&salt, &iv, &ct);
    assert_eq!(
        PasswordStore::load_store("pw".to_string(), &data).err(),
        Some(PasswordError::InvalidFormat)
    );
}

#[test]
fn header_only_container_round_trips() {
    let (salt, iv, ct) = decode_container(&[3u8; 48]).unwrap();
    assert_eq!(salt, vec![3u8; 32]);
    assert_eq!(iv, vec![3u8; 16]);
    assert!(ct.is_empty());
    assert_eq!(encode_container(&salt, &iv, &ct), vec![3u8; 48]);
}

#[test]
fn error_messages() {
    assert_eq!(PasswordError::NotFoundError.message(), "password not found");
    assert_eq!(PasswordError::DecryptionError.message(), "decryption error");
}

#[test]
fn payload_with_white_space_loads() {
    let salt = vec![9u8; 32];
    let iv = vec![8u8; 16];
    let key = pv::crypto::generate_encryption_key("pw", &salt);
    let text = b"{ \"passwords\": [ { \"password\": \"1\", \"name\": \"a\" } ] }\n";
    let ct = pv::crypto::aes_encrypt(text, &key, &iv).unwrap();
    let data = encode_container(&salt, &iv, &ct);
    let store = PasswordStore::load_store("pw".to_string(), &data).unwrap();
    assert_eq!(store.get_password("a").unwrap().password, "1");
    let again = store.seal(&iv);
    assert_eq!(&again[..32], &salt[..]);
}

#[test]
fn save_length_is_header_plus_padded_payload() {
    let mut store = PasswordStore::new("pw").unwrap();
    store.add_password(pw("a", "1")).unwrap();
    let text_len = "{\"passwords\":[{\"name\":\"a\",\"password\":\"1\"}]}".len();
    let bytes = store.save_store().unwrap();
    assert_eq!(bytes.len(), 48 + (text_len / 16 + 1) * 16);
}
