use cinderella::crypto::{
    decrypt_file, encrypt_string, gen_salted_key, gen_salted_key_random_salt, open_envelope,
    salted_key, seal_envelope, CryptoError, SecretsEnvelope, KEY_BYTES, NONCE_BYTES, SALT_BYTES,
};
use sodiumoxide::crypto::{pwhash, secretbox};

#[test]
fn test_encrypt_then_decrypt() {
    let plaintext = "my-secret-string";

    let ciphertext = encrypt_string(plaintext, "my-pass").unwrap();

    let decrypted = decrypt_file(&ciphertext, "my-pass").unwrap();

    assert_eq!(plaintext, decrypted);
}

#[test]
fn round_trip_of_texts_and_passwords() {
    let cases = [
        ("", "pw"),
        ("a", ""),
        ("USERNAME = \"my-user\"\nPASSWORD = \"my-pass\"", "pw"),
        ("grüße 日本語", "pässword with spaces"),
    ];
    for (plaintext, password) in cases {
        let blob = encrypt_string(plaintext, password).unwrap();
        assert_eq!(decrypt_file(&blob, password), Ok(plaintext.to_string()));
    }
}

#[test]
fn wrong_password_is_an_authentication_failure() {
    let blob = encrypt_string("my-secret-string", "my-pass").unwrap();
    assert_eq!(decrypt_file(&blob, "other-pass"), Err(CryptoError::Authentication));
    assert_eq!(decrypt_file(&blob, ""), Err(CryptoError::Authentication));
}

#[test]
fn changed_ciphertext_is_an_authentication_failure() {
    let mut blob = encrypt_string("my-secret-string", "my-pass").unwrap();
    let last = blob.len() - 1;
    blob[last] ^= 1;
    assert_eq!(decrypt_file(&blob, "my-pass"), Err(CryptoError::Authentication));
}

#[test]
fn bytes_that_are_no_envelope_are_malformed() {
    assert_eq!(decrypt_file(&[], "my-pass"), Err(CryptoError::Malformed));
    assert_eq!(decrypt_file(b"plain text", "my-pass"), Err(CryptoError::Malformed));
    let blob = encrypt_string("my-secret-string", "my-pass").unwrap();
    assert_eq!(decrypt_file(&blob[..10], "my-pass"), Err(CryptoError::Malformed));
}

#[test]
fn envelope_is_an_array_of_salt_nonce_and_content() {
    let blob = encrypt_string("abc", "my-pass").unwrap();
    // an array of three, then the salt and the nonce as binary data
    assert_eq!(blob[0], 0x93);
    assert_eq!(&blob[1..3], &[0xc4, SALT_BYTES as u8]);
    assert_eq!(&blob[3 + SALT_BYTES..5 + SALT_BYTES], &[0xc4, NONCE_BYTES as u8]);
    // the content: a tag of sixteen bytes and three bytes of ciphertext
    assert_eq!(blob[5 + SALT_BYTES + NONCE_BYTES], 0xdc);
    assert_eq!(&blob[6 + SALT_BYTES + NONCE_BYTES..8 + SALT_BYTES + NONCE_BYTES], &[0, 19]);
}

#[test]
fn each_encryption_has_its_own_salt_and_nonce() {
    let one = encrypt_string("my-secret-string", "my-pass").unwrap();
    let two = encrypt_string("my-secret-string", "my-pass").unwrap();
    assert_ne!(one, two);
    assert_ne!(&one[3..3 + SALT_BYTES], &two[3..3 + SALT_BYTES]);
}

#[test]
fn key_depends_on_password_and_salt_alone() {
    let salt = vec![7u8; SALT_BYTES];
    let one = gen_salted_key("my-pass", salt.clone()).unwrap();
    let two = gen_salted_key("my-pass", salt.clone()).unwrap();
    let other_password = gen_salted_key("other", salt.clone()).unwrap();
    let other_salt = gen_salted_key("my-pass", vec![8u8; SALT_BYTES]).unwrap();
    assert_eq!(one.pwsalt, salt);
    assert_eq!(one.key.len(), KEY_BYTES);
    assert_eq!(one.key, two.key);
    assert_ne!(one.key, other_password.key);
    assert_ne!(one.key, other_salt.key);
    assert_ne!(one.key, salt);
}

#[test]
fn random_salt_has_its_length() {
    let one = gen_salted_key_random_salt("my-pass").unwrap();
    let two = gen_salted_key_random_salt("my-pass").unwrap();
    assert_eq!(one.pwsalt.len(), SALT_BYTES);
    assert_eq!(one.key.len(), KEY_BYTES);
    assert_ne!(one.pwsalt, two.pwsalt);
}

#[test]
fn envelope_is_sealed_and_opened_under_the_key() {
    let salt = vec![1u8; SALT_BYTES];
    let nonce = vec![2u8; NONCE_BYTES];
    let salted = gen_salted_key("my-pass", salt.clone()).unwrap();
    let envelope = seal_envelope("secret text", salted, nonce.clone());
    assert_eq!(envelope.salt, salt);
    assert_eq!(envelope.nonce, nonce);
    assert_eq!(envelope.ciphertext.len(), "secret text".len() + 16);
    assert!(!envelope.ciphertext.ends_with(b"secret text"));

    let again = seal_envelope("secret text", gen_salted_key("my-pass", salt.clone()).unwrap(),
        nonce.clone());
    assert_eq!(envelope.ciphertext, again.ciphertext);

    let salted = gen_salted_key("my-pass", salt.clone()).unwrap();
    assert_eq!(open_envelope(&envelope, &salted), Ok("secret text".to_string()));
    let wrong = gen_salted_key("wrong", salt).unwrap();
    assert_eq!(open_envelope(&envelope, &wrong), Err(CryptoError::Authentication));
}

#[test]
fn content_that_is_no_text_is_refused() {
    let salt = vec![1u8; SALT_BYTES];
    let nonce = vec![2u8; NONCE_BYTES];
    let salted = gen_salted_key("my-pass", salt.clone()).unwrap();
    let ciphertext = secretbox::seal(
        &[0xff, 0xfe],
        &secretbox::Nonce::from_slice(&nonce).unwrap(),
        &secretbox::Key::from_slice(&salted.key).unwrap(),
    );
    let envelope = SecretsEnvelope { salt: salt.clone(), nonce: nonce.clone(), ciphertext };
    assert_eq!(open_envelope(&envelope, &salted), Err(CryptoError::NotText));

    let blob = rmp_serde::to_vec(&(
        pwhash::Salt::from_slice(&salt).unwrap(),
        secretbox::Nonce::from_slice(&nonce).unwrap(),
        &envelope.ciphertext,
    ))
    .unwrap();
    assert_eq!(decrypt_file(&blob, "my-pass"), Err(CryptoError::NotText));
}

#[test]
fn envelope_of_a_struct_of_three_is_read() {
    // the bytes that a struct of salt, nonce and content is packed to
    let salt = vec![3u8; SALT_BYTES];
    let nonce = vec![4u8; NONCE_BYTES];
    let salted = gen_salted_key("my-pass", salt.clone()).unwrap();
    let envelope = seal_envelope("KEY = \"value\"", salted, nonce.clone());
    let mut blob = vec![0x93, 0xc4, SALT_BYTES as u8];
    blob.extend(&salt);
    blob.extend(&[0xc4, NONCE_BYTES as u8]);
    blob.extend(&nonce);
    blob.extend(&[0xdc, 0, envelope.ciphertext.len() as u8]);
    for byte in &envelope.ciphertext {
        if *byte >= 0x80 {
            blob.push(0xcc);
        }
        blob.push(*byte);
    }
    assert_eq!(decrypt_file(&blob, "my-pass"), Ok("KEY = \"value\"".to_string()));
}

#[test]
fn test_encrypt_decrypt() {
    let secrets = "MY_SECRET = \"secret\"\n";

    let encrypted = encrypt_string(secrets, "my-pass").expect("Encryption failed");

    let res = decrypt_file(&encrypted, "my-pass").expect("Decryption failed");

    assert_eq!("MY_SECRET = \"secret\"", res.trim());
}

#[test]
fn salted_key_holds_the_salt_and_what_was_derived() {
    let salted = salted_key(vec![5u8; SALT_BYTES], Some(vec![6u8; KEY_BYTES])).unwrap();
    assert_eq!(salted.pwsalt, vec![5u8; SALT_BYTES]);
    assert_eq!(salted.key, vec![6u8; KEY_BYTES]);
    assert!(salted_key(vec![5u8; SALT_BYTES], None).is_none());
}
