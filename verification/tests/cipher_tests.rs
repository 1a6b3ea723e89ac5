use secrets_cli::crypto::Encryption;
use secrets_cli::error::CliError;

#[test]
fn encrypt_then_decrypt_gives_the_text_back() {
    let cipher = Encryption::new("testpassword".to_string());
    for text in ["test secret content", "x", "KEY=value\nOTHER=1\n", "ünï=cödé ✓", "#do-not-edit--secrets-version 3\nK=v"] {
        let sealed = cipher.encrypt(text.to_string()).unwrap();
        assert!(!sealed.is_empty());
        assert_ne!(sealed, text);
        assert_eq!(cipher.decrypt(sealed).unwrap(), text);
    }
}

#[test]
fn the_empty_text_stays_empty_both_ways() {
    for password in ["", "secret", "another password"] {
        let cipher = Encryption::new(password.to_string());
        assert_eq!(cipher.encrypt(String::new()).unwrap(), "");
        assert_eq!(cipher.decrypt(String::new()).unwrap(), "");
    }
}

#[test]
fn encrypt_gives_the_known_ciphertext() {
    let cipher = Encryption::new("magickey".to_string());
    let sealed = cipher.encrypt("http://magiclen.org".to_string()).unwrap();
    assert_eq!(sealed, "DS/2U8royDnJDiNY2ps3f6ZoTbpZo8ZtUGYLGEjwLDQ=");
    assert_eq!(cipher.decrypt(sealed).unwrap(), "http://magiclen.org");
}

#[test]
fn decrypt_reads_the_known_ciphertext() {
    let cipher = Encryption::new("magickey".to_string());
    let opened = cipher.decrypt("DS/2U8royDnJDiNY2ps3f6ZoTbpZo8ZtUGYLGEjwLDQ=".to_string()).unwrap();
    assert_eq!(opened, "http://magiclen.org");
}

#[test]
fn encrypt_is_the_same_each_time_and_depends_on_the_password() {
    let one = Encryption::new("one".to_string());
    let two = Encryption::new("two".to_string());
    let a = one.encrypt("text".to_string()).unwrap();
    let b = one.encrypt("text".to_string()).unwrap();
    let c = two.encrypt("text".to_string()).unwrap();
    assert_eq!(a, b);
    assert_ne!(a, c);
}

#[test]
fn decrypt_rejects_what_is_no_ciphertext() {
    let cipher = Encryption::new("secret".to_string());
    for text in ["not base64 at all!", "QUJD", "====", "DS/2U8royDnJDiNY2ps3f6ZoTbpZo8ZtUGYLGEjwLDQ"] {
        match cipher.decrypt(text.to_string()) {
            Err(CliError::DecryptionError(_)) => {}
            other => panic!("expected DecryptionError for {:?}, got {:?}", text, other),
        }
    }
}

#[test]
fn decrypt_under_another_password_does_not_give_the_text() {
    let sealed = Encryption::new("right".to_string()).encrypt("the text".to_string()).unwrap();
    match Encryption::new("wrong".to_string()).decrypt(sealed) {
        Err(CliError::DecryptionError(_)) => {}
        Ok(text) => assert_ne!(text, "the text"),
        Err(other) => panic!("expected DecryptionError, got {:?}", other),
    }
}

#[test]
fn check_encrypted_refuses_the_empty_text() {
    assert_eq!(Encryption::check_encrypted("abc".to_string()).unwrap(), "abc");
    match Encryption::check_encrypted(String::new()) {
        Err(CliError::EncryptionError(message)) => assert_eq!(message, "Encrypted content is empty"),
        other => panic!("expected EncryptionError, got {:?}", other),
    }
}

#[test]
fn check_decrypted_refuses_the_empty_text() {
    assert_eq!(Encryption::check_decrypted("abc".to_string()).unwrap(), "abc");
    match Encryption::check_decrypted(String::new()) {
        Err(CliError::DecryptionError(message)) => assert_eq!(message, "Decrypted content is empty"),
        other => panic!("expected DecryptionError, got {:?}", other),
    }
}

#[test]
fn test_encode_decode() {
    let test_content = "test secret content";
    let cipher = Encryption::new("testpassword".to_string());

    let encoded_text = cipher.encrypt(test_content.to_string()).unwrap();
    assert!(!encoded_text.is_empty(), "Encoded text should not be empty");

    let decoded_content = Encryption::new("testpassword".to_string())
        .decrypt(encoded_text.trim().to_string())
        .unwrap();
    assert_eq!(
        decoded_content, test_content,
        "Decoded content doesn't match original"
    );
}
