use windmill_variables::cipher::{decrypt, derive_cipher, encrypt, Cipher};
use windmill_variables::error::ErrorKind;

fn cipher(key: &str) -> Cipher {
    derive_cipher(key, &None)
}

#[test]
fn round_trip_returns_plaintext() {
    let mc = cipher("workspace-key");
    for p in ["x", "hello world", "ünïcödé ✓", "a much longer secret value spanning blocks 0123456789"] {
        let c = encrypt(&mc, p);
        assert_ne!(c, p);
        assert!(!c.is_empty());
        assert_eq!(decrypt(&mc, &c).unwrap(), p);
    }
}

#[test]
fn encryption_is_deterministic_per_key() {
    let mc = cipher("k");
    assert_eq!(encrypt(&mc, "v"), encrypt(&mc, "v"));
    assert_ne!(encrypt(&mc, "v"), encrypt(&cipher("k2"), "v"));
}

#[test]
fn wrong_key_fails_decryption() {
    let c = encrypt(&cipher("k1"), "secret value");
    let r = decrypt(&cipher("k2"), &c);
    assert_eq!(r.unwrap_err().kind(), ErrorKind::DecryptionError);
}

#[test]
fn invalid_base64_fails_decryption() {
    let r = decrypt(&cipher("k"), "not base64 !!!");
    assert_eq!(r.unwrap_err().kind(), ErrorKind::DecryptionError);
}

#[test]
fn salt_is_appended_to_key_material() {
    let salted = derive_cipher("key", &Some("salt".to_string()));
    assert_eq!(salted.key, "keysalt");
    assert_eq!(derive_cipher("key", &None).key, "key");
    let c = encrypt(&salted, "v");
    assert_eq!(decrypt(&cipher("keysalt"), &c).unwrap(), "v");
    assert!(decrypt(&cipher("key"), &c).is_err());
}

#[test]
fn ciphertext_is_padded_standard_base64() {
    let mc = cipher("k");
    for p in ["", "x", "exactly sixteen!", "ünïcödé"] {
        let c = encrypt(&mc, p);
        assert_eq!(c.len() % 4, 0);
        let body = c.trim_end_matches('=');
        assert!(c.len() - body.len() <= 2);
        assert!(body.chars().all(|ch| ch.is_ascii_alphanumeric() || ch == '+' || ch == '/'));
    }
}
