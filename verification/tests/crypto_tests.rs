use qtun::crypto::{generate_nonce, Aes128GcmCipher, Aes256GcmCipher, CryptoError};
use qtun::hash::{md5, sha1, sha256, to_b64, to_hex};

#[test]
fn test_connection() -> () {
    println!("connection")
}

#[test]
fn test_md5() {
    let result = md5(b"hello");
    assert_eq!(result.len(), 16);
}

#[test]
fn test_sha256() {
    let result = sha256(b"hello");
    assert_eq!(result.len(), 32);
}

#[test]
fn test_sha1_len() {
    let result = sha1(b"hello");
    assert_eq!(result.len(), 20);
}

#[test]
fn test_md5_known_value() {
    // the reference digest of "hello", rendered through the hex wrapper
    let result = to_hex(&md5(b"hello"));
    assert_eq!(result, "5d41402abc4b2a76b9719d911017c592");
}

#[test]
fn test_sha1_known_value() {
    let result = to_hex(&sha1(b"hello"));
    assert_eq!(result, "aaf4c61ddcc5e8a2dabede0f3b482cd9aea9434d");
}

#[test]
fn test_sha256_known_value() {
    let result = to_hex(&sha256(b"hello"));
    assert_eq!(
        result,
        "2cf24dba5fb0a30e26e83b2ac5b9e29e1b161e5c1fa7425e73043362938b9824"
    );
}

#[test]
fn test_to_hex_simple() {
    assert_eq!(to_hex(&[0x00, 0x0f, 0xa5, 0xff]), "000fa5ff");
}

#[test]
fn test_to_b64_no_padding() {
    assert_eq!(to_b64(b"hi"), "aGk");
    assert_eq!(to_b64(b"hello"), "aGVsbG8");
    assert_eq!(to_b64(b""), "");
}

#[test]
fn test_aes128_encrypt_decrypt() {
    let cipher = Aes128GcmCipher::new("test-key").unwrap();
    let nonce = generate_nonce();
    let plaintext = b"Hello, World!";

    let ciphertext = cipher.encrypt(&nonce, plaintext).unwrap();
    let decrypted = cipher.decrypt(&nonce, &ciphertext).unwrap();

    assert_eq!(plaintext.to_vec(), decrypted);
}

#[test]
fn test_aes256_encrypt_decrypt() {
    let cipher = Aes256GcmCipher::new("test-key").unwrap();
    let nonce = generate_nonce();
    let plaintext = b"Hello, World!";

    let ciphertext = cipher.encrypt(&nonce, plaintext).unwrap();
    let decrypted = cipher.decrypt(&nonce, &ciphertext).unwrap();

    assert_eq!(plaintext.to_vec(), decrypted);
}

#[test]
fn test_aes128_wrong_key_fails() {
    let cipher_a = Aes128GcmCipher::new("A").unwrap();
    let cipher_b = Aes128GcmCipher::new("B").unwrap();
    let nonce = generate_nonce();
    let ciphertext = cipher_a.encrypt(&nonce, b"payload").unwrap();
    let r = cipher_b.decrypt(&nonce, &ciphertext);
    assert_eq!(r.unwrap_err(), CryptoError::CipherNotMatch);
}

#[test]
fn test_aes128_ciphertext_adds_tag() {
    let cipher = Aes128GcmCipher::new("k").unwrap();
    let nonce = generate_nonce();
    let ciphertext = cipher.encrypt(&nonce, b"12345").unwrap();
    assert_eq!(ciphertext.len(), 5 + 16);
}
