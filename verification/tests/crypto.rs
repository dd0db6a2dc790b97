use node_access_common::crypto::{make_nonce, CryptoError, FrameCrypto};

fn hex(bytes: &[u8]) -> String {
    bytes.iter().map(|b| format!("{:02x}", b)).collect()
}

#[test]
fn nonces_hold_direction_and_counter() {
    assert_eq!(make_nonce(0, 0), [0; 12]);
    assert_eq!(make_nonce(1, 0x0102030405060708), [1, 0, 0, 0, 1, 2, 3, 4, 5, 6, 7, 8]);
    assert_ne!(make_nonce(0, 1), make_nonce(1, 1));
    assert_ne!(make_nonce(0, 1), make_nonce(0, 2));
}

#[test]
fn sealed_frames_are_what_the_cipher_says() {
    let mut access = FrameCrypto::from_secret("shared-encryption-key", 0, 1);
    let (counter, ciphertext) = access.seal(b"hello").unwrap();
    assert_eq!(counter, 0);
    assert_eq!(hex(&ciphertext), "b5596468661ab25bb4b5114e627467ab52f63befd1");
    let (counter, ciphertext) = access.seal(b"hello").unwrap();
    assert_eq!(counter, 1);
    assert_eq!(hex(&ciphertext), "46d7c24f9134d5c7daf9f9a08d5cf12b5bcfb3b040");
    let mut serving = FrameCrypto::from_secret("shared-encryption-key", 1, 0);
    let (counter, ciphertext) = serving.seal(b"hello").unwrap();
    assert_eq!(counter, 0);
    assert_eq!(hex(&ciphertext), "da95117b5fc58ed7918f20beb56fcfaa3d908cad29");
}

#[test]
fn the_other_side_opens_what_one_side_seals() {
    let mut access = FrameCrypto::from_secret("secret", 0, 1);
    let mut serving = FrameCrypto::from_secret("secret", 1, 0);
    for frame in [&b""[..], &b"a"[..], &[7u8; 1000][..]] {
        let (counter, ciphertext) = access.seal(frame).unwrap();
        assert_eq!(ciphertext.len(), frame.len() + 16);
        assert_eq!(serving.open(counter, &ciphertext).unwrap(), frame);
        let (counter, ciphertext) = serving.seal(frame).unwrap();
        assert_eq!(access.open(counter, &ciphertext).unwrap(), frame);
    }
}

#[test]
fn frames_open_in_any_order() {
    let mut access = FrameCrypto::from_secret("secret", 0, 1);
    let serving = FrameCrypto::from_secret("secret", 1, 0);
    let first = access.seal(b"first").unwrap();
    let second = access.seal(b"second").unwrap();
    assert_eq!(serving.open(second.0, &second.1).unwrap(), b"second");
    assert_eq!(serving.open(first.0, &first.1).unwrap(), b"first");
}

#[test]
fn what_does_not_fit_does_not_open() {
    let mut access = FrameCrypto::from_secret("secret", 0, 1);
    let serving = FrameCrypto::from_secret("secret", 1, 0);
    let stranger = FrameCrypto::from_secret("another", 1, 0);
    let (counter, mut ciphertext) = access.seal(b"hello").unwrap();
    assert_eq!(stranger.open(counter, &ciphertext).unwrap_err(), CryptoError::Decrypt);
    assert_eq!(access.open(counter, &ciphertext).unwrap_err(), CryptoError::Decrypt);
    assert_eq!(serving.open(counter + 1, &ciphertext).unwrap_err(), CryptoError::Decrypt);
    assert_eq!(serving.open(counter, &ciphertext[..15]).unwrap_err(), CryptoError::Decrypt);
    ciphertext[0] ^= 1;
    assert_eq!(serving.open(counter, &ciphertext).unwrap_err(), CryptoError::Decrypt);
}

#[test]
fn errors_of_the_encryption_in_words() {
    assert_eq!(CryptoError::Encrypt.message(), "failed to encrypt relay frame");
    assert_eq!(CryptoError::Decrypt.message(), "check that both sides use the same --secret");
}

#[test]
fn causes_of_the_errors_of_the_encryption() {
    assert_eq!(CryptoError::Encrypt.cause(), None);
    assert_eq!(CryptoError::Decrypt.cause().as_deref(), Some("failed to decrypt relay frame"));
}
