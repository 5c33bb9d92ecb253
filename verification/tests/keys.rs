use chacha20poly1305::aead::{Aead, KeyInit};
use vico_vee::keys::{encryption_key, seal_seed, seed_from_hex, seed_from_payload, seed_to_hex};

#[test]
fn seed_hex_round_trip_and_errors() {
    let seed = [7u8; 32];
    let text = seed_to_hex(&seed);
    assert_eq!(text, "07".repeat(32));
    assert_eq!(seed_from_hex(&text), Ok(seed));
    assert_eq!(seed_from_hex("0011"), Err("keyring seed length invalid".to_string()));
    assert!(seed_from_hex("zz").unwrap_err().starts_with("decode keyring seed: "));
}

#[test]
fn encryption_key_hashes_dir_and_pepper() {
    let key = encryption_key("/keys", "salt");
    assert_eq!(key, *blake3::hash(b"/keys:salt").as_bytes());
    assert_ne!(key, encryption_key("/keys", "other"));
}

#[test]
fn sealed_seed_opens_with_the_same_key_only() {
    let key = encryption_key("/k", "");
    let nonce = [3u8; 12];
    let seed = [9u8; 32];
    let payload = seal_seed(&key, &nonce, &seed).unwrap();
    assert_eq!(&payload[..12], &nonce);
    assert_eq!(payload.len(), 12 + 32 + 16);
    assert_eq!(seed_from_payload(&key, &payload), Ok(seed));
    let other = encryption_key("/other", "");
    assert_eq!(seed_from_payload(&other, &payload), Err("decrypt seed: aead::Error".to_string()));
}

#[test]
fn seed_payload_errors() {
    let key = [1u8; 32];
    assert_eq!(seed_from_payload(&key, &[0u8; 27]), Err("encrypted seed file is too short".to_string()));
    let cipher = chacha20poly1305::ChaCha20Poly1305::new(&chacha20poly1305::Key::from(key));
    let nonce = [5u8; 12];
    let sealed = cipher.encrypt(chacha20poly1305::Nonce::from_slice(&nonce), &[1u8; 16][..]).unwrap();
    let mut payload = nonce.to_vec();
    payload.extend_from_slice(&sealed);
    assert_eq!(seed_from_payload(&key, &payload), Err("decrypted seed length invalid".to_string()));
}
