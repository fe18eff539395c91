use tsvoi::aes::AES;
use tsvoi::errors::ErrorKind;

#[test]
fn round_trip_restores_plaintext() {
    let cipher = AES::new(None).unwrap();
    let msg: Vec<u8> = b"voice over ip".to_vec();
    let envelope = cipher.encrypt(&msg).unwrap();
    let back = cipher.decrypt(&envelope).unwrap();
    assert_eq!(back, msg);
}

#[test]
fn round_trip_empty_plaintext() {
    let cipher = AES::new(None).unwrap();
    let msg: Vec<u8> = Vec::new();
    let envelope = cipher.encrypt(&msg).unwrap();
    assert_eq!(envelope.len(), 28);
    let back = cipher.decrypt(&envelope).unwrap();
    assert_eq!(back, msg);
}

#[test]
fn fresh_nonce_gives_distinct_envelopes() {
    let cipher = AES::new(None).unwrap();
    let msg: Vec<u8> = b"same message".to_vec();
    let a = cipher.encrypt(&msg).unwrap();
    let b = cipher.encrypt(&msg).unwrap();
    assert_ne!(a, b);
}

#[test]
fn envelope_length_is_nonce_plus_tag() {
    let cipher = AES::new(None).unwrap();
    let msg: Vec<u8> = vec![0u8; 160];
    let envelope = cipher.encrypt(&msg).unwrap();
    assert_eq!(envelope.len(), 12 + 160 + 16);
}

#[test]
fn tampering_any_bit_fails_auth() {
    let cipher = AES::new(None).unwrap();
    let msg: Vec<u8> = b"abc".to_vec();
    let envelope = cipher.encrypt(&msg).unwrap();
    for pos in 0..envelope.len() {
        for bit in 0..8 {
            let mut bad = envelope.clone();
            bad[pos] ^= 1u8 << bit;
            match cipher.decrypt(&bad) {
                Err(ErrorKind::DecryptAuth) => {}
                other => panic!("tampered envelope accepted: {:?}", other.is_ok()),
            }
        }
    }
}

#[test]
fn short_envelope_rejected() {
    let cipher = AES::new(None).unwrap();
    let short: Vec<u8> = vec![0u8; 27];
    assert_eq!(cipher.decrypt(&short), Err(ErrorKind::DecryptAuth));
}

#[test]
fn key_text_round_trips_between_participants() {
    let host = AES::new(None).unwrap();
    let key_text = host.get_key();
    assert_eq!(key_text.len(), 43);
    let client = AES::new(Some(&key_text)).unwrap();
    assert_eq!(client.get_key(), key_text);
    let msg: Vec<u8> = b"hello".to_vec();
    let envelope = host.encrypt(&msg).unwrap();
    assert_eq!(client.decrypt(&envelope).unwrap(), msg);
}

#[test]
fn wrong_key_fails_auth() {
    let a = AES::new(None).unwrap();
    let b = AES::new(None).unwrap();
    let msg: Vec<u8> = b"secret".to_vec();
    let envelope = a.encrypt(&msg).unwrap();
    assert_eq!(b.decrypt(&envelope), Err(ErrorKind::DecryptAuth));
}

#[test]
fn bad_key_text_rejected() {
    assert_eq!(AES::new(Some("!!!not base64!!!")).err(), Some(ErrorKind::KeyFormat));
}

#[test]
fn short_key_rejected() {
    // "AAAA" is valid base64 but decodes to 3 bytes, not 32.
    assert_eq!(AES::new(Some("AAAA")).err(), Some(ErrorKind::KeyFormat));
}

#[test]
fn base64_envelope_round_trip() {
    let cipher = AES::new(None).unwrap();
    let msg: Vec<u8> = b"line".to_vec();
    let text = cipher.encrypt_b64(&msg).unwrap();
    assert_eq!(cipher.decrypt_b64(text).unwrap(), msg);
}

#[test]
fn decrypt_b64_rejects_bad_text() {
    let cipher = AES::new(None).unwrap();
    assert_eq!(cipher.decrypt_b64("== not base64 ==".to_string()), Err(ErrorKind::Protocol));
}

#[test]
fn decrypt_vec_matches_decrypt() {
    let cipher = AES::new(None).unwrap();
    let msg: Vec<u8> = b"owned".to_vec();
    let envelope = cipher.encrypt(&msg).unwrap();
    assert_eq!(cipher.decrypt_vec(envelope).unwrap(), msg);
}
