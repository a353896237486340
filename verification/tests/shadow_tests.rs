use aes_gcm::aead::{Aead, KeyInit};
use hex::encode as hex_encode;
use sentinel_kit::shadow::aes_engine::{decrypt, encrypt, flip_one_bit, CryptoError};
use sentinel_kit::shadow::cli::{
    decrypt_command, demo_row_command, encrypt_command, flipbit_command, must_arg, parse_command,
    Command,
};
use sentinel_kit::shadow::user_repo::{
    from_encrypted_row, load_key_from, parse_key_bytes, to_encrypted_row, KeyLoadError, User,
};

const ZERO_KEY: [u8; 32] = [0u8; 32];

#[test]
fn test_visibility_ciphertext_is_illegible_like_bytea_dump() {
    let plaintext = "alice@example.com";
    let blob = encrypt(plaintext, &ZERO_KEY).unwrap();
    let blob_hex = hex_encode(&blob);
    assert!(
        !blob_hex.contains("alice") && !blob_hex.contains("example"),
        "ciphertext must not expose the plaintext"
    );
    let plain_hex = hex_encode(plaintext.as_bytes());
    assert!(!blob_hex.contains(&plain_hex), "ciphertext must not contain the plaintext bytes");
}

#[test]
fn test_unit_uniqueness_same_plaintext_two_encryptions_are_different_due_to_nonce() {
    let a = encrypt("same-text", &ZERO_KEY).unwrap();
    let b = encrypt("same-text", &ZERO_KEY).unwrap();
    assert_ne!(a, b);
}

#[test]
fn test_integrity_bitflip_must_fail_authentication() {
    let blob = encrypt("secret", &ZERO_KEY).unwrap();
    let tampered = flip_one_bit(blob);
    assert_eq!(decrypt(&tampered, &ZERO_KEY), Err(CryptoError::AuthFailed));
}

#[test]
fn encrypt_then_decrypt_round_trips() {
    let key = [7u8; 32];
    let blob = encrypt("héllo wörld", &key).unwrap();
    assert_eq!(blob.len(), 12 + "héllo wörld".len() + 16);
    assert_eq!(decrypt(&blob, &key).unwrap(), "héllo wörld");
    assert_eq!(decrypt(&blob, &ZERO_KEY), Err(CryptoError::AuthFailed));
}

#[test]
fn key_and_blob_lengths_are_checked() {
    assert_eq!(encrypt("x", &[0u8; 31]), Err(CryptoError::InvalidKeyLen { got: 31 }));
    assert_eq!(decrypt(&[0u8; 40], &[0u8; 33]), Err(CryptoError::InvalidKeyLen { got: 33 }));
    assert_eq!(decrypt(&[0u8; 27], &ZERO_KEY), Err(CryptoError::InvalidBlob { len: 27 }));
}

#[test]
fn non_utf8_plaintext_is_reported() {
    let cipher = aes_gcm::Aes256Gcm::new_from_slice(&ZERO_KEY).unwrap();
    let nonce = [1u8; 12];
    let ct = cipher.encrypt(aes_gcm::Nonce::from_slice(&nonce), &[0xffu8, 0xfe][..]).unwrap();
    let mut blob = nonce.to_vec();
    blob.extend_from_slice(&ct);
    assert_eq!(decrypt(&blob, &ZERO_KEY), Err(CryptoError::Utf8));
}

#[test]
fn flip_one_bit_changes_only_the_first_ciphertext_byte() {
    let blob: Vec<u8> = (0u8..20).collect();
    let flipped = flip_one_bit(blob.clone());
    assert_eq!(flipped[12], 13);
    assert_eq!(&flipped[..12], &blob[..12]);
    assert_eq!(&flipped[13..], &blob[13..]);
    let short: Vec<u8> = vec![1, 2, 3];
    assert_eq!(flip_one_bit(short.clone()), short);
}

#[test]
fn raw_keys_tolerate_whitespace() {
    let raw = [5u8; 32];
    assert_eq!(parse_key_bytes(&raw).unwrap(), raw);
    let mut padded = b"\n ".to_vec();
    padded.extend_from_slice(&[65u8; 32]);
    padded.extend_from_slice(b"\r\n\t");
    assert_eq!(parse_key_bytes(&padded).unwrap(), [65u8; 32]);
    match parse_key_bytes(&[1u8; 5]) {
        Err(KeyLoadError::InvalidFormat(m)) => {
            assert_eq!(m, "expected 32 raw bytes (or 32 trimmed), got 5 bytes")
        }
        other => panic!("unexpected {other:?}"),
    }
}

#[test]
fn key_sources_are_taken_in_order() {
    let b64 = "AAAAAAAAAAAAAAAAAAAAAAAAAAAAAAAAAAAAAAAAAAA=";
    let hex = "0101010101010101010101010101010101010101010101010101010101010101";
    assert_eq!(load_key_from(None, Some(b64), Some(hex)).unwrap(), [0u8; 32]);
    assert_eq!(load_key_from(None, None, Some(hex)).unwrap(), [1u8; 32]);
    assert_eq!(load_key_from(Some(Ok(vec![9u8; 32])), Some(b64), None).unwrap(), [9u8; 32]);
    assert!(matches!(load_key_from(None, None, None), Err(KeyLoadError::MissingEnv)));
    assert!(matches!(
        load_key_from(Some(Err("denied".to_string())), None, None),
        Err(KeyLoadError::Io(m)) if m == "denied"
    ));
    assert!(matches!(
        load_key_from(None, Some("!!!"), None),
        Err(KeyLoadError::InvalidFormat(m)) if m.starts_with("base64 decode: ")
    ));
    assert!(matches!(
        load_key_from(None, None, Some("zz")),
        Err(KeyLoadError::InvalidFormat(m)) if m.starts_with("hex decode: ")
    ));
    assert!(matches!(load_key_from(None, Some(" AAAA \n"), None), Err(KeyLoadError::InvalidFormat(_))));
}

#[test]
fn rows_round_trip_and_hide_sensitive_fields() {
    let key = [3u8; 32];
    let u = User {
        id: 1,
        username: "demo".to_string(),
        email: "a@b.c".to_string(),
        national_id: "12345".to_string(),
    };
    let row = to_encrypted_row(&u, Some(&key)).unwrap();
    assert_eq!(row.id, 1);
    assert_eq!(row.username, "demo");
    assert_ne!(row.email_blob, u.email.as_bytes());
    let back = from_encrypted_row(&row, Some(&key)).unwrap();
    assert_eq!(back.email, "a@b.c");
    assert_eq!(back.national_id, "12345");
    assert_eq!(back.username, "demo");
    assert_eq!(to_encrypted_row(&u, None).unwrap_err(), CryptoError::InvalidKeyLen { got: 0 });
    assert_eq!(from_encrypted_row(&row, None).unwrap_err(), CryptoError::InvalidKeyLen { got: 0 });
    assert_eq!(from_encrypted_row(&row, Some(&[4u8; 32])).unwrap_err(), CryptoError::AuthFailed);
}

#[test]
fn command_line_is_read() {
    let args = |v: &[&str]| v.iter().map(|s| s.to_string()).collect::<Vec<String>>();
    assert_eq!(must_arg(&args(&["p", "x"]), 1).unwrap(), "x");
    assert_eq!(must_arg(&args(&["p"]), 3).unwrap_err(), "missing argument at position 3");
    assert_eq!(parse_command(&args(&["p"])).unwrap(), Command::Help);
    assert_eq!(parse_command(&args(&["p", "what"])).unwrap(), Command::Help);
    assert_eq!(
        parse_command(&args(&["p", "encrypt", "t"])).unwrap(),
        Command::Encrypt { plaintext: "t".to_string() }
    );
    assert_eq!(
        parse_command(&args(&["p", "demo-row", "e"])).unwrap_err(),
        "missing argument at position 3"
    );
    assert_eq!(parse_command(&args(&["p", "print-schema"])).unwrap(), Command::PrintSchema);
}

#[test]
fn errors_describe_themselves() {
    let blob = encrypt("secret", &ZERO_KEY).unwrap();
    let err = decrypt(&flip_one_bit(blob), &ZERO_KEY).unwrap_err();
    assert!(err.message().to_lowercase().contains("authentication failed"));
    assert_eq!(
        CryptoError::InvalidKeyLen { got: 5 }.message(),
        "invalid key length: expected 32, got 5"
    );
    assert_eq!(
        CryptoError::InvalidBlob { len: 27 }.message(),
        "invalid blob: len=27 (need >= 12 + 16)"
    );
    assert_eq!(CryptoError::Utf8.message(), "utf8 decode error");
    assert_eq!(
        KeyLoadError::MissingEnv.message(),
        "missing SHADOW_KEY_FILE/SHADOW_KEY_B64/SHADOW_KEY_HEX"
    );
    assert_eq!(KeyLoadError::Io("denied".to_string()).message(), "key read io error: denied");
    assert_eq!(
        KeyLoadError::InvalidFormat("x".to_string()).message(),
        "invalid key format: x"
    );
}

#[test]
fn commands_round_trip_through_hex() {
    let key = Ok(ZERO_KEY);
    let line = encrypt_command("hola", &key).unwrap();
    assert_eq!(line.len(), 2 * (12 + 4 + 16));
    assert_eq!(decrypt_command(&format!("  {line}\n"), &key).unwrap(), "hola");
    let flipped = flipbit_command(&line).unwrap();
    assert_ne!(flipped, line);
    assert_eq!(
        decrypt_command(&flipped, &key).unwrap_err(),
        "authentication failed (tampered / tag mismatch)"
    );
    assert!(decrypt_command("abc", &key).is_err());
    assert!(flipbit_command("zz").is_err());
    assert_eq!(flipbit_command("0102").unwrap(), "0102");
    let missing: Result<[u8; 32], KeyLoadError> = Err(KeyLoadError::MissingEnv);
    assert_eq!(
        encrypt_command("x", &missing).unwrap_err(),
        "missing SHADOW_KEY_FILE/SHADOW_KEY_B64/SHADOW_KEY_HEX"
    );
    assert_eq!(
        decrypt_command(&line, &missing).unwrap_err(),
        "missing SHADOW_KEY_FILE/SHADOW_KEY_B64/SHADOW_KEY_HEX"
    );
    assert_eq!(decrypt_command("00", &key).unwrap_err(), "invalid blob: len=1 (need >= 12 + 16)");
}

#[test]
fn demo_row_prints_blobs_and_round_trip() {
    let lines = demo_row_command("a@b.c", "123", Some(&ZERO_KEY)).unwrap();
    assert_eq!(lines.len(), 5);
    assert_eq!(lines[0], "username=demo");
    assert!(lines[1].starts_with("email_enc_hex="));
    assert_eq!(lines[1].len(), "email_enc_hex=".len() + 2 * (12 + 5 + 16));
    assert!(lines[2].starts_with("national_id_enc_hex="));
    assert_eq!(lines[3], "roundtrip_email=a@b.c");
    assert_eq!(lines[4], "roundtrip_national_id=123");
    assert_eq!(
        demo_row_command("a", "b", None).unwrap_err(),
        "invalid key length: expected 32, got 0"
    );
}

#[test]
fn flipping_twice_restores_the_blob() {
    let blob = encrypt("twice", &ZERO_KEY).unwrap();
    let once = flip_one_bit(blob.clone());
    assert_eq!(&once[..12], &blob[..12]);
    assert_eq!(flip_one_bit(once), blob);
    assert_eq!(decrypt(&flip_one_bit(flip_one_bit(blob)), &ZERO_KEY).unwrap(), "twice");
}
