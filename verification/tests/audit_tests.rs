use sentinel_kit::audit::chain::{
    audit_data_bytes, compute_current_hash_hex, genesis_prev_hash, micros_precision,
};
use sentinel_kit::audit::signer::{SignerError, SignerWrap};
use sentinel_kit::audit::verify::{
    entry_hash_of, event_type_accepted, next_prev_hash, sign_entry, verify_chain,
    verify_response, AuditLog, VerifyResp,
};

const SEED_HEX: &str = "9d61b19deffd5a60ba844af492ec2cc44449c5697b326919703bac031cae7f60";
const TS: &str = "2024-01-01T00:00:00+00:00";

fn signer() -> SignerWrap {
    SignerWrap::from_hex_seed(SEED_HEX).unwrap()
}

fn append(logs: &mut Vec<AuditLog>, signer: &SignerWrap, event_type: &str, payload: &str) {
    let prev_hash = next_prev_hash(logs.last());
    let signature = sign_entry(signer, event_type, payload, TS, &prev_hash);
    logs.push(AuditLog {
        id: logs.len() as i64 + 1,
        event_type: event_type.to_string(),
        payload_json: payload.to_string(),
        timestamp_rfc3339: TS.to_string(),
        prev_hash,
        signature,
    });
}

fn verify_all(logs: &[AuditLog], signer: &SignerWrap) -> bool {
    verify_chain(logs, signer).unwrap().ok
}

#[test]
fn unit_test_signature_matches_log_content() {
    let signer = signer();
    let event_type = "LOGIN_FAIL";
    let payload = r#"{"ip":"10.0.0.9","user":"alice"}"#;
    let prev_hash = genesis_prev_hash();

    let data = audit_data_bytes(event_type, payload, TS);
    let current_hash = compute_current_hash_hex(&data, &prev_hash);

    let sig = signer.sign_current_hash_b64(&current_hash);
    assert!(signer.verify_current_hash_b64(&current_hash, &sig).unwrap());

    let mut altered = current_hash.clone();
    altered.replace_range(0..1, "f");
    assert!(!signer.verify_current_hash_b64(&altered, &sig).unwrap());
}

#[test]
fn test_consistency_insert_100_and_prev_hash_chain_ok() {
    let signer = signer();
    let mut logs = Vec::new();
    for i in 0..100 {
        let payload = format!(r#"{{"action":"credit","amount":{},"n":{}}}"#, i * 10, i);
        append(&mut logs, &signer, "TX", &payload);
    }
    assert!(verify_all(&logs, &signer));
    let resp = verify_chain(&logs, &signer).unwrap();
    assert_eq!(resp.checked, 100);
    assert!(resp.error.is_none());
}

#[test]
fn test_tampering_detection_manual_db_update_breaks_chain() {
    let signer = signer();
    let mut logs = Vec::new();
    for i in 0..5 {
        append(&mut logs, &signer, "ALERT", &format!(r#"{{"msg":"ok","seq":{i}}}"#));
    }
    assert!(verify_all(&logs, &signer));

    logs[2].payload_json = r#"{"msg":"tampered","seq":999}"#.to_string();

    assert!(!verify_all(&logs, &signer));
    let resp = verify_chain(&logs, &signer).unwrap();
    assert_eq!(resp.checked, 3);
    assert_eq!(resp.error.unwrap(), "firma inválida en id=3 (posición 2)");
}

#[test]
fn data_bytes_and_hash_have_exact_values() {
    let data = audit_data_bytes("LOGIN_FAIL", r#"{"ip":"10.0.0.9","user":"alice"}"#, TS);
    assert_eq!(
        data,
        b"LOGIN_FAIL\n2024-01-01T00:00:00+00:00\n{\"ip\":\"10.0.0.9\",\"user\":\"alice\"}".to_vec()
    );
    assert_eq!(
        compute_current_hash_hex(&data, &genesis_prev_hash()),
        "eae0ab7357809a84245979d4f28b250e07697864e68d6e995e3730cba22ab50c"
    );
    assert_eq!(
        compute_current_hash_hex(b"abc", ""),
        "ba7816bf8f01cfea414140de5dae2223b00361a396177a9cb410ff61f20015ad"
    );
    assert_eq!(genesis_prev_hash(), "0".repeat(64));
}

#[test]
fn signatures_match_the_reference_vector() {
    let signer = signer();
    let sig = signer.sign_current_hash_b64("");
    assert_eq!(
        sig,
        "5VZDAMNgrHKQhuLMgG6CioSHfx645dl02HPgZSJJAVVfuIIVkKM7rMYeOXAc+bRr0lv18FlbviRlUUFDjnoQCw=="
    );
    assert_eq!(signer.verify_current_hash_b64("", &sig), Ok(true));
    let other = SignerWrap::from_hex_seed(&"11".repeat(32)).unwrap();
    assert_eq!(other.verify_current_hash_b64("", &sig), Ok(false));
}

#[test]
fn bad_seeds_and_signatures_are_errors() {
    assert!(matches!(SignerWrap::from_hex_seed("zz"), Err(SignerError::InvalidSeed)));
    assert!(matches!(SignerWrap::from_hex_seed(&"ab".repeat(31)), Err(SignerError::InvalidSeed)));
    assert!(matches!(SignerWrap::from_hex_seed(&"ab".repeat(33)), Err(SignerError::InvalidSeed)));
    let signer = signer();
    assert_eq!(signer.verify_current_hash_b64("xyz", "AAAA"), Err(SignerError::BadSignature));
    assert_eq!(signer.verify_current_hash_b64("00", "***"), Err(SignerError::BadSignature));
    assert_eq!(signer.verify_current_hash_b64("00", "AAAA"), Err(SignerError::BadSignature));
    assert_eq!(SignerError::InvalidSeed.message(), "invalid private seed: expected 32 bytes as hex (64 chars)");
    assert_eq!(SignerError::BadSignature.message(), "signature decode/parse error");
}

#[test]
fn verification_reports_broken_links_and_bad_signatures() {
    let signer = signer();
    let empty: Vec<AuditLog> = Vec::new();
    let resp = verify_chain(&empty, &signer).unwrap();
    assert!(resp.ok);
    assert_eq!(resp.checked, 0);

    let mut logs = Vec::new();
    for i in 0..3 {
        append(&mut logs, &signer, "EV", &format!("{{\"i\":{i}}}"));
    }
    logs[1].prev_hash = genesis_prev_hash();
    let resp = verify_chain(&logs, &signer).unwrap();
    assert!(!resp.ok);
    assert_eq!(resp.checked, 1);
    assert_eq!(
        resp.error.unwrap(),
        "cadena rota entre id=1 y id=2 (next.prev_hash != current_hash)"
    );

    let mut logs2 = Vec::new();
    append(&mut logs2, &signer, "EV", "{}");
    logs2[0].signature = "not base64!".to_string();
    assert_eq!(verify_chain(&logs2, &signer).unwrap_err(), "signature decode/parse error");
    let resp = verify_response(verify_chain(&logs2, &signer));
    assert!(!resp.ok);
    assert_eq!(resp.checked, 0);
    assert_eq!(resp.error.unwrap(), "signature decode/parse error");
}

#[test]
fn next_prev_hash_follows_the_last_entry() {
    let signer = signer();
    assert_eq!(next_prev_hash(None), genesis_prev_hash());
    let mut logs = Vec::new();
    append(&mut logs, &signer, "EV", "{}");
    let h = entry_hash_of(&logs[0]);
    assert_eq!(next_prev_hash(logs.last()), h);
    let data = audit_data_bytes("EV", "{}", TS);
    assert_eq!(h, compute_current_hash_hex(&data, &genesis_prev_hash()));
    append(&mut logs, &signer, "EV", "{}");
    assert_eq!(logs[1].prev_hash, h);
}

#[test]
fn blank_event_types_are_refused() {
    assert!(event_type_accepted("LOGIN"));
    assert!(event_type_accepted(" x "));
    assert!(!event_type_accepted(""));
    assert!(!event_type_accepted(" \t\n"));
    let ok = VerifyResp { ok: true, checked: 2, error: None };
    let same = verify_response(Ok(ok.clone()));
    assert!(same.ok);
    assert_eq!(same.checked, 2);
}

#[test]
fn timestamps_keep_whole_microseconds() {
    assert_eq!(micros_precision(123_456_789), 123_456_000);
    assert_eq!(micros_precision(999), 0);
    assert_eq!(micros_precision(1_000), 1_000);
    assert_eq!(micros_precision(1_999_999_999), 1_999_999_000);
}
