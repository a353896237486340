use sentinel_kit::policy::{AccessLogs, ExpirationChecker, KeyRecord, KeyStorage, SizeAuditor};
use sentinel_kit::policy::SecurityElement;

#[test]
fn expiration_checker_flags_2020_key_as_expired() {
    let storage = KeyStorage::new(vec![
        KeyRecord::new("key-2020", 2020),
        KeyRecord::new("key-2030", 2030),
    ]);

    let mut checker = ExpirationChecker::new(2026);
    storage.accept(&mut checker);

    let expired = checker.expired_ids();
    assert!(expired.contains(&"key-2020".to_string()));
    assert!(!expired.contains(&"key-2030".to_string()));
}

#[test]
fn size_auditor_totals_match_sum_for_mixed_alements() {
    let storage = KeyStorage::new(vec![
        KeyRecord::new("a", 2030),
        KeyRecord::new("bbbb", 2031),
    ]);

    let logs = AccessLogs::new(vec![
        "login ok".to_string(),
        "invalid signature".to_string(),
    ]);

    let elements: Vec<Box<dyn SecurityElement<SizeAuditor>>> =
        vec![Box::new(storage), Box::new(logs)];

    let expected_storage_size = "a".len() + 4 + "bbbb".len() + 4;
    let expected_logs_size = "login ok".len() + "invalid signature".len();
    let expected_total = expected_storage_size + expected_logs_size;

    let mut auditor = SizeAuditor::new();
    for el in &elements {
        el.accept(&mut auditor);
    }

    assert_eq!(auditor.total_bytes(), expected_total);
}

#[test]
fn expiration_keeps_key_expiring_in_current_year() {
    let storage = KeyStorage::new(vec![KeyRecord::new("same-year", 2026)]);
    let mut checker = ExpirationChecker::new(2026);
    storage.accept(&mut checker);
    assert!(checker.expired_ids().is_empty());
}

#[test]
fn expiration_ignores_logs_and_accumulates_in_order() {
    let first = KeyStorage::new(vec![KeyRecord::new("k1", 1999), KeyRecord::new("k2", 2100)]);
    let mut second = KeyStorage::default();
    second.add(KeyRecord::new("k3", 2000));
    let logs = AccessLogs::new(vec!["entry".to_string()]);
    let mut checker = ExpirationChecker::new(2024);
    first.accept(&mut checker);
    logs.accept(&mut checker);
    second.accept(&mut checker);
    assert_eq!(checker.expired_ids(), vec!["k1".to_string(), "k3".to_string()]);
}

#[test]
fn size_estimates_count_utf8_bytes() {
    let storage = KeyStorage::new(vec![KeyRecord::new("ñ", 2030)]);
    assert_eq!(storage.size_bytes_estimate(), 2 + 4);
    let mut logs = AccessLogs::default();
    logs.add("é");
    logs.add("ok");
    assert_eq!(logs.entries().len(), 2);
    assert_eq!(logs.size_bytes_estimate(), 4);
    assert_eq!(KeyStorage::default().size_bytes_estimate(), 0);
}

#[test]
fn size_auditor_starts_at_zero_and_adds_each_visit() {
    let storage = KeyStorage::new(vec![KeyRecord::new("abc", 2030)]);
    let mut auditor = SizeAuditor::new();
    assert_eq!(auditor.total_bytes(), 0);
    storage.accept(&mut auditor);
    storage.accept(&mut auditor);
    assert_eq!(auditor.total_bytes(), 14);
    assert_eq!(storage.keys()[0].id, "abc");
    assert_eq!(storage.keys()[0].expires_year, 2030);
}
