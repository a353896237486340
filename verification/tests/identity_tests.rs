use argon2::password_hash::{PasswordHasher, SaltString};
use argon2::{Algorithm, Argon2, Params, Version};
use sentinel_kit::identity::hasher::{
    benchmark_and_tune, build_argon2, hash_password, max_memory_from, params_from_values,
    parse_u32, verify_password, HasherError, ParamsError, SecurityParams,
};
use sentinel_kit::identity::server::{
    benchmark_report, credentials_present, login_status, register, register_status,
    RegisterError, UserDirectory,
};

const BASE: SecurityParams = SecurityParams { memory_mib: 64, iterations: 3, parallelism: 1 };

#[test]
fn test_consistency_verify_true_for_correct_false_for_wrong() {
    let hash = hash_password("S3cretP@ssw0rd", BASE).unwrap();
    assert!(hash.starts_with("$argon2id$v=19$m=65536,t=3,p=1$"));
    assert!(verify_password(&hash, "S3cretP@ssw0rd"));
    assert!(!verify_password(&hash, "wrong-password"));
}

#[test]
fn test_uniqueness_same_password_different_hashes_due_to_salt() {
    let h1 = hash_password("same-password", BASE).unwrap();
    let h2 = hash_password("same-password", BASE).unwrap();
    assert_ne!(h1, h2, "hashes must differ because salt is random");
    assert!(verify_password(&h1, "same-password"));
}

#[test]
fn test_benchmark_security_policy() {
    let max_mib = max_memory_from(Some("64"));
    let (p, nanos) = benchmark_and_tune(BASE, max_mib).unwrap();
    let out = benchmark_report(p, nanos);
    assert!(out.memory_mib >= 64);
    assert!(out.iterations >= 3);
    assert!(out.parallelism >= 1);
    if !out.meets_100ms {
        assert!(out.memory_mib >= max_mib || out.elapsed_ms < 100);
    }
    assert_eq!(out.memory_mib, 64);
}

#[test]
fn garbage_hash_verifies_nothing() {
    assert!(!verify_password("not-a-phc-string", "x"));
    assert!(!verify_password("", ""));
}

#[test]
fn policy_is_checked_in_order() {
    let low = SecurityParams { memory_mib: 32, iterations: 1, parallelism: 0 };
    assert_eq!(low.sanitize(), Err(ParamsError::MemoryTooLow));
    let it = SecurityParams { memory_mib: 64, iterations: 2, parallelism: 0 };
    assert_eq!(it.sanitize(), Err(ParamsError::IterationsTooLow));
    let par = SecurityParams { memory_mib: 64, iterations: 3, parallelism: 0 };
    assert_eq!(par.sanitize(), Err(ParamsError::ParallelismTooLow));
    assert_eq!(BASE.sanitize(), Ok(BASE));
    assert!(matches!(hash_password("x", low), Err(HasherError::Policy(ParamsError::MemoryTooLow))));
    assert!(matches!(benchmark_and_tune(it, 64), Err(HasherError::Policy(ParamsError::IterationsTooLow))));
}

#[test]
fn oversized_memory_is_refused() {
    let huge = SecurityParams { memory_mib: 4_194_304, iterations: 3, parallelism: 1 };
    assert!(matches!(build_argon2(huge), Err(HasherError::MemoryOverflow)));
    let many_lanes = SecurityParams { memory_mib: 64, iterations: 3, parallelism: 20_000 };
    assert!(matches!(build_argon2(many_lanes), Err(HasherError::Argon2Params(_))));
    assert!(build_argon2(BASE).is_ok());
}

#[test]
fn numbers_parse_like_from_str() {
    assert_eq!(parse_u32("0"), Some(0));
    assert_eq!(parse_u32("+42"), Some(42));
    assert_eq!(parse_u32("4294967295"), Some(u32::MAX));
    assert_eq!(parse_u32("4294967296"), None);
    assert_eq!(parse_u32(""), None);
    assert_eq!(parse_u32("+"), None);
    assert_eq!(parse_u32("-1"), None);
    assert_eq!(parse_u32(" 1"), None);
    assert_eq!(parse_u32("12a"), None);
}

#[test]
fn settings_fall_back_and_respect_floors() {
    let p = params_from_values(None, None, None, 8);
    assert_eq!(p, SecurityParams { memory_mib: 64, iterations: 3, parallelism: 8 });
    let p = params_from_values(Some("128"), Some("5"), Some("2"), 8);
    assert_eq!(p, SecurityParams { memory_mib: 128, iterations: 5, parallelism: 2 });
    let p = params_from_values(Some("16"), Some("1"), Some("0"), 8);
    assert_eq!(p, SecurityParams { memory_mib: 64, iterations: 3, parallelism: 1 });
    let p = params_from_values(Some("lots"), Some(""), Some("x"), 0);
    assert_eq!(p, SecurityParams { memory_mib: 64, iterations: 3, parallelism: 1 });
    assert_eq!(max_memory_from(None), 1024);
    assert_eq!(max_memory_from(Some("2048")), 2048);
    assert_eq!(max_memory_from(Some("10")), 64);
    assert_eq!(max_memory_from(Some("nope")), 1024);
}

#[test]
fn register_then_login() {
    let mut dir = UserDirectory::new();
    let reg = register(&mut dir, "alice", "pw-1", BASE).unwrap();
    assert_eq!(reg.id, 1);
    assert_eq!(reg.username, "alice");
    assert!(reg.password_hash.starts_with("$argon2id$"));
    assert_eq!(register_status(&Ok(reg)), 201);
    assert!(dir.login("alice", "pw-1"));
    assert!(!dir.login("alice", "pw-2"));
    assert!(!dir.login("bob", "pw-1"));
    assert_eq!(dir.find("alice").unwrap().id, 1);
    assert!(dir.find("bob").is_none());
    assert_eq!(login_status(true), 200);
    assert_eq!(login_status(false), 401);
}

#[test]
fn conflicts_keep_the_first_account() {
    let mut dir = UserDirectory::new();
    register(&mut dir, "alice", "first", BASE).unwrap();
    let again = register(&mut dir, "alice", "second", BASE);
    assert!(matches!(again, Err(RegisterError::Conflict)));
    assert_eq!(register_status(&again), 409);
    assert_eq!(dir.find("alice").unwrap().id, 1);
}

fn cheap_hash(password: &str) -> String {
    let params = Params::new(8, 1, 1, None).unwrap();
    let argon2 = Argon2::new(Algorithm::Argon2id, Version::V0x13, params);
    let salt = SaltString::from_b64("c2FsdHNhbHRzYWx0").unwrap();
    argon2.hash_password(password.as_bytes(), &salt).unwrap().to_string()
}

#[test]
fn conflicts_take_an_id() {
    let mut dir = UserDirectory::new();
    assert_eq!(dir.register_hashed("alice", cheap_hash("first")).unwrap(), 1);
    assert!(matches!(dir.register_hashed("alice", cheap_hash("second")), Err(RegisterError::Conflict)));
    assert_eq!(dir.register_hashed("bob", cheap_hash("pw")).unwrap(), 3);
    assert!(dir.login("alice", "first"));
    assert!(!dir.login("alice", "second"));
    assert!(dir.login("bob", "pw"));
    assert_eq!(dir.find("bob").unwrap().username, "bob");
    assert_eq!(dir.find("alice").unwrap().password_hash, cheap_hash("first"));
}

#[test]
fn missing_credentials_and_bad_params_are_refused() {
    let mut dir = UserDirectory::new();
    let r = register(&mut dir, "   ", "pw", BASE);
    assert!(matches!(r, Err(RegisterError::MissingCredentials)));
    assert_eq!(register_status(&r), 400);
    assert!(matches!(register(&mut dir, "carol", "", BASE), Err(RegisterError::MissingCredentials)));
    let weak = SecurityParams { memory_mib: 8, iterations: 3, parallelism: 1 };
    let r = register(&mut dir, "carol", "pw", weak);
    assert!(matches!(r, Err(RegisterError::HashFailed(HasherError::Policy(_)))));
    assert_eq!(register_status(&r), 500);
    assert!(credentials_present(" x ", "p"));
    assert!(!credentials_present("\t\n", "p"));
    assert!(!credentials_present("x", ""));
    let reg = register(&mut dir, "carol", "pw", BASE).unwrap();
    assert_eq!(reg.id, 1);
}

#[test]
fn benchmark_report_rounds_down_to_milliseconds() {
    let r = benchmark_report(BASE, 99_999_999);
    assert_eq!(r.elapsed_ms, 99);
    assert!(!r.meets_100ms);
    let r = benchmark_report(BASE, 100_000_000);
    assert_eq!(r.elapsed_ms, 100);
    assert!(r.meets_100ms);
    assert_eq!((r.memory_mib, r.iterations, r.parallelism), (64, 3, 1));
}
