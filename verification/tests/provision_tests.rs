use sentinel_kit::provision::{
    check_get_reply, check_ping_reply, check_select_one, env_required, health_key, healthz_body,
    parse_mode, unknown_mode_message, Mode,
};

#[test]
fn env_required_returns_error_when_missing() {
    let key = "GP_TEST_MISSING_ENV";
    let err = env_required(key, None).unwrap_err();
    assert!(err.contains("Missing env var"), "error should mention missing env var; got: {err}");
    assert_eq!(err, "Missing env var: GP_TEST_MISSING_ENV");
}

#[test]
fn env_required_returns_value_when_present() {
    let v = env_required("GP_TEST_PRESENT_ENV", Some("ok".to_string())).unwrap();
    assert_eq!(v, "ok");
}

#[test]
fn modes_are_read_from_the_first_argument() {
    let args = |v: &[&str]| v.iter().map(|s| s.to_string()).collect::<Vec<String>>();
    assert_eq!(parse_mode(&args(&["gp"])), Mode::Serve);
    assert_eq!(parse_mode(&args(&[])), Mode::Serve);
    assert_eq!(parse_mode(&args(&["gp", "serve"])), Mode::Serve);
    assert_eq!(parse_mode(&args(&["gp", "self-check"])), Mode::SelfCheck);
    assert_eq!(parse_mode(&args(&["gp", "dns-check", "x"])), Mode::DnsCheck);
    assert_eq!(parse_mode(&args(&["gp", "SERVE"])), Mode::Unknown);
    assert_eq!(unknown_mode_message(), "Unknown mode. Use: serve | self-check | dns-check");
}

#[test]
fn probe_replies_are_checked() {
    assert_eq!(check_select_one(1), Ok(()));
    assert_eq!(check_select_one(2).unwrap_err(), "Unexpected SELECT 1 result: 2");
    assert_eq!(check_select_one(-7).unwrap_err(), "Unexpected SELECT 1 result: -7");
    assert_eq!(check_ping_reply("PONG"), Ok(()));
    assert_eq!(check_ping_reply("pong"), Ok(()));
    assert_eq!(check_ping_reply("PANG").unwrap_err(), "Unexpected Redis PING response: PANG");
    assert_eq!(check_get_reply("1"), Ok(()));
    assert_eq!(check_get_reply("0").unwrap_err(), "Unexpected Redis GET response: 0");
    assert_eq!(health_key(), "gp:health");
    assert_eq!(healthz_body(true), "ok");
    assert_eq!(healthz_body(false), "fail");
}
