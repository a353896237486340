//! The decisions of the infrastructure health gate: which mode to run, which settings are
//! required, and which database and cache replies count as healthy.

use vstd::prelude::*;

use crate::codec;

verus! {

/// What `str::to_uppercase` gives for `s`.
pub uninterp spec fn uppercased(s: Seq<char>) -> Seq<char>;

/// `str::to_uppercase`: the contract names the result after its argument; the Unicode
/// case mapping is not stated.
#[verifier::external_body]
fn to_uppercase(s: &str) -> (r: String)
    ensures
        r@ == uppercased(s@),
{
    s.to_uppercase()
}

/// The message for a missing setting.
pub open spec fn missing_setting_message(key: Seq<char>) -> Seq<char> {
    "Missing env var: "@ + key
}

/// A required setting: its value, or an error naming it when it is absent.
pub fn env_required(key: &str, value: Option<String>) -> (r: Result<String, String>)
    ensures
        value matches Some(v) ==> r == Ok::<String, String>(v),
        value is None ==> (r matches Err(m) && m@ == missing_setting_message(key@)),
{
    match value {
        Some(v) => Ok(v),
        None => {
            let mut m = String::from_str("Missing env var: ");
            m.append(key);
            Err(m)
        },
    }
}

/// Which job the health checker performs.
#[derive(Debug, Clone, Copy, PartialEq, Eq)]
pub enum Mode {
    Serve,
    SelfCheck,
    DnsCheck,
    Unknown,
}

/// The mode named by the first argument after the program; none means serving.
pub fn parse_mode(args: &[String]) -> (r: Mode)
    ensures
        args@.len() < 2 ==> r == Mode::Serve,
        args@.len() >= 2 ==> r == (if args@[1]@ == "serve"@ {
            Mode::Serve
        } else if args@[1]@ == "self-check"@ {
            Mode::SelfCheck
        } else if args@[1]@ == "dns-check"@ {
            Mode::DnsCheck
        } else {
            Mode::Unknown
        }),
{
    if args.len() < 2 {
        return Mode::Serve;
    }
    let a = &args[1];
    if *a == String::from_str("serve") {
        Mode::Serve
    } else if *a == String::from_str("self-check") {
        Mode::SelfCheck
    } else if *a == String::from_str("dns-check") {
        Mode::DnsCheck
    } else {
        Mode::Unknown
    }
}

/// The message for an unknown mode.
pub fn unknown_mode_message() -> (r: &'static str)
    ensures
        r@ == "Unknown mode. Use: serve | self-check | dns-check"@,
{
    "Unknown mode. Use: serve | self-check | dns-check"
}

/// The database probe: `SELECT 1` must give 1.
pub fn check_select_one(v: i32) -> (r: Result<(), String>)
    ensures
        v == 1 ==> r is Ok,
        v != 1 ==> (r matches Err(m) && m@ == "Unexpected SELECT 1 result: "@
            + codec::signed_decimal(v as int)),
{
    if v != 1 {
        let mut m = String::from_str("Unexpected SELECT 1 result: ");
        let d = codec::signed_decimal_string(v as i64);
        m.append(d.as_str());
        return Err(m);
    }
    Ok(())
}

/// The cache probe's first reply: `PING` must answer `PONG` in any case.
pub fn check_ping_reply(pong: &str) -> (r: Result<(), String>)
    ensures
        uppercased(pong@) == "PONG"@ ==> r is Ok,
        uppercased(pong@) != "PONG"@ ==> (r matches Err(m) && m@
            == "Unexpected Redis PING response: "@ + pong@),
{
    let up = to_uppercase(pong);
    if !(up == String::from_str("PONG")) {
        let mut m = String::from_str("Unexpected Redis PING response: ");
        m.append(pong);
        return Err(m);
    }
    Ok(())
}

/// The key the cache probe writes and reads back.
pub fn health_key() -> (r: &'static str)
    ensures
        r@ == "gp:health"@,
{
    "gp:health"
}

/// The cache probe's read-back: the value written, `1`, must come back.
pub fn check_get_reply(got: &str) -> (r: Result<(), String>)
    ensures
        got@ == "1"@ ==> r is Ok,
        got@ != "1"@ ==> (r matches Err(m) && m@ == "Unexpected Redis GET response: "@ + got@),
{
    if !(String::from_str(got) == String::from_str("1")) {
        let mut m = String::from_str("Unexpected Redis GET response: ");
        m.append(got);
        return Err(m);
    }
    Ok(())
}

/// The body of the health endpoint: `ok` when every check passed, else `fail`.
pub fn healthz_body(all_checks_passed: bool) -> (r: &'static str)
    ensures
        all_checks_passed ==> r@ == "ok"@,
        !all_checks_passed ==> r@ == "fail"@,
{
    if all_checks_passed {
        "ok"
    } else {
        "fail"
    }
}

} // verus!
