use vstd::prelude::*;

use argon2::password_hash::{PasswordHash, PasswordHasher, PasswordVerifier, SaltString};
use argon2::{Algorithm, Argon2, Params, Version};
use rand::rngs::OsRng;
use std::time::Instant;

use crate::codec::{decimal, digit_char};

verus! {

/// `argon2::Params`.
#[verifier::external_type_specification]
#[verifier::external_body]
pub struct ExParams(Params);

/// `argon2::Argon2`, a configured hasher.
#[verifier::external_type_specification]
#[verifier::external_body]
pub struct ExArgon2<'key>(Argon2<'key>);

/// `argon2::Error`, refused parameters.
#[verifier::external_type_specification]
#[verifier::external_body]
pub struct ExArgon2Error(argon2::Error);

/// `password_hash::Error`, a failed hashing.
#[verifier::external_type_specification]
#[verifier::external_body]
pub struct ExPasswordHashError(argon2::password_hash::Error);

/// `password_hash::SaltString`, an encoded salt.
#[verifier::external_type_specification]
#[verifier::external_body]
pub struct ExSaltString(SaltString);

/// `std::time::Instant`, a point in time.
#[verifier::external_type_specification]
#[verifier::external_body]
pub struct ExInstant(Instant);

/// Argon2 cost parameters: memory in MiB, iterations and lanes.
#[derive(Debug, Clone, Copy, PartialEq, Eq)]
pub struct SecurityParams {
    pub memory_mib: u32,
    pub iterations: u32,
    pub parallelism: u32,
}

/// Which policy bound a parameter set breaks.
#[derive(Debug, Clone, Copy, PartialEq, Eq)]
pub enum ParamsError {
    MemoryTooLow,
    IterationsTooLow,
    ParallelismTooLow,
}

/// Whether `p` meets the policy: memory at least 64 MiB, at least 3 iterations, at least
/// one lane.
pub open spec fn meets_policy(p: SecurityParams) -> bool {
    p.memory_mib >= 64 && p.iterations >= 3 && p.parallelism >= 1
}

impl SecurityParams {
    /// Checks the policy; the bounds are checked in the order memory, iterations, lanes.
    pub fn sanitize(self) -> (r: Result<Self, ParamsError>)
        ensures
            meets_policy(self) <==> r is Ok,
            r matches Ok(p) ==> p == self,
            self.memory_mib < 64 ==> r == Err::<Self, _>(ParamsError::MemoryTooLow),
            self.memory_mib >= 64 && self.iterations < 3 ==> r == Err::<Self, _>(
                ParamsError::IterationsTooLow,
            ),
            self.memory_mib >= 64 && self.iterations >= 3 && self.parallelism < 1 ==> r
                == Err::<Self, _>(ParamsError::ParallelismTooLow),
    {
        if self.memory_mib < 64 {
            return Err(ParamsError::MemoryTooLow);
        }
        if self.iterations < 3 {
            return Err(ParamsError::IterationsTooLow);
        }
        if self.parallelism < 1 {
            return Err(ParamsError::ParallelismTooLow);
        }
        Ok(self)
    }
}

/// The value of the decimal digits `s`.
pub open spec fn digits_value(s: Seq<char>) -> nat
    decreases s.len(),
{
    if s.len() == 0 {
        0
    } else {
        digits_value(s.drop_last()) * 10 + ((s.last() as u32) - 48) as nat
    }
}

/// Whether every character of `s` is an ASCII decimal digit.
pub open spec fn all_digits(s: Seq<char>) -> bool {
    forall|i: int| 0 <= i < s.len() ==> 48 <= (#[trigger] s[i] as u32) <= 57
}

/// The digits of an unsigned decimal text: an optional leading `+`, then the rest.
pub open spec fn unsigned_digits(s: Seq<char>) -> Seq<char> {
    if s.len() > 0 && s[0] == '+' {
        s.drop_first()
    } else {
        s
    }
}

/// The `u32` that `s` stands for in the syntax of `u32::from_str`: an optional `+` and at
/// least one decimal digit, with a value that fits.
pub open spec fn parsed_u32(s: Seq<char>) -> Option<u32> {
    let d = unsigned_digits(s);
    if d.len() > 0 && all_digits(d) && digits_value(d) <= u32::MAX {
        Some(digits_value(d) as u32)
    } else {
        None
    }
}

proof fn lemma_digits_value_prefix(d: Seq<char>, i: int)
    requires
        0 <= i <= d.len(),
        all_digits(d),
    ensures
        digits_value(d.take(i)) <= digits_value(d),
    decreases d.len() - i,
{
    if i < d.len() {
        lemma_digits_value_prefix(d, i + 1);
        assert(d.take(i + 1).drop_last() =~= d.take(i));
        assert(48 <= (d[i] as u32) <= 57);
    } else {
        assert(d.take(i) =~= d);
    }
}

/// Reads an unsigned decimal `u32` with the syntax of `u32::from_str`.
pub fn parse_u32(s: &str) -> (r: Option<u32>)
    ensures
        r == parsed_u32(s@),
{
    let n = s.unicode_len();
    let mut start: usize = 0;
    if n > 0 && s.get_char(0) == '+' {
        start = 1;
    }
    let ghost d = unsigned_digits(s@);
    proof {
        assert(d =~= s@.skip(start as int));
    }
    if start >= n {
        return None;
    }
    let mut acc: u64 = 0;
    let mut i: usize = start;
    while i < n
        invariant
            n == s@.len(),
            start <= i <= n,
            d == s@.skip(start as int),
            d == unsigned_digits(s@),
            all_digits(d.take(i - start)),
            acc == digits_value(d.take(i - start)),
            acc <= u32::MAX,
        decreases n - i,
    {
        let c = s.get_char(i);
        let v = c as u32;
        proof {
            assert(d.take(i - start + 1).drop_last() =~= d.take(i - start));
            assert(d[i - start] == c);
        }
        if v < 48 || v > 57 {
            proof {
                assert(!all_digits(d));
            }
            return None;
        }
        let next: u64 = acc * 10 + (v - 48) as u64;
        if next > 4294967295u64 {
            proof {
                assert(digits_value(d.take(i - start + 1)) == next);
                if all_digits(d) {
                    lemma_digits_value_prefix(d, i - start + 1);
                }
            }
            return None;
        }
        acc = next;
        i = i + 1;
    }
    proof {
        assert(d.take(i - start) =~= d);
    }
    Some(acc as u32)
}

/// A configuration value: the parsed text if it parses, else the default, raised to at
/// least the floor.
pub open spec fn setting(text: Option<Seq<char>>, default: u32, floor: u32) -> u32 {
    let v = match text {
        Some(t) => match parsed_u32(t) {
            Some(n) => n,
            None => default,
        },
        None => default,
    };
    if v > floor {
        v
    } else {
        floor
    }
}

/// The view of an optional text.
pub open spec fn opt_view(t: Option<&str>) -> Option<Seq<char>> {
    match t {
        Some(s) => Some(s@),
        None => None,
    }
}

fn setting_from(text: Option<&str>, default: u32, floor: u32) -> (r: u32)
    ensures
        r == setting(opt_view(text), default, floor),
{
    let v = match text {
        Some(t) => match parse_u32(t) {
            Some(n) => n,
            None => default,
        },
        None => default,
    };
    if v > floor {
        v
    } else {
        floor
    }
}

/// The parameters configured by the memory (MiB), iterations and lanes settings: each
/// parsed if present and valid, else its default (64, 3, `default_parallelism`), raised
/// to the policy floor (64, 3, 1).
pub fn params_from_values(
    memory_mib: Option<&str>,
    iterations: Option<&str>,
    parallelism: Option<&str>,
    default_parallelism: u32,
) -> (r: SecurityParams)
    ensures
        r.memory_mib == setting(opt_view(memory_mib), 64, 64),
        r.iterations == setting(opt_view(iterations), 3, 3),
        r.parallelism == setting(opt_view(parallelism), default_parallelism, 1),
        meets_policy(r),
{
    SecurityParams {
        memory_mib: setting_from(memory_mib, 64, 64),
        iterations: setting_from(iterations, 3, 3),
        parallelism: setting_from(parallelism, default_parallelism, 1),
    }
}

/// The memory ceiling for tuning: the parsed setting if valid, else 1024, at least 64.
pub fn max_memory_from(text: Option<&str>) -> (r: u32)
    ensures
        r == setting(opt_view(text), 1024, 64),
        r >= 64,
{
    setting_from(text, 1024, 64)
}

/// Whether Argon2 accepts these memory (KiB), time and lane costs.
pub open spec fn argon2_accepts(m_cost: u32, t_cost: u32, p_cost: u32) -> bool {
    m_cost >= 8 && m_cost >= p_cost * 8 && t_cost >= 1 && p_cost >= 1 && p_cost <= 0xFFFFFF
}

/// `Params::new(m_cost, t_cost, p_cost, None)` from `argon2`: the contract states when the
/// parameters are accepted, as the source checks them.
#[verifier::external_body]
fn argon2_params(m_cost: u32, t_cost: u32, p_cost: u32) -> (r: Result<Params, argon2::Error>)
    requires
        p_cost <= u32::MAX / 8,
    ensures
        r is Ok <==> argon2_accepts(m_cost, t_cost, p_cost),
{
    Params::new(m_cost, t_cost, p_cost, None)
}

/// `Argon2::new(Algorithm::Argon2id, Version::V0x13, params)` from `argon2`; nothing is
/// stated about the hasher.
#[verifier::external_body]
fn argon2id(params: Params) -> (r: Argon2<'static>) {
    Argon2::new(Algorithm::Argon2id, Version::V0x13, params)
}

/// Whether the PHC string `phc` verifies `password` under `Argon2::default()`.
pub uninterp spec fn phc_verifies(phc: Seq<char>, password: Seq<u8>) -> bool;

/// The start of the PHC string that Argon2id version 19 writes for memory `m_cost` (KiB),
/// `t_cost` iterations and `p_cost` lanes: `$argon2id$v=19$m=<m>,t=<t>,p=<p>$`, the salt
/// and the hash following.
pub open spec fn phc_header(m_cost: u32, t_cost: u32, p_cost: u32) -> Seq<char> {
    "$argon2id$v=19$m="@ + decimal(m_cost as nat) + ",t="@ + decimal(t_cost as nat) + ",p="@
        + decimal(p_cost as nat) + "$"@
}

/// A decimal rendering is made of digits only, at least one.
proof fn lemma_decimal_digits(n: nat)
    ensures
        decimal(n).len() >= 1,
        n >= 10 ==> decimal(n).len() >= 2,
        n < 10 ==> decimal(n).len() == 1,
        forall|i: int|
            0 <= i < decimal(n).len() ==> 48 <= (#[trigger] decimal(n)[i]) as int <= 57,
    decreases n,
{
    if n < 10 {
        assert((48 + n) as char as int == 48 + n);
    } else {
        lemma_decimal_digits(n / 10);
        assert((48 + n % 10) as char as int == 48 + n % 10);
        assert forall|i: int| 0 <= i < decimal(n).len() implies 48 <= (#[trigger] decimal(
            n,
        )[i]) as int <= 57 by {
            if i < decimal(n / 10).len() {
                assert(decimal(n)[i] == decimal(n / 10)[i]);
            }
        }
    }
}

/// Different numbers have different decimal renderings.
proof fn lemma_decimal_injective(a: nat, b: nat)
    requires
        decimal(a) == decimal(b),
    ensures
        a == b,
    decreases a,
{
    lemma_decimal_digits(a);
    lemma_decimal_digits(b);
    if a < 10 {
        assert(b < 10);
        assert(decimal(a)[0] == decimal(b)[0]);
        assert((48 + a) as char as int == 48 + a);
        assert((48 + b) as char as int == 48 + b);
    } else {
        assert(b >= 10);
        assert(decimal(a).drop_last() =~= decimal(a / 10));
        assert(decimal(b).drop_last() =~= decimal(b / 10));
        lemma_decimal_injective(a / 10, b / 10);
        assert(decimal(a).last() == decimal(b).last());
        assert((48 + a % 10) as char as int == 48 + a % 10);
        assert((48 + b % 10) as char as int == 48 + b % 10);
        assert(decimal(a).last() == digit_char(a % 10));
        assert(decimal(b).last() == digit_char(b % 10));
        assert(a % 10 == b % 10);
        assert(a == (a / 10) * 10 + a % 10);
        assert(b == (b / 10) * 10 + b % 10);
    }
}

/// A number written at `off` in `h` and ended by a non-digit is read back uniquely.
proof fn lemma_decimal_field(h: Seq<char>, off: int, a: nat, b: nat)
    requires
        0 <= off,
        off + decimal(a).len() < h.len(),
        off + decimal(b).len() < h.len(),
        h.subrange(off, off + decimal(a).len()) == decimal(a),
        h.subrange(off, off + decimal(b).len()) == decimal(b),
        !(48 <= h[off + decimal(a).len()] as int <= 57),
        !(48 <= h[off + decimal(b).len()] as int <= 57),
    ensures
        a == b,
{
    lemma_decimal_digits(a);
    lemma_decimal_digits(b);
    let la = decimal(a).len() as int;
    let lb = decimal(b).len() as int;
    if la < lb {
        assert(h.subrange(off, off + lb)[la] == decimal(b)[la]);
    } else if lb < la {
        assert(h.subrange(off, off + la)[lb] == decimal(a)[lb]);
    }
    assert(decimal(a) =~= decimal(b));
    lemma_decimal_injective(a, b);
}

/// A PHC string records one parameter set: two headers that both begin the same string
/// have the same memory, iterations and lanes. So hashes made under different parameters
/// differ, and the parameters a hash was made with can be read back from it.
pub proof fn lemma_phc_header_determines_params(
    h: Seq<char>,
    m1: u32,
    t1: u32,
    p1: u32,
    m2: u32,
    t2: u32,
    p2: u32,
)
    requires
        phc_header(m1, t1, p1).is_prefix_of(h),
        phc_header(m2, t2, p2).is_prefix_of(h),
    ensures
        m1 == m2,
        t1 == t2,
        p1 == p2,
{
    reveal_strlit("$argon2id$v=19$m=");
    reveal_strlit(",t=");
    reveal_strlit(",p=");
    reveal_strlit("$");
    let start = "$argon2id$v=19$m="@;
    assert(start.len() == 17);
    let x1 = phc_header(m1, t1, p1);
    let x2 = phc_header(m2, t2, p2);
    let dm1 = decimal(m1 as nat);
    let dm2 = decimal(m2 as nat);
    let dt1 = decimal(t1 as nat);
    let dt2 = decimal(t2 as nat);
    let dp1 = decimal(p1 as nat);
    let dp2 = decimal(p2 as nat);
    let lm1: int = dm1.len() as int;
    let lm2: int = dm2.len() as int;
    let lt1: int = dt1.len() as int;
    let lt2: int = dt2.len() as int;
    let lp1: int = dp1.len() as int;
    let lp2: int = dp2.len() as int;
    lemma_decimal_digits(m1 as nat);
    lemma_decimal_digits(m2 as nat);
    lemma_decimal_digits(t1 as nat);
    lemma_decimal_digits(t2 as nat);
    lemma_decimal_digits(p1 as nat);
    lemma_decimal_digits(p2 as nat);
    assert forall|k: int| 0 <= k < x1.len() implies h[k] == x1[k] by {
        assert(h.subrange(0, x1.len() as int)[k] == h[k]);
    }
    assert forall|k: int| 0 <= k < x2.len() implies h[k] == x2[k] by {
        assert(h.subrange(0, x2.len() as int)[k] == h[k]);
    }
    // memory
    assert(h.subrange(17, 17 + lm1) =~= dm1) by {
        assert forall|k: int| 0 <= k < lm1 implies h.subrange(17, 17 + lm1)[k]
            == dm1[k] by {
            assert(x1[17 + k] == dm1[k]);
        }
    }
    assert(h.subrange(17, 17 + lm2) =~= dm2) by {
        assert forall|k: int| 0 <= k < lm2 implies h.subrange(17, 17 + lm2)[k]
            == dm2[k] by {
            assert(x2[17 + k] == dm2[k]);
        }
    }
    assert(x1[17 + lm1] == ',');
    assert(x2[17 + lm2] == ',');
    lemma_decimal_field(h, 17, m1 as nat, m2 as nat);
    // iterations
    let ot: int = 17 + lm1 + 3;
    assert(h.subrange(ot, ot + lt1) =~= dt1) by {
        assert forall|k: int| 0 <= k < lt1 implies h.subrange(ot, ot + lt1)[k]
            == dt1[k] by {
            assert(x1[ot + k] == dt1[k]);
        }
    }
    assert(h.subrange(ot, ot + lt2) =~= dt2) by {
        assert forall|k: int| 0 <= k < lt2 implies h.subrange(ot, ot + lt2)[k]
            == dt2[k] by {
            assert(x2[ot + k] == dt2[k]);
        }
    }
    assert(x1[ot + lt1] == ',');
    assert(x2[ot + lt2] == ',');
    lemma_decimal_field(h, ot, t1 as nat, t2 as nat);
    // lanes
    let op: int = ot + lt1 + 3;
    assert(h.subrange(op, op + lp1) =~= dp1) by {
        assert forall|k: int| 0 <= k < lp1 implies h.subrange(op, op + lp1)[k]
            == dp1[k] by {
            assert(x1[op + k] == dp1[k]);
        }
    }
    assert(h.subrange(op, op + lp2) =~= dp2) by {
        assert forall|k: int| 0 <= k < lp2 implies h.subrange(op, op + lp2)[k]
            == dp2[k] by {
            assert(x2[op + k] == dp2[k]);
        }
    }
    assert(x1[op + lp1] == '$');
    assert(x2[op + lp2] == '$');
    lemma_decimal_field(h, op, p1 as nat, p2 as nat);
}

/// `Params::new(m_cost, t_cost, p_cost, None)` and `Argon2::new(Algorithm::Argon2id,
/// Version::V0x13, params).hash_password(password, salt)` rendered with `to_string()`.
/// The contract states that a produced PHC string records the algorithm, version and
/// parameters (the `Display` of `PasswordHash`, whose parameters `argon2` writes as `m`,
/// `t` and `p` in that order) and that it verifies the same password: verification
/// re-hashes with what the string records, and neither side uses a secret key.
#[verifier::external_body]
fn argon2_hash(m_cost: u32, t_cost: u32, p_cost: u32, password: &[u8], salt: &SaltString) -> (r:
    Result<String, argon2::password_hash::Error>)
    requires
        argon2_accepts(m_cost, t_cost, p_cost),
        p_cost <= u32::MAX / 8,
    ensures
        r matches Ok(h) ==> phc_verifies(h@, password@),
        r matches Ok(h) ==> phc_header(m_cost, t_cost, p_cost).is_prefix_of(h@),
{
    let params = Params::new(m_cost, t_cost, p_cost, None)?;
    Argon2::new(Algorithm::Argon2id, Version::V0x13, params)
        .hash_password(password, salt)
        .map(|h| h.to_string())
}

/// `PasswordHash::new` and `Argon2::default().verify_password` from `argon2`: a string that
/// does not parse verifies nothing. The contract names the outcome.
#[verifier::external_body]
fn argon2_verify(phc: &str, password: &[u8]) -> (r: bool)
    ensures
        r == phc_verifies(phc@, password@),
{
    match PasswordHash::new(phc) {
        Ok(parsed) => Argon2::default().verify_password(password, &parsed).is_ok(),
        Err(_) => false,
    }
}

/// `SaltString::generate(&mut OsRng)`: a fresh random salt; nothing is stated about it.
#[verifier::external_body]
fn fresh_salt() -> (r: SaltString) {
    SaltString::generate(&mut OsRng)
}

/// `Instant::now()`; nothing is stated about it.
#[verifier::external_body]
fn instant_now() -> (r: Instant) {
    Instant::now()
}

/// `start.elapsed().as_nanos()`; nothing is stated about the value.
#[verifier::external_body]
fn elapsed_nanos(start: &Instant) -> (r: u128) {
    start.elapsed().as_nanos()
}

/// Why hashing could not be set up or done.
#[derive(Debug)]
pub enum HasherError {
    /// The parameters break the policy.
    Policy(ParamsError),
    /// The memory in KiB does not fit in 32 bits.
    MemoryOverflow,
    /// Argon2 refused the parameters.
    Argon2Params(argon2::Error),
    /// Hashing failed.
    Hash(argon2::password_hash::Error),
}

/// Whether Argon2id can be configured with `p`: it meets the policy, its memory in KiB
/// fits in 32 bits and Argon2 accepts the costs.
pub open spec fn buildable(p: SecurityParams) -> bool {
    &&& meets_policy(p)
    &&& p.memory_mib * 1024 <= u32::MAX
    &&& argon2_accepts((p.memory_mib * 1024) as u32, p.iterations, p.parallelism)
}

/// The Argon2 parameters for `p`: memory converted from MiB to KiB.
fn build_params(p: SecurityParams) -> (r: Result<Params, HasherError>)
    requires
        p.parallelism <= u32::MAX / 8,
    ensures
        r is Ok <==> buildable(p),
        !meets_policy(p) ==> r matches Err(HasherError::Policy(_)),
        meets_policy(p) && p.memory_mib * 1024 > u32::MAX ==> r matches Err(
            HasherError::MemoryOverflow,
        ),
        meets_policy(p) && p.memory_mib * 1024 <= u32::MAX && !buildable(p) ==> r matches Err(
            HasherError::Argon2Params(_),
        ),
{
    let p = match p.sanitize() {
        Ok(p) => p,
        Err(e) => { return Err(HasherError::Policy(e)); },
    };
    let mem_kib = match p.memory_mib.checked_mul(1024) {
        Some(m) => m,
        None => { return Err(HasherError::MemoryOverflow); },
    };
    match argon2_params(mem_kib, p.iterations, p.parallelism) {
        Ok(params) => Ok(params),
        Err(e) => Err(HasherError::Argon2Params(e)),
    }
}

/// Configures Argon2id (version 0x13) with `p`, memory converted from MiB to KiB.
pub fn build_argon2(p: SecurityParams) -> (r: Result<Argon2<'static>, HasherError>)
    requires
        p.parallelism <= u32::MAX / 8,
    ensures
        r is Ok <==> buildable(p),
        !meets_policy(p) ==> r matches Err(HasherError::Policy(_)),
        meets_policy(p) && p.memory_mib * 1024 > u32::MAX ==> r matches Err(
            HasherError::MemoryOverflow,
        ),
        meets_policy(p) && p.memory_mib * 1024 <= u32::MAX && !buildable(p) ==> r matches Err(
            HasherError::Argon2Params(_),
        ),
{
    let params = build_params(p)?;
    Ok(argon2id(params))
}

/// Hashes `password` with Argon2id under `params` and a fresh random salt, giving a PHC
/// string. A produced hash verifies the same password.
pub fn hash_password(password: &str, params: SecurityParams) -> (r: Result<String, HasherError>)
    requires
        params.parallelism <= u32::MAX / 8,
    ensures
        !buildable(params) ==> r is Err && !(r matches Err(HasherError::Hash(_))),
        !meets_policy(params) ==> r matches Err(HasherError::Policy(_)),
        meets_policy(params) && params.memory_mib * 1024 > u32::MAX ==> r matches Err(
            HasherError::MemoryOverflow,
        ),
        meets_policy(params) && params.memory_mib * 1024 <= u32::MAX && !buildable(params) ==> r
            matches Err(HasherError::Argon2Params(_)),
        buildable(params) && r is Err ==> r matches Err(HasherError::Hash(_)),
        r matches Ok(h) ==> phc_verifies(h@, crate::codec::utf8_bytes(password@)),
        r matches Ok(h) ==> phc_header(
            (params.memory_mib * 1024) as u32,
            params.iterations,
            params.parallelism,
        ).is_prefix_of(h@),
{
    let _accepted = build_params(params)?;
    let salt = fresh_salt();
    let mem_kib = params.memory_mib * 1024;
    match argon2_hash(mem_kib, params.iterations, params.parallelism, password.as_bytes(), &salt) {
        Ok(h) => Ok(h),
        Err(e) => Err(HasherError::Hash(e)),
    }
}

/// Whether `password` matches the PHC string `hash`; a string that does not parse matches
/// nothing.
pub fn verify_password(hash: &str, password: &str) -> (r: bool)
    ensures
        r == phc_verifies(hash@, crate::codec::utf8_bytes(password@)),
{
    argon2_verify(hash, password.as_bytes())
}

/// The memory steps, in MiB, that tuning climbs through before going up by 64 at a time.
pub open spec fn memory_steps() -> Seq<u32> {
    seq![64, 96, 128, 192, 256, 384, 512]
}

/// The memory tried after `mem`: the first step above it, else `mem + 64`.
pub open spec fn next_memory(mem: u32) -> int {
    if mem < 64 {
        64
    } else if mem < 96 {
        96
    } else if mem < 128 {
        128
    } else if mem < 192 {
        192
    } else if mem < 256 {
        256
    } else if mem < 384 {
        384
    } else if mem < 512 {
        512
    } else {
        mem + 64
    }
}

fn next_memory_exec(mem: u32) -> (r: u32)
    requires
        mem < 0x400000,
    ensures
        r == next_memory(mem),
        r > mem,
{
    let steps: [u32; 7] = [64, 96, 128, 192, 256, 384, 512];
    let mut next = mem + 64;
    let mut i: usize = 0;
    while i < 7
        invariant
            i <= 7,
            steps@ == memory_steps(),
            mem < 0x400000,
            forall|j: int| 0 <= j < i ==> steps@[j] <= mem,
            next == mem + 64,
        decreases 7 - i,
    {
        let s = steps[i];
        if s > mem {
            proof {
                assert(steps@[i as int] == s);
            }
            return s;
        }
        i = i + 1;
    }
    proof {
        assert(steps@[6] <= mem);
    }
    next
}

/// One hundred milliseconds in nanoseconds.
pub open spec fn target_nanos() -> u128 {
    100_000_000
}

/// The memory of the `k`-th attempt of tuning that starts at `start` under the ceiling
/// `max_mib`: the start itself (capped), then each time the next step, capped.
pub open spec fn climb(start: u32, max_mib: u32, k: nat) -> int
    decreases k,
{
    if k == 0 {
        if start < max_mib {
            start as int
        } else {
            max_mib as int
        }
    } else {
        let prev = climb(start, max_mib, (k - 1) as nat);
        let n = next_memory(prev as u32);
        if n < max_mib {
            n
        } else {
            max_mib as int
        }
    }
}

/// The memories that tuning tries never exceed the ceiling and go strictly up until they
/// reach it, where they stay; the first attempt is the start memory whenever it is under
/// the ceiling.
pub proof fn lemma_climb_schedule(start: u32, max_mib: u32, k: nat)
    ensures
        climb(start, max_mib, k) <= max_mib,
        0 <= climb(start, max_mib, k),
        climb(start, max_mib, k) < max_mib ==> climb(start, max_mib, k) < climb(
            start,
            max_mib,
            k + 1,
        ),
        climb(start, max_mib, k) == max_mib ==> climb(start, max_mib, k + 1) == max_mib,
        start < max_mib ==> climb(start, max_mib, 0) == start,
        climb(start, max_mib, k) >= start || climb(start, max_mib, k) == max_mib,
    decreases k,
{
    if k > 0 {
        lemma_climb_schedule(start, max_mib, (k - 1) as nat);
    }
    let c = climb(start, max_mib, k);
    assert(next_memory(c as u32) > c);
}


/// Tunes the memory cost: hashes a probe password with the current memory and stops once
/// a hash takes at least 100 ms or the memory has reached `max_mib`; otherwise it climbs
/// to the next memory step (capped at `max_mib`). Returns the parameters of the last
/// attempt and how long it took, in nanoseconds.
pub fn benchmark_and_tune(params: SecurityParams, max_mib: u32) -> (r: Result<
    (SecurityParams, u128),
    HasherError,
>)
    requires
        params.parallelism <= u32::MAX / 8,
        max_mib >= 64,
    ensures
        !meets_policy(params) ==> r matches Err(HasherError::Policy(_)),
        meets_policy(params) ==> !(r matches Err(HasherError::Policy(_))),
        r matches Ok((p, d)) ==> {
            &&& p.iterations == params.iterations
            &&& p.parallelism == params.parallelism
            &&& p.memory_mib <= max_mib
            &&& p.memory_mib >= params.memory_mib || p.memory_mib == max_mib
            &&& meets_policy(p)
            &&& d < target_nanos() ==> p.memory_mib == max_mib
            &&& exists|k: nat| p.memory_mib == climb(params.memory_mib, max_mib, k)
        },
{
    let base = match params.sanitize() {
        Ok(p) => p,
        Err(e) => { return Err(HasherError::Policy(e)); },
    };
    let probe_password = "benchmark-probe-password";
    let mut mem = base.memory_mib;
    let ghost mut k: nat = 0;
    loop
        invariant
            (if mem < max_mib { mem as int } else { max_mib as int }) == climb(
                params.memory_mib,
                max_mib,
                k,
            ),
            base == params,
            base.parallelism <= u32::MAX / 8,
            meets_policy(base),
            max_mib >= 64,
            mem >= base.memory_mib,
        decreases (if mem < max_mib { max_mib - mem } else { 0 }),
    {
        let capped = if mem < max_mib {
            mem
        } else {
            max_mib
        };
        let try_params = SecurityParams {
            memory_mib: capped,
            iterations: base.iterations,
            parallelism: base.parallelism,
        };
        let _accepted = build_params(try_params)?;
        let salt = fresh_salt();
        let start = instant_now();
        match argon2_hash(
            try_params.memory_mib * 1024,
            try_params.iterations,
            try_params.parallelism,
            probe_password.as_bytes(),
            &salt,
        ) {
            Ok(_) => {},
            Err(e) => { return Err(HasherError::Hash(e)); },
        }
        let dur = elapsed_nanos(&start);
        if dur >= 100_000_000u128 {
            return Ok((try_params, dur));
        }
        if mem >= max_mib {
            return Ok((try_params, dur));
        }
        let next = next_memory_exec(mem);
        mem = if next < max_mib {
            next
        } else {
            max_mib
        };
        proof {
            k = k + 1;
        }
    }
}

} // verus!
