use vstd::prelude::*;

use super::chain::{self, audit_text, chained_hash, genesis_hash};
use super::signer::{signature_check, signature_text, SignerWrap};
use crate::codec::{self, decimal, signed_decimal, trimmed, utf8_bytes};

verus! {

/// A stored audit entry. The payload is its canonical JSON text and the timestamp its
/// RFC 3339 text, exactly as they are hashed.
#[derive(Debug, Clone)]
pub struct AuditLog {
    pub id: i64,
    pub event_type: String,
    pub payload_json: String,
    pub timestamp_rfc3339: String,
    pub prev_hash: String,
    pub signature: String,
}

/// The hash of an entry: over its audit text and the previous hash it carries.
pub open spec fn entry_hash(log: AuditLog) -> Seq<char> {
    chained_hash(
        utf8_bytes(audit_text(log.event_type@, log.timestamp_rfc3339@, log.payload_json@)),
        log.prev_hash@,
    )
}

/// The outcome of a verification, as reported.
#[derive(Debug, Clone)]
pub struct VerifyResp {
    pub ok: bool,
    pub checked: usize,
    pub error: Option<String>,
}

/// A report as plain values: whether the chain holds, how many entries were checked and
/// the message, if any.
pub open spec fn resp_view(r: VerifyResp) -> (bool, nat, Option<Seq<char>>) {
    (
        r.ok,
        r.checked as nat,
        match r.error {
            Some(e) => Some(e@),
            None => None,
        },
    )
}

/// The report for an entry whose signature does not verify.
pub open spec fn invalid_signature_message(id: i64, position: nat) -> Seq<char> {
    "firma inválida en id="@ + signed_decimal(id as int) + " (posición "@ + decimal(position)
        + ")"@
}

/// The report for two neighbouring entries whose link does not hold.
pub open spec fn broken_link_message(id: i64, next_id: i64) -> Seq<char> {
    "cadena rota entre id="@ + signed_decimal(id as int) + " y id="@ + signed_decimal(
        next_id as int,
    ) + " (next.prev_hash != current_hash)"@
}

/// The message of an undecodable signature.
pub open spec fn bad_signature_message() -> Seq<char> {
    "signature decode/parse error"@
}

/// The verdict on `logs` from position `i` on, under the public key `public`: entries
/// are checked in order; an undecodable signature is an error, a signature that does not
/// verify or a next entry whose previous hash is not this entry's hash ends the check.
pub open spec fn verdict_from(logs: Seq<AuditLog>, public: Seq<u8>, i: nat) -> Result<
    (bool, nat, Option<Seq<char>>),
    Seq<char>,
>
    decreases logs.len() - i,
{
    if i >= logs.len() {
        Ok((true, logs.len(), None))
    } else {
        let h = entry_hash(logs[i as int]);
        match signature_check(public, h, logs[i as int].signature@) {
            None => Err(bad_signature_message()),
            Some(false) => Ok(
                (false, i + 1, Some(invalid_signature_message(logs[i as int].id, i))),
            ),
            Some(true) => if i + 1 < logs.len() && logs[i + 1 as int].prev_hash@ != h {
                Ok(
                    (
                        false,
                        i + 1,
                        Some(broken_link_message(logs[i as int].id, logs[i + 1 as int].id)),
                    ),
                )
            } else {
                verdict_from(logs, public, i + 1)
            },
        }
    }
}

/// The verdict on a whole log.
pub open spec fn verdict(logs: Seq<AuditLog>, public: Seq<u8>) -> Result<
    (bool, nat, Option<Seq<char>>),
    Seq<char>,
> {
    verdict_from(logs, public, 0)
}

fn invalid_signature_text(id: i64, position: usize) -> (r: String)
    ensures
        r@ == invalid_signature_message(id, position as nat),
{
    let mut s = String::from_str("firma inválida en id=");
    let a = codec::signed_decimal_string(id);
    s.append(a.as_str());
    s.append(" (posición ");
    let b = codec::decimal_string(position as u64);
    s.append(b.as_str());
    s.append(")");
    proof {
        assert(s@ =~= invalid_signature_message(id, position as nat));
    }
    s
}

fn broken_link_text(id: i64, next_id: i64) -> (r: String)
    ensures
        r@ == broken_link_message(id, next_id),
{
    let mut s = String::from_str("cadena rota entre id=");
    let a = codec::signed_decimal_string(id);
    s.append(a.as_str());
    s.append(" y id=");
    let b = codec::signed_decimal_string(next_id);
    s.append(b.as_str());
    s.append(" (next.prev_hash != current_hash)");
    proof {
        assert(s@ =~= broken_link_message(id, next_id));
    }
    s
}

/// The hash of one entry.
pub fn entry_hash_of(log: &AuditLog) -> (r: String)
    ensures
        r@ == entry_hash(*log),
{
    let data = chain::audit_data_bytes(
        log.event_type.as_str(),
        log.payload_json.as_str(),
        log.timestamp_rfc3339.as_str(),
    );
    chain::compute_current_hash_hex(data.as_slice(), log.prev_hash.as_str())
}

/// Verifies a log in id order: every signature against its entry's hash, and every link
/// from an entry's hash to the next entry's previous hash. The report says where the
/// first failure is; an undecodable signature is an error.
pub fn verify_chain(logs: &[AuditLog], signer: &SignerWrap) -> (r: Result<VerifyResp, String>)
    ensures
        r matches Ok(resp) ==> verdict(logs@, signer.public()) == Ok::<_, Seq<char>>(
            resp_view(resp),
        ),
        r matches Err(e) ==> verdict(logs@, signer.public()) == Err::<
            (bool, nat, Option<Seq<char>>),
            _,
        >(e@),
        r matches Ok(resp) ==> (resp.ok <==> forall|j: int|
            0 <= j < logs@.len() ==> entry_sound(logs@, signer.public(), j)),
        r matches Ok(resp) ==> (resp.ok ==> resp.checked == logs@.len() && resp.error is None),
        r matches Ok(resp) ==> (!resp.ok ==> 0 < resp.checked <= logs@.len() && resp.error is Some
            && !entry_sound(logs@, signer.public(), resp.checked - 1)),
{
    proof {
        lemma_verdict_reports_soundness(logs@, signer.public());
    }
    let n = logs.len();
    let mut i: usize = 0;
    while i < n
        invariant
            n == logs@.len(),
            i <= n,
            verdict(logs@, signer.public()) == verdict_from(logs@, signer.public(), i as nat),
        decreases n - i,
    {
        let cur = &logs[i];
        let current_hash = entry_hash_of(cur);
        let sig_ok = match signer.verify_current_hash_b64(
            current_hash.as_str(),
            cur.signature.as_str(),
        ) {
            Ok(b) => b,
            Err(e) => {
                let m = e.message();
                proof {
                    reveal_strlit("signature decode/parse error");
                }
                return Err(m);
            },
        };
        if !sig_ok {
            let msg = invalid_signature_text(cur.id, i);
            proof {
                assert(!entry_sound(logs@, signer.public(), i as int));
            }
            return Ok(VerifyResp { ok: false, checked: i + 1, error: Some(msg) });
        }
        if i + 1 < n {
            let next = &logs[i + 1];
            if !(next.prev_hash == current_hash) {
                let msg = broken_link_text(cur.id, next.id);
                proof {
                    assert(!entry_sound(logs@, signer.public(), i as int));
                }
                return Ok(VerifyResp { ok: false, checked: i + 1, error: Some(msg) });
            }
        }
        i = i + 1;
    }
    Ok(VerifyResp { ok: true, checked: n, error: None })
}

/// Whether entry `i` of `logs` is sound: its signature verifies its hash, and the next
/// entry, if any, carries that hash as its previous hash.
pub open spec fn entry_sound(logs: Seq<AuditLog>, public: Seq<u8>, i: int) -> bool {
    &&& signature_check(public, entry_hash(logs[i]), logs[i].signature@) == Some(true)
    &&& i + 1 < logs.len() ==> logs[i + 1].prev_hash@ == entry_hash(logs[i])
}

proof fn lemma_verdict_from_ok(logs: Seq<AuditLog>, public: Seq<u8>, i: nat)
    requires
        i <= logs.len(),
    ensures
        verdict_from(logs, public, i) == Ok::<_, Seq<char>>((true, logs.len(), None::<Seq<char>>))
            <==> (forall|j: int| i <= j < logs.len() ==> entry_sound(logs, public, j)),
    decreases logs.len() - i,
{
    if i < logs.len() {
        lemma_verdict_from_ok(logs, public, i + 1);
        if verdict_from(logs, public, i) == Ok::<_, Seq<char>>(
            (true, logs.len(), None::<Seq<char>>),
        ) {
            assert forall|j: int| i <= j < logs.len() implies entry_sound(logs, public, j) by {
                if j > i {
                } else {
                }
            }
        }
        if forall|j: int| i <= j < logs.len() ==> entry_sound(logs, public, j) {
            assert(entry_sound(logs, public, i as int));
        }
    }
}

/// A log passes verification exactly when every entry is sound: each signature verifies
/// its entry's hash and each entry carries the previous entry's hash.
pub proof fn lemma_verdict_ok_iff_sound(logs: Seq<AuditLog>, public: Seq<u8>)
    ensures
        verdict(logs, public) == Ok::<_, Seq<char>>((true, logs.len(), None::<Seq<char>>))
            <==> (forall|j: int| 0 <= j < logs.len() ==> entry_sound(logs, public, j)),
{
    lemma_verdict_from_ok(logs, public, 0);
}

proof fn lemma_verdict_from_report(logs: Seq<AuditLog>, public: Seq<u8>, i: nat)
    requires
        i <= logs.len(),
    ensures
        verdict_from(logs, public, i) matches Ok((ok, checked, error)) ==> {
            &&& ok <==> (forall|j: int| i <= j < logs.len() ==> entry_sound(logs, public, j))
            &&& ok ==> checked == logs.len() && error is None
            &&& !ok ==> {
                &&& i < checked <= logs.len()
                &&& error is Some
                &&& !entry_sound(logs, public, checked - 1)
                &&& forall|j: int| i <= j < checked - 1 ==> entry_sound(logs, public, j)
            }
        },
    decreases logs.len() - i,
{
    if i < logs.len() {
        lemma_verdict_from_report(logs, public, i + 1);
        if verdict_from(logs, public, i) is Ok && !entry_sound(logs, public, i as int) {
            assert(!(forall|j: int| i <= j < logs.len() ==> entry_sound(logs, public, j)));
        }
        if verdict_from(logs, public, i) is Ok && entry_sound(logs, public, i as int) {
            if forall|j: int| i + 1 <= j < logs.len() ==> entry_sound(logs, public, j) {
                assert forall|j: int| i <= j < logs.len() implies entry_sound(logs, public, j) by {
                    if j > i {
                    }
                }
            }
            if !(forall|j: int| i + 1 <= j < logs.len() ==> entry_sound(logs, public, j)) {
                let j0 = choose|j: int| i + 1 <= j < logs.len() && !entry_sound(logs, public, j);
                assert(!entry_sound(logs, public, j0));
            }
        }
    }
}

/// What a report says is what the log is: it is valid exactly when every entry is sound
/// (each signature verifies its entry's hash, each next entry carries that hash); a valid
/// report has checked every entry and carries no error; an invalid one names, through its
/// count, the first entry that is not sound, all entries before it being sound.
pub proof fn lemma_verdict_reports_soundness(logs: Seq<AuditLog>, public: Seq<u8>)
    ensures
        verdict(logs, public) matches Ok((ok, checked, error)) ==> {
            &&& ok <==> (forall|j: int| 0 <= j < logs.len() ==> entry_sound(logs, public, j))
            &&& ok ==> checked == logs.len() && error is None
            &&& !ok ==> {
                &&& 0 < checked <= logs.len()
                &&& error is Some
                &&& !entry_sound(logs, public, checked - 1)
                &&& forall|j: int| 0 <= j < checked - 1 ==> entry_sound(logs, public, j)
            }
        },
{
    lemma_verdict_from_report(logs, public, 0);
}

/// The previous hash that the next entry appended to `logs` must carry.
pub open spec fn expected_prev_hash(logs: Seq<AuditLog>) -> Seq<char> {
    if logs.len() == 0 {
        genesis_hash()
    } else {
        entry_hash(logs.last())
    }
}

/// Appending keeps a log valid: an entry that carries the last entry's hash (the genesis
/// hash on an empty log) and whose signature verifies its own hash extends a log that
/// passes verification into one that passes.
pub proof fn lemma_append_keeps_valid(logs: Seq<AuditLog>, public: Seq<u8>, entry: AuditLog)
    requires
        verdict(logs, public) == Ok::<_, Seq<char>>((true, logs.len(), None::<Seq<char>>)),
        entry.prev_hash@ == expected_prev_hash(logs),
        signature_check(public, entry_hash(entry), entry.signature@) == Some(true),
    ensures
        verdict(logs.push(entry), public) == Ok::<_, Seq<char>>(
            (true, logs.len() + 1, None::<Seq<char>>),
        ),
{
    let longer = logs.push(entry);
    lemma_verdict_ok_iff_sound(logs, public);
    lemma_verdict_ok_iff_sound(longer, public);
    assert forall|j: int| 0 <= j < longer.len() implies entry_sound(longer, public, j) by {
        if j < logs.len() {
            assert(entry_sound(logs, public, j));
            assert(longer[j] == logs[j]);
            if j + 1 < logs.len() {
                assert(longer[j + 1] == logs[j + 1]);
            }
        }
    }
}

/// The previous hash for the next entry, given the last stored entry (if any).
pub fn next_prev_hash(last: Option<&AuditLog>) -> (r: String)
    ensures
        last matches Some(l) ==> r@ == entry_hash(*l),
        last is None ==> r@ == genesis_hash(),
{
    match last {
        Some(l) => entry_hash_of(l),
        None => chain::genesis_prev_hash(),
    }
}

/// Signs a new entry: the signature over the hash of its event type, timestamp, payload
/// and previous hash. The signature checks against that hash under the signer's key.
pub fn sign_entry(
    signer: &SignerWrap,
    event_type: &str,
    payload_json: &str,
    timestamp_rfc3339: &str,
    prev_hash: &str,
) -> (r: String)
    ensures
        ({
            let h = chained_hash(
                utf8_bytes(audit_text(event_type@, timestamp_rfc3339@, payload_json@)),
                prev_hash@,
            );
            &&& r@ == signature_text(signer.seed(), h)
            &&& signer.wf() ==> signature_check(signer.public(), h, r@) == Some(true)
        }),
{
    let data = chain::audit_data_bytes(event_type, payload_json, timestamp_rfc3339);
    let current_hash = chain::compute_current_hash_hex(data.as_slice(), prev_hash);
    proof {
        codec::lemma_hex_roundtrip(
            chain::sha256_digest(data@ + utf8_bytes(prev_hash@)),
        );
    }
    signer.sign_current_hash_b64(current_hash.as_str())
}

/// The report served for a verification that could not run: not valid, nothing checked,
/// with the error.
pub fn verify_response(r: Result<VerifyResp, String>) -> (resp: VerifyResp)
    ensures
        r matches Ok(v) ==> resp == v,
        r matches Err(e) ==> !resp.ok && resp.checked == 0 && resp.error == Some(e),
{
    match r {
        Ok(v) => v,
        Err(e) => VerifyResp { ok: false, checked: 0, error: Some(e) },
    }
}

/// Whether an event may be queued: its type is not blank once trimmed.
pub fn event_type_accepted(event_type: &str) -> (r: bool)
    ensures
        r == (trimmed(event_type@).len() > 0),
{
    !codec::trim(event_type).is_empty()
}

} // verus!
