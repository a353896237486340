use vstd::prelude::*;

use super::keys::{KeyRecord, KeyStorage};
use super::logs::AccessLogs;
use super::SecurityVisitor;

verus! {

/// The identifiers of the keys in `keys` that are expired in `current_year`, in order.
/// A key is expired when its expiry year is strictly before the current year.
pub open spec fn expired_ids_in(keys: Seq<KeyRecord>, current_year: u32) -> Seq<String>
    decreases keys.len(),
{
    if keys.len() == 0 {
        Seq::empty()
    } else {
        let rest = expired_ids_in(keys.drop_last(), current_year);
        if keys.last().expires_year < current_year {
            rest.push(keys.last().id)
        } else {
            rest
        }
    }
}

/// Whether `k` is expired in `current_year`: its expiry year is strictly before it.
pub open spec fn is_expired(k: KeyRecord, current_year: u32) -> bool {
    k.expires_year < current_year
}

/// The expired identifiers are exactly the identifiers of the keys expired in
/// `current_year`, one per such key, in the keys' order.
pub proof fn lemma_expired_ids_are_the_expired_keys(keys: Seq<KeyRecord>, current_year: u32)
    ensures
        expired_ids_in(keys, current_year) == keys.filter(|k: KeyRecord| is_expired(k, current_year))
            .map_values(|k: KeyRecord| k.id),
        expired_ids_in(keys, current_year).len() == keys.filter(
            |k: KeyRecord| is_expired(k, current_year),
        ).len(),
        forall|i: int|
            0 <= i < keys.len() && is_expired(#[trigger] keys[i], current_year) ==> expired_ids_in(
                keys,
                current_year,
            ).contains(keys[i].id),
    decreases keys.len(),
{
    reveal(Seq::filter);
    let pred = |k: KeyRecord| is_expired(k, current_year);
    if keys.len() > 0 {
        let rest = keys.drop_last();
        lemma_expired_ids_are_the_expired_keys(rest, current_year);
        assert(keys.filter(pred) == if pred(keys.last()) {
            rest.filter(pred).push(keys.last())
        } else {
            rest.filter(pred)
        });
        if pred(keys.last()) {
            assert(rest.filter(pred).push(keys.last()).map_values(|k: KeyRecord| k.id)
                =~= rest.filter(pred).map_values(|k: KeyRecord| k.id).push(keys.last().id));
        }
        assert forall|i: int|
            0 <= i < keys.len() && is_expired(#[trigger] keys[i], current_year) implies expired_ids_in(
                keys,
                current_year,
            ).contains(keys[i].id) by {
            if i < keys.len() - 1 {
                assert(rest[i] == keys[i]);
                assert(is_expired(rest[i], current_year));
                let ids = expired_ids_in(rest, current_year);
                assert(ids.contains(keys[i].id));
                let w = choose|w: int| 0 <= w < ids.len() && ids[w] == keys[i].id;
                if pred(keys.last()) {
                    assert(ids.push(keys.last().id)[w] == keys[i].id);
                }
            } else {
                let ids = expired_ids_in(rest, current_year);
                assert(ids.push(keys.last().id)[ids.len() as int] == keys[i].id);
            }
        }
    } else {
        assert(keys.filter(pred).map_values(|k: KeyRecord| k.id) =~= Seq::<String>::empty());
    }
}

/// A visitor that records the identifiers of expired keys.
pub struct ExpirationChecker {
    current_year: u32,
    expired: Vec<String>,
}

impl ExpirationChecker {
    /// The year against which keys are checked.
    pub closed spec fn year(self) -> u32 {
        self.current_year
    }

    /// The identifiers recorded so far.
    pub closed spec fn recorded(self) -> Seq<String> {
        self.expired@
    }

    pub fn new(current_year: u32) -> (r: Self)
        ensures
            r.year() == current_year,
            r.recorded() == Seq::<String>::empty(),
    {
        ExpirationChecker { current_year, expired: Vec::new() }
    }

    pub fn expired_ids(&self) -> (r: Vec<String>)
        ensures
            r@ == self.recorded(),
    {
        let mut out: Vec<String> = Vec::new();
        let mut i: usize = 0;
        while i < self.expired.len()
            invariant
                i <= self.expired@.len(),
                out@ == self.expired@.take(i as int),
            decreases self.expired@.len() - i,
        {
            out.push(self.expired[i].clone());
            proof {
                assert(out@ =~= self.expired@.take(i + 1));
            }
            i = i + 1;
        }
        proof {
            assert(self.expired@.take(i as int) =~= self.expired@);
        }
        out
    }

    fn mark_expired(&mut self, id: &String)
        ensures
            final(self).current_year == old(self).current_year,
            final(self).expired@ == old(self).expired@.push(*id),
    {
        self.expired.push(id.clone());
    }
}

impl SecurityVisitor for ExpirationChecker {
    open spec fn can_visit_key_storage(self, storage: KeyStorage) -> bool {
        true
    }

    open spec fn key_storage_visited(self, storage: KeyStorage, after: Self) -> bool {
        &&& after.year() == self.year()
        &&& after.recorded() == self.recorded() + storage@.filter(
            |k: KeyRecord| is_expired(k, self.year()),
        ).map_values(|k: KeyRecord| k.id)
    }

    open spec fn can_visit_logs(self, logs: AccessLogs) -> bool {
        true
    }

    open spec fn logs_visited(self, logs: AccessLogs, after: Self) -> bool {
        after == self
    }

    fn visit_key_storage(&mut self, storage: &KeyStorage) {
        let keys = storage.keys();
        let ghost start = self.expired@;
        let mut i: usize = 0;
        while i < keys.len()
            invariant
                i <= keys@.len(),
                keys@ == storage@,
                self.current_year == old(self).current_year,
                start == old(self).expired@,
                self.expired@ == start + expired_ids_in(keys@.take(i as int), self.current_year),
            decreases keys@.len() - i,
        {
            let key = &keys[i];
            proof {
                assert(keys@.take(i + 1).drop_last() =~= keys@.take(i as int));
            }
            if key.expires_year < self.current_year {
                self.mark_expired(&key.id);
            }
            proof {
                assert(self.expired@ =~= start + expired_ids_in(keys@.take(i + 1), self.current_year));
            }
            i = i + 1;
        }
        proof {
            assert(keys@.take(i as int) =~= keys@);
            lemma_expired_ids_are_the_expired_keys(keys@, self.current_year);
        }
    }

    fn visit_logs(&mut self, _logs: &AccessLogs) {
    }
}

} // verus!
