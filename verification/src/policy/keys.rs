use vstd::prelude::*;

verus! {

/// The number of bytes in the UTF-8 encoding of `s`.
pub open spec fn utf8_len(s: Seq<char>) -> nat {
    vstd::utf8::encode_utf8(s).len()
}

/// One key record: an identifier and the year in which the key expires.
#[derive(Debug, PartialEq, Eq)]
pub struct KeyRecord {
    pub id: String,
    pub expires_year: u32,
}

impl KeyRecord {
    pub fn new(id: &str, expires_year: u32) -> (r: Self)
        ensures
            r.id@ == id@,
            r.expires_year == expires_year,
    {
        KeyRecord { id: id.to_string(), expires_year }
    }
}

impl Clone for KeyRecord {
    fn clone(&self) -> (r: Self)
        ensures
            r == *self,
    {
        KeyRecord { id: self.id.clone(), expires_year: self.expires_year }
    }
}

/// The estimated size of one key record: its identifier's bytes plus four bytes for the year.
pub open spec fn record_size(k: KeyRecord) -> nat {
    utf8_len(k.id@) + 4
}

/// The estimated size of a sequence of key records.
pub open spec fn records_size(keys: Seq<KeyRecord>) -> nat
    decreases keys.len(),
{
    if keys.len() == 0 {
        0
    } else {
        records_size(keys.drop_last()) + record_size(keys.last())
    }
}

/// A prefix never weighs more than the whole sequence.
proof fn lemma_records_size_prefix(keys: Seq<KeyRecord>, i: int)
    requires
        0 <= i <= keys.len(),
    ensures
        records_size(keys.take(i)) <= records_size(keys),
    decreases keys.len() - i,
{
    if i < keys.len() {
        lemma_records_size_prefix(keys, i + 1);
        assert(keys.take(i + 1).drop_last() =~= keys.take(i));
    } else {
        assert(keys.take(i) =~= keys);
    }
}

/// A store of key records.
#[derive(Debug, Default)]
pub struct KeyStorage {
    keys: Vec<KeyRecord>,
}

impl View for KeyStorage {
    type V = Seq<KeyRecord>;

    closed spec fn view(&self) -> Seq<KeyRecord> {
        self.keys@
    }
}

impl KeyStorage {
    pub fn new(keys: Vec<KeyRecord>) -> (r: Self)
        ensures
            r@ == keys@,
    {
        KeyStorage { keys }
    }

    pub fn add(&mut self, key: KeyRecord)
        ensures
            final(self)@ == old(self)@.push(key),
    {
        self.keys.push(key);
    }

    pub fn keys(&self) -> (r: &[KeyRecord])
        ensures
            r@ == self@,
    {
        self.keys.as_slice()
    }

    /// The estimated size of the store in bytes.
    pub open spec fn estimated_size(self) -> nat {
        records_size(self@)
    }

    /// Estimated size in bytes: for each key, its identifier's UTF-8 length plus four.
    pub fn size_bytes_estimate(&self) -> (r: usize)
        requires
            self.estimated_size() <= usize::MAX,
        ensures
            r == self.estimated_size(),
    {
        let mut total: usize = 0;
        let mut i: usize = 0;
        proof {
            assert(self.keys@.take(0) =~= Seq::<KeyRecord>::empty());
        }
        while i < self.keys.len()
            invariant
                i <= self.keys@.len(),
                total == records_size(self.keys@.take(i as int)),
                records_size(self.keys@) <= usize::MAX,
            decreases self.keys@.len() - i,
        {
            let k = &self.keys[i];
            let n = k.id.as_str().len();
            proof {
                assert(self.keys@.take(i + 1).drop_last() =~= self.keys@.take(i as int));
                lemma_records_size_prefix(self.keys@, i + 1);
            }
            total = total + n + 4;
            i = i + 1;
        }
        proof {
            assert(self.keys@.take(i as int) =~= self.keys@);
        }
        total
    }
}

} // verus!
