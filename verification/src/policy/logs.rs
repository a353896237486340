use vstd::prelude::*;

use super::keys::utf8_len;

verus! {

/// The total UTF-8 size of a sequence of log entries.
pub open spec fn entries_size(entries: Seq<String>) -> nat
    decreases entries.len(),
{
    if entries.len() == 0 {
        0
    } else {
        entries_size(entries.drop_last()) + utf8_len(entries.last()@)
    }
}

/// A prefix never weighs more than the whole sequence.
proof fn lemma_entries_size_prefix(entries: Seq<String>, i: int)
    requires
        0 <= i <= entries.len(),
    ensures
        entries_size(entries.take(i)) <= entries_size(entries),
    decreases entries.len() - i,
{
    if i < entries.len() {
        lemma_entries_size_prefix(entries, i + 1);
        assert(entries.take(i + 1).drop_last() =~= entries.take(i));
    } else {
        assert(entries.take(i) =~= entries);
    }
}

/// Access log entries.
#[derive(Debug, Default)]
pub struct AccessLogs {
    entries: Vec<String>,
}

impl View for AccessLogs {
    type V = Seq<String>;

    closed spec fn view(&self) -> Seq<String> {
        self.entries@
    }
}

impl AccessLogs {
    pub fn new(entries: Vec<String>) -> (r: Self)
        ensures
            r@ == entries@,
    {
        AccessLogs { entries }
    }

    pub fn add(&mut self, entry: &str)
        ensures
            final(self)@.len() == old(self)@.len() + 1,
            final(self)@.drop_last() == old(self)@,
            final(self)@.last()@ == entry@,
    {
        self.entries.push(entry.to_string());
        proof {
            assert(final(self)@.drop_last() =~= old(self)@);
        }
    }

    pub fn entries(&self) -> (r: &[String])
        ensures
            r@ == self@,
    {
        self.entries.as_slice()
    }

    /// The estimated size of the logs in bytes.
    pub open spec fn estimated_size(self) -> nat {
        entries_size(self@)
    }

    /// Estimated size in bytes: the sum of the entries' UTF-8 lengths.
    pub fn size_bytes_estimate(&self) -> (r: usize)
        requires
            self.estimated_size() <= usize::MAX,
        ensures
            r == self.estimated_size(),
    {
        let mut total: usize = 0;
        let mut i: usize = 0;
        while i < self.entries.len()
            invariant
                i <= self.entries@.len(),
                total == entries_size(self.entries@.take(i as int)),
                entries_size(self.entries@) <= usize::MAX,
            decreases self.entries@.len() - i,
        {
            let n = self.entries[i].as_str().len();
            proof {
                assert(self.entries@.take(i + 1).drop_last() =~= self.entries@.take(i as int));
                lemma_entries_size_prefix(self.entries@, i + 1);
            }
            total = total + n;
            i = i + 1;
        }
        proof {
            assert(self.entries@.take(i as int) =~= self.entries@);
        }
        total
    }
}

} // verus!
