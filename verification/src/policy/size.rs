use vstd::prelude::*;

use super::keys::KeyStorage;
use super::logs::AccessLogs;
use super::SecurityVisitor;

verus! {

/// A visitor that adds up the estimated sizes of the elements it visits.
#[derive(Default)]
pub struct SizeAuditor {
    total: usize,
}

impl SizeAuditor {
    /// The running total.
    pub closed spec fn total(self) -> nat {
        self.total as nat
    }

    pub fn new() -> (r: Self)
        ensures
            r.total() == 0,
    {
        SizeAuditor { total: 0 }
    }

    pub fn total_bytes(&self) -> (r: usize)
        ensures
            r == self.total(),
    {
        self.total
    }

    fn add(&mut self, amount: usize)
        requires
            old(self).total + amount <= usize::MAX,
        ensures
            final(self).total == old(self).total + amount,
    {
        self.total = self.total + amount;
    }
}

impl SecurityVisitor for SizeAuditor {
    open spec fn can_visit_key_storage(self, storage: KeyStorage) -> bool {
        self.total() + storage.estimated_size() <= usize::MAX
    }

    open spec fn key_storage_visited(self, storage: KeyStorage, after: Self) -> bool {
        after.total() == self.total() + storage.estimated_size()
    }

    open spec fn can_visit_logs(self, logs: AccessLogs) -> bool {
        self.total() + logs.estimated_size() <= usize::MAX
    }

    open spec fn logs_visited(self, logs: AccessLogs, after: Self) -> bool {
        after.total() == self.total() + logs.estimated_size()
    }

    fn visit_key_storage(&mut self, storage: &KeyStorage) {
        let n = storage.size_bytes_estimate();
        self.add(n);
    }

    fn visit_logs(&mut self, logs: &AccessLogs) {
        let n = logs.size_bytes_estimate();
        self.add(n);
    }
}

} // verus!
