//! Auditing security elements (key stores, access logs) with visitors, by double dispatch:
//! an element accepts a visitor, which then runs the operation meant for that element.

pub mod expiration;
pub mod keys;
pub mod logs;
pub mod size;

pub use expiration::ExpirationChecker;
pub use keys::{KeyRecord, KeyStorage};
pub use logs::AccessLogs;
pub use size::SizeAuditor;

use vstd::prelude::*;

verus! {

/// An operation over each kind of security element.
///
/// Each visitor states, through its spec functions, when it may visit an element and
/// how its own state after the visit relates to its state before.
pub trait SecurityVisitor: Sized {
    /// Whether visiting `storage` from this state is allowed.
    spec fn can_visit_key_storage(self, storage: KeyStorage) -> bool;

    /// Whether `after` is this visitor's state after visiting `storage`.
    spec fn key_storage_visited(self, storage: KeyStorage, after: Self) -> bool;

    /// Whether visiting `logs` from this state is allowed.
    spec fn can_visit_logs(self, logs: AccessLogs) -> bool;

    /// Whether `after` is this visitor's state after visiting `logs`.
    spec fn logs_visited(self, logs: AccessLogs, after: Self) -> bool;

    fn visit_key_storage(&mut self, storage: &KeyStorage)
        requires
            old(self).can_visit_key_storage(*storage),
        ensures
            old(self).key_storage_visited(*storage, *final(self)),
    ;

    fn visit_logs(&mut self, logs: &AccessLogs)
        requires
            old(self).can_visit_logs(*logs),
        ensures
            old(self).logs_visited(*logs, *final(self)),
    ;
}

/// A security element that hands itself to the visitor operation meant for its kind.
pub trait SecurityElement<V: SecurityVisitor> {
    /// Whether `visitor` may be accepted by this element.
    spec fn accepts(&self, visitor: V) -> bool;

    /// Whether `after` is the visitor's state once this element has accepted `before`.
    spec fn accepted(&self, before: V, after: V) -> bool;

    fn accept(&self, visitor: &mut V)
        requires
            self.accepts(*old(visitor)),
        ensures
            self.accepted(*old(visitor), *final(visitor)),
    ;
}

impl<V: SecurityVisitor> SecurityElement<V> for KeyStorage {
    open spec fn accepts(&self, visitor: V) -> bool {
        visitor.can_visit_key_storage(*self)
    }

    open spec fn accepted(&self, before: V, after: V) -> bool {
        before.key_storage_visited(*self, after)
    }

    fn accept(&self, visitor: &mut V) {
        visitor.visit_key_storage(self);
    }
}

impl<V: SecurityVisitor> SecurityElement<V> for AccessLogs {
    open spec fn accepts(&self, visitor: V) -> bool {
        visitor.can_visit_logs(*self)
    }

    open spec fn accepted(&self, before: V, after: V) -> bool {
        before.logs_visited(*self, after)
    }

    fn accept(&self, visitor: &mut V) {
        visitor.visit_logs(self);
    }
}

} // verus!
