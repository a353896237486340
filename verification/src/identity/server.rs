use vstd::prelude::*;

use super::hasher::{self, phc_verifies, SecurityParams};
use crate::codec::{self, trimmed, utf8_bytes};

verus! {

/// A registered account: its id, name and Argon2 PHC password hash.
#[derive(Debug, Clone)]
pub struct User {
    pub id: u64,
    pub username: String,
    pub password_hash: String,
}

/// Whether no two users in `users` share a name.
pub open spec fn names_unique(users: Seq<User>) -> bool {
    forall|i: int, j: int|
        0 <= i < users.len() && 0 <= j < users.len() && i != j ==> #[trigger] users[i].username@
            != #[trigger] users[j].username@
}

/// Whether some user in `users` is named `name`.
pub open spec fn has_user(users: Seq<User>, name: Seq<char>) -> bool {
    exists|i: int| 0 <= i < users.len() && #[trigger] users[i].username@ == name
}

/// The user named `name`, if there is one.
pub open spec fn user_named(users: Seq<User>, name: Seq<char>) -> Option<User> {
    if has_user(users, name) {
        Some(users[choose|i: int| 0 <= i < users.len() && #[trigger] users[i].username@ == name])
    } else {
        None
    }
}

/// With unique names, the user at any index holding a name is the user with that name.
proof fn lemma_user_named_at(users: Seq<User>, name: Seq<char>, i: int)
    requires
        names_unique(users),
        0 <= i < users.len(),
        users[i].username@ == name,
    ensures
        user_named(users, name) == Some(users[i]),
{
    let k = choose|k: int| 0 <= k < users.len() && #[trigger] users[k].username@ == name;
    assert(users[k].username@ == name);
}

/// Adding an account leaves the account found under every other name as it was.
proof fn lemma_user_named_push(users: Seq<User>, u: User, name: Seq<char>)
    requires
        names_unique(users),
        names_unique(users.push(u)),
        u.username@ != name,
    ensures
        user_named(users.push(u), name) == user_named(users, name),
{
    let after = users.push(u);
    if has_user(users, name) {
        let i = choose|i: int| 0 <= i < users.len() && #[trigger] users[i].username@ == name;
        assert(after[i] == users[i]);
        lemma_user_named_at(users, name, i);
        lemma_user_named_at(after, name, i);
    } else {
        if has_user(after, name) {
            let i = choose|i: int| 0 <= i < after.len() && #[trigger] after[i].username@ == name;
            if i < users.len() {
                assert(after[i] == users[i]);
            }
        }
    }
}

/// The accounts, by unique name, and the last id handed out.
pub struct UserDirectory {
    users: Vec<User>,
    next_id: u64,
}

/// Why a registration was refused.
#[derive(Debug)]
pub enum RegisterError {
    /// The name is blank or the password empty.
    MissingCredentials,
    /// Hashing the password failed.
    HashFailed(hasher::HasherError),
    /// The name is taken.
    Conflict,
}

impl UserDirectory {
    /// The accounts.
    pub closed spec fn users(self) -> Seq<User> {
        self.users@
    }

    /// The last id handed out (0 before any).
    pub closed spec fn last_id(self) -> u64 {
        self.next_id
    }

    /// Names are unique.
    #[verifier::type_invariant]
    spec fn wf(self) -> bool {
        names_unique(self.users@)
    }

    /// Whether logging in as `name` with `password` (as bytes) is accepted: the account
    /// exists and its hash verifies the password.
    pub open spec fn accepts(self, name: Seq<char>, password: Seq<u8>) -> bool {
        match user_named(self.users(), name) {
            Some(u) => phc_verifies(u.password_hash@, password),
            None => false,
        }
    }

    pub fn new() -> (r: Self)
        ensures
            r.users() == Seq::<User>::empty(),
            r.last_id() == 0,
    {
        UserDirectory { users: Vec::new(), next_id: 0 }
    }

    /// The index of the account named `name`.
    fn position(&self, name: &str) -> (r: Option<usize>)
        ensures
            r matches Some(i) ==> i < self.users@.len() && self.users@[i as int].username@
                == name@,
            r is None ==> !has_user(self.users@, name@),
    {
        let wanted = String::from_str(name);
        let mut i: usize = 0;
        while i < self.users.len()
            invariant
                i <= self.users@.len(),
                wanted@ == name@,
                forall|j: int| 0 <= j < i ==> #[trigger] self.users@[j].username@ != name@,
            decreases self.users@.len() - i,
        {
            if self.users[i].username == wanted {
                return Some(i);
            }
            i = i + 1;
        }
        None
    }

    /// The account named `name`.
    pub fn find(&self, name: &str) -> (r: Option<&User>)
        ensures
            r matches Some(u) ==> user_named(self.users(), name@) == Some(*u),
            r is None ==> user_named(self.users(), name@) is None,
    {
        proof {
            use_type_invariant(self);
        }
        match self.position(name) {
            Some(i) => {
                proof {
                    lemma_user_named_at(self.users@, name@, i as int);
                }
                Some(&self.users[i])
            },
            None => None,
        }
    }

    /// Records an account with an already computed hash. An id is taken first (the last id
    /// plus one) even when the name turns out to be taken; a taken name leaves the
    /// accounts unchanged.
    pub fn register_hashed(&mut self, username: &str, password_hash: String) -> (r: Result<
        u64,
        RegisterError,
    >)
        requires
            old(self).last_id() < u64::MAX,
        ensures
            final(self).last_id() == old(self).last_id() + 1,
            has_user(old(self).users(), username@) ==> (r matches Err(RegisterError::Conflict)
                && final(self).users() == old(self).users()),
            !has_user(old(self).users(), username@) ==> r == Ok::<u64, RegisterError>(
                (old(self).last_id() + 1) as u64,
            ),
            r matches Ok(id) ==> ({
                let after = final(self).users();
                &&& after.len() == old(self).users().len() + 1
                &&& after.drop_last() == old(self).users()
                &&& after.last().id == id
                &&& after.last().username@ == username@
                &&& after.last().password_hash@ == password_hash@
            }),
            r matches Ok(id) ==> user_named(final(self).users(), username@) == Some(
                final(self).users().last(),
            ),
            forall|name: Seq<char>|
                name != username@ ==> #[trigger] user_named(final(self).users(), name)
                    == user_named(old(self).users(), name),
    {
        proof {
            use_type_invariant(&*self);
        }
        self.next_id = self.next_id + 1;
        let id = self.next_id;
        match self.position(username) {
            Some(_) => Err(RegisterError::Conflict),
            None => {
                let user = User { id, username: username.to_string(), password_hash };
                let mut users: Vec<User> = Vec::new();
                std::mem::swap(&mut users, &mut self.users);
                let ghost before = users@;
                users.push(user);
                proof {
                    assert(users@.drop_last() =~= before);
                    assert forall|i: int, j: int|
                        0 <= i < users@.len() && 0 <= j < users@.len() && i != j
                            implies #[trigger] users@[i].username@
                        != #[trigger] users@[j].username@ by {
                        if i < before.len() && j < before.len() {
                            assert(users@[i] == before[i]);
                            assert(users@[j] == before[j]);
                        } else if i < before.len() {
                            assert(users@[i] == before[i]);
                        } else {
                            assert(users@[j] == before[j]);
                        }
                    }
                    lemma_user_named_at(users@, username@, before.len() as int);
                    assert(users@ == before.push(users@.last()));
                    assert forall|name: Seq<char>| name != username@ implies #[trigger] user_named(
                        users@,
                        name,
                    ) == user_named(before, name) by {
                        lemma_user_named_push(before, users@.last(), name);
                    }
                }
                self.users = users;
                Ok(id)
            },
        }
    }

    /// The last id handed out (0 before any).
    pub fn last_issued_id(&self) -> (r: u64)
        ensures
            r == self.last_id(),
    {
        self.next_id
    }

    /// Whether `password` logs in as `username`.
    pub fn login(&self, username: &str, password: &str) -> (r: bool)
        ensures
            r == self.accepts(username@, utf8_bytes(password@)),
    {
        match self.find(username) {
            Some(u) => hasher::verify_password(u.password_hash.as_str(), password),
            None => false,
        }
    }
}

/// Whether a registration request carries credentials: a name that is not blank once
/// trimmed, and a non-empty password.
pub fn credentials_present(username: &str, password: &str) -> (r: bool)
    ensures
        r == (trimmed(username@).len() > 0 && password@.len() > 0),
{
    !(codec::trim(username).is_empty() || password.is_empty())
}

/// A successful registration: the account's id and name and the stored hash.
#[derive(Debug, Clone)]
pub struct Registered {
    pub id: u64,
    pub username: String,
    pub password_hash: String,
}

/// Registers `username` with `password`: refuses missing credentials, hashes the password
/// under `params`, then records the account (taking an id even on a name conflict).
/// Once registered, the same password logs in.
pub fn register(dir: &mut UserDirectory, username: &str, password: &str, params: SecurityParams) -> (r:
    Result<Registered, RegisterError>)
    requires
        old(dir).last_id() < u64::MAX,
        params.parallelism <= u32::MAX / 8,
    ensures
        !(trimmed(username@).len() > 0 && password@.len() > 0) ==> (r matches Err(
            RegisterError::MissingCredentials,
        ) && *final(dir) == *old(dir)),
        r matches Err(RegisterError::HashFailed(_)) ==> *final(dir) == *old(dir),
        r matches Err(RegisterError::Conflict) ==> (final(dir).users() == old(dir).users()
            && has_user(old(dir).users(), username@)),
        trimmed(username@).len() > 0 && password@.len() > 0 && !hasher::buildable(params) ==> r
            matches Err(RegisterError::HashFailed(_)),
        r matches Ok(reg) ==> {
            &&& !has_user(old(dir).users(), username@)
            &&& reg.id == old(dir).last_id() + 1
            &&& reg.username@ == username@
            &&& final(dir).accepts(username@, utf8_bytes(password@))
            &&& (user_named(final(dir).users(), username@) matches Some(u) && u.id == reg.id
                && u.password_hash@ == reg.password_hash@)
        },
        forall|name: Seq<char>, password: Seq<u8>|
            name != username@ ==> #[trigger] final(dir).accepts(name, password) == old(dir).accepts(
                name,
                password,
            ),
{
    if !credentials_present(username, password) {
        return Err(RegisterError::MissingCredentials);
    }
    let hashed = match hasher::hash_password(password, params) {
        Ok(h) => h,
        Err(e) => { return Err(RegisterError::HashFailed(e)); },
    };
    let stored = hashed.clone();
    let id = dir.register_hashed(username, stored)?;
    Ok(Registered { id, username: username.to_string(), password_hash: hashed })
}

/// The HTTP status of a registration outcome: 201 created, 400 missing credentials,
/// 500 hashing failure, 409 taken name.
pub fn register_status(r: &Result<Registered, RegisterError>) -> (s: u16)
    ensures
        r is Ok ==> s == 201,
        r matches Err(RegisterError::MissingCredentials) ==> s == 400,
        r matches Err(RegisterError::HashFailed(_)) ==> s == 500,
        r matches Err(RegisterError::Conflict) ==> s == 409,
{
    match r {
        Ok(_) => 201,
        Err(RegisterError::MissingCredentials) => 400,
        Err(RegisterError::HashFailed(_)) => 500,
        Err(RegisterError::Conflict) => 409,
    }
}

/// The HTTP status of a login outcome: 200 when accepted, else 401.
pub fn login_status(ok: bool) -> (s: u16)
    ensures
        s == (if ok { 200u16 } else { 401u16 }),
{
    if ok {
        200
    } else {
        401
    }
}

/// The outcome of tuning as reported: the parameters, the elapsed whole milliseconds and
/// whether they reach 100.
#[derive(Debug, Clone, Copy, PartialEq, Eq)]
pub struct BenchmarkReport {
    pub memory_mib: u32,
    pub iterations: u32,
    pub parallelism: u32,
    pub elapsed_ms: u128,
    pub meets_100ms: bool,
}

/// Reports tuned parameters and the elapsed time given in nanoseconds.
pub fn benchmark_report(p: SecurityParams, elapsed_nanos: u128) -> (r: BenchmarkReport)
    ensures
        r.memory_mib == p.memory_mib,
        r.iterations == p.iterations,
        r.parallelism == p.parallelism,
        r.elapsed_ms == elapsed_nanos / 1_000_000,
        r.meets_100ms == (elapsed_nanos / 1_000_000 >= 100),
{
    let ms = elapsed_nanos / 1_000_000;
    BenchmarkReport {
        memory_mib: p.memory_mib,
        iterations: p.iterations,
        parallelism: p.parallelism,
        elapsed_ms: ms,
        meets_100ms: ms >= 100,
    }
}

} // verus!
