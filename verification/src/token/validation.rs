use vstd::prelude::*;

pub use super::signer::Claims;

verus! {

/// Why a token could not be verified.
#[derive(Debug, Clone, PartialEq, Eq)]
pub enum VerifyError {
    MissingKid,
    PublicKeyNotFound(String),
    InvalidAlgorithm,
    Io(String),
    Jwt(String),
    Redis(String),
}

/// The description of a verification error.
pub open spec fn verify_error_text(e: VerifyError) -> Seq<char> {
    match e {
        VerifyError::MissingKid => "missing kid in jwt header"@,
        VerifyError::PublicKeyNotFound(k) => "public key not found for kid="@ + k@,
        VerifyError::InvalidAlgorithm => "jwt error: InvalidAlgorithm"@,
        VerifyError::Io(m) => "io error: "@ + m@,
        VerifyError::Jwt(m) => "jwt error: "@ + m@,
        VerifyError::Redis(m) => "redis error: "@ + m@,
    }
}

impl VerifyError {
    /// The human-readable description.
    pub fn message(&self) -> (r: String)
        ensures
            r@ == verify_error_text(*self),
    {
        match self {
            VerifyError::MissingKid => String::from_str("missing kid in jwt header"),
            VerifyError::PublicKeyNotFound(k) => {
                let mut s = String::from_str("public key not found for kid=");
                s.append(k.as_str());
                s
            },
            VerifyError::InvalidAlgorithm => String::from_str("jwt error: InvalidAlgorithm"),
            VerifyError::Io(m) => {
                let mut s = String::from_str("io error: ");
                s.append(m.as_str());
                s
            },
            VerifyError::Jwt(m) => {
                let mut s = String::from_str("jwt error: ");
                s.append(m.as_str());
                s
            },
            VerifyError::Redis(m) => {
                let mut s = String::from_str("redis error: ");
                s.append(m.as_str());
                s
            },
        }
    }
}

/// The signature algorithm named in a token header.
#[derive(Debug, Clone, Copy, PartialEq, Eq)]
pub enum AlgorithmKind {
    HS256,
    HS384,
    HS512,
    ES256,
    ES384,
    RS256,
    RS384,
    RS512,
    PS256,
    PS384,
    PS512,
    EdDSA,
}

/// Checks a token header: it must carry a key id, and only EdDSA is accepted (which
/// rules out `none`, symmetric and other algorithms). Gives the key id.
pub fn check_header(alg: AlgorithmKind, kid: Option<String>) -> (r: Result<String, VerifyError>)
    ensures
        kid is None ==> r == Err::<String, _>(VerifyError::MissingKid),
        kid is Some && alg != AlgorithmKind::EdDSA ==> r == Err::<String, _>(
            VerifyError::InvalidAlgorithm,
        ),
        kid is Some && alg == AlgorithmKind::EdDSA ==> (r matches Ok(k) && kid matches Some(
            given,
        ) && k == given),
{
    let kid = match kid {
        Some(k) => k,
        None => { return Err(VerifyError::MissingKid); },
    };
    match alg {
        AlgorithmKind::EdDSA => Ok(kid),
        _ => Err(VerifyError::InvalidAlgorithm),
    }
}

/// The claims a token must carry: `exp`, `iss` and `sub`.
pub fn required_spec_claims() -> (r: Vec<String>)
    ensures
        r@.len() == 3,
        r@[0]@ == "exp"@,
        r@[1]@ == "iss"@,
        r@[2]@ == "sub"@,
{
    let mut v: Vec<String> = Vec::new();
    v.push(String::from_str("exp"));
    v.push(String::from_str("iss"));
    v.push(String::from_str("sub"));
    v
}

/// The store key under which the public key for `kid` is published.
pub open spec fn published_key_name(kid: Seq<char>) -> Seq<char> {
    "jwk:"@ + kid
}

/// The store key under which the public key for `kid` is published: `jwk:<kid>`.
pub fn published_key(kid: &str) -> (r: String)
    ensures
        r@ == published_key_name(kid@),
{
    let mut s = String::from_str("jwk:");
    s.append(kid);
    s
}

/// The store key that names the active key id.
pub fn active_kid_key() -> (r: &'static str)
    ensures
        r@ == "jwk:active_kid"@,
{
    "jwk:active_kid"
}

/// The cache entry under which the fallback public key is kept.
pub open spec fn fallback_name() -> Seq<char> {
    "fallback"@
}

/// The map that a list of (key id, PEM) entries stands for; later entries win.
pub open spec fn entries_map(entries: Seq<(String, Vec<u8>)>) -> Map<Seq<char>, Seq<u8>>
    decreases entries.len(),
{
    if entries.len() == 0 {
        Map::empty()
    } else {
        entries_map(entries.drop_last()).insert(entries.last().0@, entries.last().1@)
    }
}

/// Whether the key ids of `entries` are distinct.
pub open spec fn kids_unique(entries: Seq<(String, Vec<u8>)>) -> bool {
    forall|i: int, j: int|
        0 <= i < entries.len() && 0 <= j < entries.len() && i != j ==> #[trigger] entries[i].0@
            != #[trigger] entries[j].0@
}

proof fn lemma_entries_map_has(entries: Seq<(String, Vec<u8>)>, i: int)
    requires
        kids_unique(entries),
        0 <= i < entries.len(),
    ensures
        entries_map(entries).contains_key(entries[i].0@),
        entries_map(entries)[entries[i].0@] == entries[i].1@,
    decreases entries.len(),
{
    if i < entries.len() - 1 {
        let rest = entries.drop_last();
        assert(rest[i] == entries[i]);
        assert(kids_unique(rest)) by {
            assert forall|a: int, b: int|
                0 <= a < rest.len() && 0 <= b < rest.len() && a != b implies #[trigger] rest[a].0@
                != #[trigger] rest[b].0@ by {
                assert(rest[a] == entries[a]);
                assert(rest[b] == entries[b]);
            }
        }
        lemma_entries_map_has(rest, i);
        assert(entries[i].0@ != entries.last().0@);
    }
}

proof fn lemma_entries_map_domain(entries: Seq<(String, Vec<u8>)>, k: Seq<char>)
    ensures
        entries_map(entries).contains_key(k) <==> exists|i: int|
            0 <= i < entries.len() && #[trigger] entries[i].0@ == k,
    decreases entries.len(),
{
    if entries.len() > 0 {
        let rest = entries.drop_last();
        lemma_entries_map_domain(rest, k);
        if entries_map(entries).contains_key(k) && k != entries.last().0@ {
            let i = choose|i: int| 0 <= i < rest.len() && #[trigger] rest[i].0@ == k;
            assert(entries[i] == rest[i]);
        }
        if exists|i: int| 0 <= i < entries.len() && #[trigger] entries[i].0@ == k {
            let i = choose|i: int| 0 <= i < entries.len() && #[trigger] entries[i].0@ == k;
            if i < rest.len() {
                assert(rest[i] == entries[i]);
            }
        }
    }
}

/// Two entry lists with the same key ids stand for the same map when their PEMs agree
/// except at one position, which the second list holds the new PEM for.
proof fn lemma_entries_map_update(
    entries: Seq<(String, Vec<u8>)>,
    updated: Seq<(String, Vec<u8>)>,
    idx: int,
)
    requires
        kids_unique(entries),
        0 <= idx < entries.len(),
        updated.len() == entries.len(),
        forall|j: int| 0 <= j < entries.len() ==> #[trigger] updated[j].0@ == entries[j].0@,
        forall|j: int| 0 <= j < entries.len() && j != idx ==> #[trigger] updated[j] == entries[j],
    ensures
        kids_unique(updated),
        entries_map(updated) == entries_map(entries).insert(entries[idx].0@, updated[idx].1@),
{
    assert forall|a: int, b: int|
        0 <= a < updated.len() && 0 <= b < updated.len() && a != b implies #[trigger] updated[a].0@
        != #[trigger] updated[b].0@ by {
        assert(updated[a].0@ == entries[a].0@);
        assert(updated[b].0@ == entries[b].0@);
    }
    let m1 = entries_map(updated);
    let m2 = entries_map(entries).insert(entries[idx].0@, updated[idx].1@);
    assert forall|k: Seq<char>| m1.contains_key(k) <==> m2.contains_key(k) by {
        lemma_entries_map_domain(updated, k);
        lemma_entries_map_domain(entries, k);
        if exists|i: int| 0 <= i < entries.len() && #[trigger] entries[i].0@ == k {
            let i = choose|i: int| 0 <= i < entries.len() && #[trigger] entries[i].0@ == k;
            assert(updated[i].0@ == k);
        }
        if exists|i: int| 0 <= i < updated.len() && #[trigger] updated[i].0@ == k {
            let i = choose|i: int| 0 <= i < updated.len() && #[trigger] updated[i].0@ == k;
            assert(entries[i].0@ == k);
        }
    }
    assert forall|k: Seq<char>| #[trigger] m1.contains_key(k) implies m1[k] == m2[k] by {
        lemma_entries_map_domain(updated, k);
        let i = choose|i: int| 0 <= i < updated.len() && #[trigger] updated[i].0@ == k;
        lemma_entries_map_has(updated, i);
        if i != idx {
            assert(updated[i] == entries[i]);
            lemma_entries_map_has(entries, i);
        } else {
        }
    }
    assert(m1 =~= m2);
}

/// The local cache of public keys, by key id.
pub struct KeyCache {
    entries: Vec<(String, Vec<u8>)>,
}

impl View for KeyCache {
    type V = Map<Seq<char>, Seq<u8>>;

    closed spec fn view(&self) -> Map<Seq<char>, Seq<u8>> {
        entries_map(self.entries@)
    }
}

impl KeyCache {
    /// Key ids are distinct.
    #[verifier::type_invariant]
    spec fn wf(self) -> bool {
        kids_unique(self.entries@)
    }

    /// A cache holding only the fallback key (the PEM read from disk).
    pub fn with_fallback(fallback_pem: Vec<u8>) -> (r: Self)
        ensures
            r@ == Map::<Seq<char>, Seq<u8>>::empty().insert(fallback_name(), fallback_pem@),
    {
        let mut entries: Vec<(String, Vec<u8>)> = Vec::new();
        let ghost pem = fallback_pem@;
        let name = String::from_str("fallback");
        entries.push((name, fallback_pem));
        proof {
            reveal_strlit("fallback");
            assert(entries@.drop_last() =~= Seq::<(String, Vec<u8>)>::empty());
            assert(entries@.last().0@ == fallback_name());
            assert(entries@.last().1@ == pem);
            assert(entries_map(entries@.drop_last()) == Map::<Seq<char>, Seq<u8>>::empty());
        }
        KeyCache { entries }
    }

    fn index_of(&self, kid: &str) -> (r: Option<usize>)
        requires
            kids_unique(self.entries@),
        ensures
            r matches Some(i) ==> i < self.entries@.len() && self.entries@[i as int].0@ == kid@,
            r is None ==> !self@.contains_key(kid@),
    {
        let wanted = String::from_str(kid);
        let mut i: usize = 0;
        while i < self.entries.len()
            invariant
                i <= self.entries@.len(),
                wanted@ == kid@,
                forall|j: int| 0 <= j < i ==> #[trigger] self.entries@[j].0@ != kid@,
            decreases self.entries@.len() - i,
        {
            if self.entries[i].0 == wanted {
                return Some(i);
            }
            i = i + 1;
        }
        proof {
            lemma_entries_map_domain(self.entries@, kid@);
        }
        None
    }

    /// The PEM cached for `kid`.
    pub fn get(&self, kid: &str) -> (r: Option<Vec<u8>>)
        ensures
            r matches Some(p) ==> self@.contains_key(kid@) && p@ == self@[kid@],
            r is None ==> !self@.contains_key(kid@),
    {
        proof {
            use_type_invariant(self);
        }
        match self.index_of(kid) {
            Some(i) => {
                proof {
                    lemma_entries_map_has(self.entries@, i as int);
                }
                Some(self.entries[i].1.clone())
            },
            None => None,
        }
    }

    /// Caches `pem` for `kid`, replacing any earlier one.
    pub fn insert(&mut self, kid: &str, pem: Vec<u8>)
        ensures
            final(self)@ == old(self)@.insert(kid@, pem@),
    {
        proof {
            use_type_invariant(&*self);
        }
        let found = self.index_of(kid);
        let mut entries: Vec<(String, Vec<u8>)> = Vec::new();
        std::mem::swap(&mut entries, &mut self.entries);
        let ghost before = entries@;
        match found {
            Some(i) => {
                let key = entries[i].0.clone();
                entries.set(i, (key, pem));
                proof {
                    lemma_entries_map_update(before, entries@, i as int);
                }
            },
            None => {
                entries.push((String::from_str(kid), pem));
                proof {
                    assert(entries@.drop_last() =~= before);
                    lemma_entries_map_domain(before, kid@);
                    assert forall|a: int, b: int|
                        0 <= a < entries@.len() && 0 <= b < entries@.len() && a != b
                            implies #[trigger] entries@[a].0@ != #[trigger] entries@[b].0@ by {
                        if a < before.len() {
                            assert(entries@[a] == before[a]);
                        }
                        if b < before.len() {
                            assert(entries@[b] == before[b]);
                        }
                    }
                }
            },
        }
        self.entries = entries;
    }

    /// Settles the public key for `kid` after the local cache missed: a key found in the
    /// shared store is cached under `kid` and used; otherwise the fallback key is used, and
    /// without one the key is not found.
    pub fn resolve(&mut self, kid: &str, from_store: Option<Vec<u8>>) -> (r: Result<
        Vec<u8>,
        VerifyError,
    >)
        ensures
            from_store matches Some(p) ==> final(self)@ == old(self)@.insert(kid@, p@) && (r matches Ok(
                q,
            ) && q@ == p@),
            from_store is None ==> final(self)@ == old(self)@,
            from_store is None && old(self)@.contains_key(fallback_name()) ==> (r matches Ok(q)
                && q@ == old(self)@[fallback_name()]),
            from_store is None && !old(self)@.contains_key(fallback_name()) ==> (r matches Err(
                VerifyError::PublicKeyNotFound(k),
            ) && k@ == kid@),
    {
        match from_store {
            Some(pem) => {
                self.insert(kid, pem.clone());
                Ok(pem)
            },
            None => {
                proof {
                    reveal_strlit("fallback");
                }
                match self.get("fallback") {
                    Some(p) => Ok(p),
                    None => Err(VerifyError::PublicKeyNotFound(kid.to_string())),
                }
            },
        }
    }
}

/// Reading the cache after a write: the written key id gives the written PEM, and every
/// other key id gives what it gave before.
pub proof fn lemma_cache_read_after_write(
    before: Map<Seq<char>, Seq<u8>>,
    kid: Seq<char>,
    pem: Seq<u8>,
    other: Seq<char>,
)
    requires
        other != kid,
    ensures
        before.insert(kid, pem).contains_key(kid),
        before.insert(kid, pem)[kid] == pem,
        before.insert(kid, pem).contains_key(other) == before.contains_key(other),
        before.contains_key(other) ==> before.insert(kid, pem)[other] == before[other],
{
}

} // verus!
