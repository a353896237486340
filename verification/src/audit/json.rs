use vstd::prelude::*;

verus! {

/// The strict order of texts by code point, the first difference deciding and a proper
/// prefix coming first (the order of `str`, since UTF-8 keeps code point order).
pub open spec fn text_lt(a: Seq<char>, b: Seq<char>) -> bool
    decreases a.len(),
{
    if a.len() == 0 {
        b.len() > 0
    } else if b.len() == 0 {
        false
    } else if a[0] != b[0] {
        a[0] < b[0]
    } else {
        text_lt(a.drop_first(), b.drop_first())
    }
}

/// No text comes before itself, and two texts are never each before the other.
pub proof fn lemma_text_lt_asymmetric(a: Seq<char>, b: Seq<char>)
    ensures
        !(text_lt(a, b) && text_lt(b, a)),
        !text_lt(a, a),
    decreases a.len(),
{
    if a.len() > 0 && b.len() > 0 && a[0] == b[0] {
        lemma_text_lt_asymmetric(a.drop_first(), b.drop_first());
    }
    if a.len() > 0 {
        lemma_text_lt_asymmetric(a.drop_first(), a.drop_first());
    }
}

/// The order is transitive.
pub proof fn lemma_text_lt_transitive(a: Seq<char>, b: Seq<char>, c: Seq<char>)
    requires
        text_lt(a, b),
        text_lt(b, c),
    ensures
        text_lt(a, c),
    decreases a.len(),
{
    if a.len() > 0 && b.len() > 0 && c.len() > 0 && a[0] == b[0] && b[0] == c[0] {
        lemma_text_lt_transitive(a.drop_first(), b.drop_first(), c.drop_first());
    }
}

/// Two different texts are ordered one way or the other.
pub proof fn lemma_text_lt_total(a: Seq<char>, b: Seq<char>)
    requires
        a != b,
    ensures
        text_lt(a, b) || text_lt(b, a),
    decreases a.len(),
{
    if a.len() == 0 && b.len() == 0 {
        assert(a =~= b);
    }
    if a.len() > 0 && b.len() > 0 && a[0] != b[0] {
        assert(a[0] < b[0] || b[0] < a[0]);
    }
    if a.len() > 0 && b.len() > 0 && a[0] == b[0] {
        if a.drop_first() == b.drop_first() {
            assert(a =~= seq![a[0]] + a.drop_first());
            assert(b =~= seq![b[0]] + b.drop_first());
        }
        lemma_text_lt_total(a.drop_first(), b.drop_first());
    }
}

proof fn lemma_text_lt_skip(a: Seq<char>, b: Seq<char>, i: int)
    requires
        0 <= i < a.len(),
        i < b.len(),
        a[i] == b[i],
    ensures
        text_lt(a.skip(i), b.skip(i)) == text_lt(a.skip(i + 1), b.skip(i + 1)),
{
    assert(a.skip(i).drop_first() =~= a.skip(i + 1));
    assert(b.skip(i).drop_first() =~= b.skip(i + 1));
}

/// Whether `a` comes strictly before `b`.
pub fn text_less(a: &str, b: &str) -> (r: bool)
    ensures
        r == text_lt(a@, b@),
{
    let na = a.unicode_len();
    let nb = b.unicode_len();
    let mut i: usize = 0;
    proof {
        assert(a@.skip(0) =~= a@);
        assert(b@.skip(0) =~= b@);
    }
    while i < na && i < nb
        invariant
            na == a@.len(),
            nb == b@.len(),
            i <= na,
            i <= nb,
            text_lt(a@, b@) == text_lt(a@.skip(i as int), b@.skip(i as int)),
        decreases na - i,
    {
        let ca = a.get_char(i);
        let cb = b.get_char(i);
        if ca != cb {
            proof {
                assert(a@.skip(i as int)[0] == ca);
                assert(b@.skip(i as int)[0] == cb);
            }
            return ca < cb;
        }
        proof {
            lemma_text_lt_skip(a@, b@, i as int);
        }
        i = i + 1;
    }
    proof {
        assert(a@.skip(i as int).len() == na - i);
        assert(b@.skip(i as int).len() == nb - i);
    }
    i == na && i < nb
}

/// A JSON value; a number is held as its text.
#[derive(Debug, PartialEq, Eq)]
pub enum JsonValue {
    Null,
    Bool(bool),
    Number(String),
    Str(String),
    Array(Vec<JsonValue>),
    Object(Vec<(String, JsonValue)>),
}

/// Whether no two entries of an object share a key.
pub open spec fn keys_distinct(m: Seq<(String, JsonValue)>) -> bool {
    forall|i: int, j: int|
        0 <= i < m.len() && 0 <= j < m.len() && i != j ==> #[trigger] m[i].0@ != #[trigger] m[j].0@
}

/// Whether the entries of an object come in strictly increasing key order.
pub open spec fn keys_sorted(m: Seq<(String, JsonValue)>) -> bool {
    forall|i: int, j: int| 0 <= i < j < m.len() ==> text_lt(#[trigger] m[i].0@, #[trigger] m[j].0@)
}

/// Whether every object inside `v` (itself included) has distinct keys, as the objects of
/// a parsed JSON document do.
pub open spec fn json_wf(v: JsonValue) -> bool
    decreases v,
{
    match v {
        JsonValue::Array(a) => forall|i: int| 0 <= i < a.len() ==> json_wf(#[trigger] a@[i]),
        JsonValue::Object(m) => keys_distinct(m@) && forall|i: int|
            0 <= i < m.len() ==> json_wf(#[trigger] m@[i].1),
        _ => true,
    }
}

/// Whether some entry of `m` has key `key`.
pub open spec fn has_key(m: Seq<(String, JsonValue)>, key: Seq<char>) -> bool {
    exists|j: int| 0 <= j < m.len() && #[trigger] m[j].0@ == key
}

/// The value of the entry of `m` with key `key` (an arbitrary one if keys repeat).
pub open spec fn value_at_key(m: Seq<(String, JsonValue)>, key: Seq<char>) -> JsonValue {
    m[choose|j: int| 0 <= j < m.len() && #[trigger] m[j].0@ == key].1
}

/// Whether `out` is the canonical form of `v`: every object has its entries in increasing
/// key order, with the same keys as before, each key keeping its value in canonical form;
/// arrays keep their order with each element in canonical form; anything else is
/// unchanged.
pub open spec fn canonical_form(out: JsonValue, v: JsonValue) -> bool
    decreases v,
{
    match v {
        JsonValue::Array(a) => match out {
            JsonValue::Array(b) => b.len() == a.len() && forall|i: int|
                0 <= i < a.len() ==> canonical_form(#[trigger] b@[i], a@[i]),
            _ => false,
        },
        JsonValue::Object(m) => match out {
            JsonValue::Object(n) => {
                &&& n.len() == m.len()
                &&& keys_sorted(n@)
                &&& forall|i: int|
                    0 <= i < m.len() ==> has_key(n@, #[trigger] m@[i].0@) && canonical_form(
                        value_at_key(n@, m@[i].0@),
                        m@[i].1,
                    )
                &&& forall|j: int| 0 <= j < n.len() ==> has_key(m@, #[trigger] n@[j].0@)
            },
            _ => false,
        },
        _ => out == v,
    }
}

/// In an object with distinct keys, the value at an entry's key is that entry's value.
proof fn lemma_value_at_key(m: Seq<(String, JsonValue)>, j: int)
    requires
        keys_distinct(m),
        0 <= j < m.len(),
    ensures
        has_key(m, m[j].0@),
        value_at_key(m, m[j].0@) == m[j].1,
{
    let k = choose|k: int| 0 <= k < m.len() && #[trigger] m[k].0@ == m[j].0@;
    assert(m[j].0@ == m[j].0@);
    if k != j {
        assert(m[k].0@ != m[j].0@);
    }
}

/// Keys in strictly increasing order are distinct.
proof fn lemma_sorted_distinct(m: Seq<(String, JsonValue)>)
    requires
        keys_sorted(m),
    ensures
        keys_distinct(m),
{
    assert forall|i: int, j: int|
        0 <= i < m.len() && 0 <= j < m.len() && i != j implies #[trigger] m[i].0@
        != #[trigger] m[j].0@ by {
        if i < j {
            lemma_text_lt_asymmetric(m[i].0@, m[j].0@);
        } else {
            lemma_text_lt_asymmetric(m[j].0@, m[i].0@);
        }
    }
}

/// Inserts an entry whose key is new into an object kept in key order, where it belongs;
/// gives its position.
fn insert_sorted(out: &mut Vec<(String, JsonValue)>, key: String, value: JsonValue) -> (p: usize)
    requires
        keys_sorted(old(out)@),
        forall|j: int| 0 <= j < old(out)@.len() ==> #[trigger] old(out)@[j].0@ != key@,
    ensures
        p <= old(out)@.len(),
        final(out)@ == old(out)@.insert(p as int, (key, value)),
        keys_sorted(final(out)@),
{
    let mut p: usize = 0;
    while p < out.len() && text_less(out[p].0.as_str(), key.as_str())
        invariant
            p <= out@.len(),
            forall|q: int| 0 <= q < p ==> text_lt(#[trigger] out@[q].0@, key@),
        decreases out@.len() - p,
    {
        p = p + 1;
    }
    let ghost before = out@;
    let ghost k = key@;
    proof {
        if p < before.len() {
            lemma_text_lt_total(before[p as int].0@, k);
        }
    }
    out.insert(p, (key, value));
    proof {
        let after = out@;
        assert forall|i: int, j: int| 0 <= i < j < after.len() implies text_lt(
            #[trigger] after[i].0@,
            #[trigger] after[j].0@,
        ) by {
            if j < p {
                assert(after[i] == before[i] && after[j] == before[j]);
            } else if j == p {
                assert(after[i] == before[i]);
            } else if i < p {
                assert(after[i] == before[i] && after[j] == before[j - 1]);
            } else if i == p {
                assert(after[j] == before[j - 1]);
                if j - 1 > p {
                    lemma_text_lt_transitive(k, before[p as int].0@, before[j - 1].0@);
                }
            } else {
                assert(after[i] == before[i - 1] && after[j] == before[j - 1]);
            }
        }
    }
    p
}

/// Every entry of `m` before position `i` has its key in `n`, where its value is in
/// canonical form.
#[verifier::opaque]
spec fn entries_placed(n: Seq<(String, JsonValue)>, m: Seq<(String, JsonValue)>, i: int) -> bool {
    forall|k: int|
        0 <= k < i ==> has_key(n, #[trigger] m[k].0@) && canonical_form(
            value_at_key(n, m[k].0@),
            m[k].1,
        )
}

/// Every key of `n` is the key of an entry of `m` before position `i`.
#[verifier::opaque]
spec fn entries_sourced(n: Seq<(String, JsonValue)>, m: Seq<(String, JsonValue)>, i: int) -> bool {
    forall|j: int| 0 <= j < n.len() ==> has_key(m.take(i), #[trigger] n[j].0@)
}

/// Whether no two entries of an object share a key.
fn keys_are_distinct(m: &Vec<(String, JsonValue)>) -> (r: bool)
    ensures
        r == keys_distinct(m@),
{
    let n = m.len();
    let mut i: usize = 0;
    while i < n
        invariant
            n == m@.len(),
            i <= n,
            forall|a: int, b: int|
                0 <= a < i && 0 <= b < n && a != b ==> #[trigger] m@[a].0@ != #[trigger] m@[b].0@,
        decreases n - i,
    {
        let mut j: usize = 0;
        while j < n
            invariant
                n == m@.len(),
                i < n,
                j <= n,
                forall|a: int, b: int|
                    0 <= a < i && 0 <= b < n && a != b ==> #[trigger] m@[a].0@ != #[trigger] m@[b].0@,
                forall|b: int| 0 <= b < j && b != i ==> m@[i as int].0@ != #[trigger] m@[b].0@,
            decreases n - j,
        {
            if j != i && m[i].0 == m[j].0 {
                return false;
            }
            j = j + 1;
        }
        i = i + 1;
    }
    true
}

/// Whether every object inside `v` has distinct keys.
pub fn json_is_wf(v: &JsonValue) -> (r: bool)
    ensures
        r == json_wf(*v),
    decreases v,
{
    match v {
        JsonValue::Array(a) => {
            let mut i: usize = 0;
            while i < a.len()
                invariant
                    i <= a@.len(),
                    *v == JsonValue::Array(*a),
                    forall|k: int| 0 <= k < i ==> json_wf(#[trigger] a@[k]),
                decreases a@.len() - i,
            {
                proof {
                    assert(decreases_to!(*v => (*v)->Array_0));
                    assert(decreases_to!(*a => a@));
                    assert(decreases_to!(a@ => a@[i as int]));
                }
                if !json_is_wf(&a[i]) {
                    return false;
                }
                i = i + 1;
            }
            true
        },
        JsonValue::Object(m) => {
            if !keys_are_distinct(m) {
                return false;
            }
            let mut i: usize = 0;
            while i < m.len()
                invariant
                    i <= m@.len(),
                    *v == JsonValue::Object(*m),
                    keys_distinct(m@),
                    forall|k: int| 0 <= k < i ==> json_wf(#[trigger] m@[k].1),
                decreases m@.len() - i,
            {
                proof {
                    assert(decreases_to!(*v => (*v)->Object_0));
                    assert(decreases_to!(*m => m@));
                    assert(decreases_to!(m@ => m@[i as int]));
                    assert(decreases_to!(m@[i as int] => m@[i as int].1));
                }
                if !json_is_wf(&m[i].1) {
                    return false;
                }
                i = i + 1;
            }
            true
        },
        _ => true,
    }
}

/// The canonical form of a JSON value: object entries ordered by key, recursively (the
/// form whose serialization is hashed).
pub fn canonical_json(v: &JsonValue) -> (r: JsonValue)
    requires
        json_wf(*v),
    ensures
        canonical_form(r, *v),
    decreases v,
{
    match v {
        JsonValue::Null => JsonValue::Null,
        JsonValue::Bool(b) => JsonValue::Bool(*b),
        JsonValue::Number(n) => JsonValue::Number(n.clone()),
        JsonValue::Str(t) => JsonValue::Str(t.clone()),
        JsonValue::Array(a) => {
            let mut out: Vec<JsonValue> = Vec::new();
            let mut i: usize = 0;
            while i < a.len()
                invariant
                    i <= a@.len(),
                    out@.len() == i,
                    *v == JsonValue::Array(*a),
                    forall|k: int| 0 <= k < a@.len() ==> json_wf(#[trigger] a@[k]),
                    forall|k: int| 0 <= k < i ==> canonical_form(#[trigger] out@[k], a@[k]),
                decreases a@.len() - i,
            {
                proof {
                    assert(decreases_to!(*v => (*v)->Array_0));
                    assert(decreases_to!(*a => a@));
                    assert(decreases_to!(a@ => a@[i as int]));
                }
                let c = canonical_json(&a[i]);
                out.push(c);
                i = i + 1;
            }
            JsonValue::Array(out)
        },
        JsonValue::Object(m) => {
            let mut out: Vec<(String, JsonValue)> = Vec::new();
            let mut i: usize = 0;
            proof {
                reveal(entries_placed);
                reveal(entries_sourced);
            }
            while i < m.len()
                invariant
                    i <= m@.len(),
                    out@.len() == i,
                    *v == JsonValue::Object(*m),
                    keys_distinct(m@),
                    keys_sorted(out@),
                    forall|k: int| 0 <= k < m@.len() ==> json_wf(#[trigger] m@[k].1),
                    entries_placed(out@, m@, i as int),
                    entries_sourced(out@, m@, i as int),
                decreases m@.len() - i,
            {
                proof {
                    assert(decreases_to!(*v => (*v)->Object_0));
                    assert(decreases_to!(*m => m@));
                    assert(decreases_to!(m@ => m@[i as int]));
                    assert(decreases_to!(m@[i as int] => m@[i as int].1));
                }
                let c = canonical_json(&m[i].1);
                let key = m[i].0.clone();
                let ghost before = out@;
                let ghost entry = (key, c);
                proof {
                    lemma_new_key(m@, before, i as int);
                }
                let p = insert_sorted(&mut out, key, c);
                proof {
                    lemma_entry_inserted(m@, before, out@, i as int, p as int, entry);
                }
                i = i + 1;
            }
            proof {
                lemma_object_canonical(JsonValue::Object(out), *v);
            }
            JsonValue::Object(out)
        },
    }
}

proof fn lemma_new_key(m: Seq<(String, JsonValue)>, before: Seq<(String, JsonValue)>, i: int)
    requires
        keys_distinct(m),
        0 <= i < m.len(),
        entries_sourced(before, m, i),
    ensures
        forall|j: int| 0 <= j < before.len() ==> #[trigger] before[j].0@ != m[i].0@,
{
    reveal(entries_sourced);
    assert forall|j: int| 0 <= j < before.len() implies #[trigger] before[j].0@ != m[i].0@ by {
        assert(has_key(m.take(i), before[j].0@));
        let k = choose|k: int| 0 <= k < m.take(i).len() && #[trigger] m.take(i)[k].0@ == before[j].0@;
        assert(m.take(i)[k] == m[k]);
        assert(m[k].0@ != m[i].0@);
    }
}

proof fn lemma_entry_inserted(
    m: Seq<(String, JsonValue)>,
    before: Seq<(String, JsonValue)>,
    after: Seq<(String, JsonValue)>,
    i: int,
    p: int,
    entry: (String, JsonValue),
)
    requires
        0 <= i < m.len(),
        0 <= p <= before.len(),
        keys_sorted(after),
        after == before.insert(p, entry),
        entry.0@ == m[i].0@,
        canonical_form(entry.1, m[i].1),
        entries_placed(before, m, i),
        entries_sourced(before, m, i),
    ensures
        entries_placed(after, m, i + 1),
        entries_sourced(after, m, i + 1),
{
    reveal(entries_placed);
    reveal(entries_sourced);
    lemma_sorted_distinct(after);
    assert(after[p] == entry);
    assert forall|k: int| 0 <= k < i + 1 implies has_key(after, #[trigger] m[k].0@) && canonical_form(
        value_at_key(after, m[k].0@),
        m[k].1,
    ) by {
        if k < i {
            assert(has_key(before, m[k].0@));
            let j = choose|j: int| 0 <= j < before.len() && #[trigger] before[j].0@ == m[k].0@;
            let jj = if j < p { j } else { j + 1 };
            assert(after[jj] == before[j]);
            lemma_value_at_key(after, jj);
            assert(before[j].0@ == before[j].0@);
            assert(value_at_key(before, m[k].0@) == before[j].1) by {
                lemma_sorted_distinct_prefix(before, after, p, entry);
                lemma_value_at_key(before, j);
            }
        } else {
            lemma_value_at_key(after, p);
        }
    }
    assert forall|j: int| 0 <= j < after.len() implies has_key(m.take(i + 1), #[trigger] after[j].0@) by {
        if j == p {
            assert(m.take(i + 1)[i] == m[i]);
        } else {
            let jb = if j < p { j } else { j - 1 };
            assert(after[j] == before[jb]);
            assert(has_key(m.take(i), before[jb].0@));
            let k = choose|k: int| 0 <= k < m.take(i).len() && #[trigger] m.take(i)[k].0@ == before[jb].0@;
            assert(m.take(i)[k] == m.take(i + 1)[k]);
        }
    }
}

/// Removing one entry keeps keys distinct.
proof fn lemma_sorted_distinct_prefix(
    before: Seq<(String, JsonValue)>,
    after: Seq<(String, JsonValue)>,
    p: int,
    entry: (String, JsonValue),
)
    requires
        0 <= p <= before.len(),
        after == before.insert(p, entry),
        keys_distinct(after),
    ensures
        keys_distinct(before),
{
    assert forall|a: int, b: int|
        0 <= a < before.len() && 0 <= b < before.len() && a != b implies #[trigger] before[a].0@
        != #[trigger] before[b].0@ by {
        let aa = if a < p { a } else { a + 1 };
        let bb = if b < p { b } else { b + 1 };
        assert(after[aa] == before[a]);
        assert(after[bb] == before[b]);
    }
}

proof fn lemma_object_canonical(out: JsonValue, v: JsonValue)
    requires
        v is Object,
        out is Object,
        out->Object_0@.len() == v->Object_0@.len(),
        keys_sorted(out->Object_0@),
        entries_placed(out->Object_0@, v->Object_0@, v->Object_0@.len() as int),
        entries_sourced(out->Object_0@, v->Object_0@, v->Object_0@.len() as int),
    ensures
        canonical_form(out, v),
{
    reveal(entries_placed);
    reveal(entries_sourced);
    let m = v->Object_0@;
    assert(m.take(m.len() as int) =~= m);
}

/// Canonicalizing is idempotent: the canonical form of a value is its own canonical form.
pub proof fn lemma_canonical_idempotent(out: JsonValue, v: JsonValue)
    requires
        canonical_form(out, v),
    ensures
        canonical_form(out, out),
    decreases v,
{
    match v {
        JsonValue::Array(a) => {
            if let JsonValue::Array(b) = out {
                assert forall|i: int| 0 <= i < b.len() implies canonical_form(
                    #[trigger] b@[i],
                    b@[i],
                ) by {
                    lemma_canonical_idempotent(b@[i], a@[i]);
                }
            }
        },
        JsonValue::Object(m) => {
            if let JsonValue::Object(n) = out {
                lemma_sorted_distinct(n@);
                assert forall|j: int| 0 <= j < n.len() implies has_key(n@, #[trigger] n@[j].0@)
                    && canonical_form(value_at_key(n@, n@[j].0@), n@[j].1) by {
                    lemma_value_at_key(n@, j);
                    assert(has_key(m@, n@[j].0@));
                    let k = choose|k: int| 0 <= k < m@.len() && #[trigger] m@[k].0@ == n@[j].0@;
                    assert(has_key(n@, m@[k].0@));
                    lemma_canonical_idempotent(value_at_key(n@, m@[k].0@), m@[k].1);
                }
                assert forall|j: int| 0 <= j < n.len() implies has_key(n@, #[trigger] n@[j].0@) by {
                    lemma_value_at_key(n@, j);
                }
            }
        },
        _ => {},
    }
}

/// Whether `a` and `b` are the same JSON value, with object entries in the same order.
pub open spec fn json_same(a: JsonValue, b: JsonValue) -> bool
    decreases a,
{
    match a {
        JsonValue::Null => b is Null,
        JsonValue::Bool(x) => b matches JsonValue::Bool(y) && x == y,
        JsonValue::Number(x) => b matches JsonValue::Number(y) && x@ == y@,
        JsonValue::Str(x) => b matches JsonValue::Str(y) && x@ == y@,
        JsonValue::Array(xs) => match b {
            JsonValue::Array(ys) => ys.len() == xs.len() && forall|i: int|
                0 <= i < xs.len() ==> json_same(#[trigger] xs@[i], ys@[i]),
            _ => false,
        },
        JsonValue::Object(xs) => match b {
            JsonValue::Object(ys) => ys.len() == xs.len() && forall|i: int|
                0 <= i < xs.len() ==> same_key_at(xs@, ys@, i) && json_same(
                    #[trigger] xs@[i].1,
                    ys@[i].1,
                ),
            _ => false,
        },
    }
}

/// Whether the entries at position `i` of two objects have the same key.
pub open spec fn same_key_at(xs: Seq<(String, JsonValue)>, ys: Seq<(String, JsonValue)>, i: int) -> bool {
    xs[i].0@ == ys[i].0@
}

/// Whether `a` and `b` hold the same content: objects with the same keys and, for each
/// key, equivalent values, in whatever order; arrays element by element; equal scalars.
pub open spec fn json_equiv(a: JsonValue, b: JsonValue) -> bool
    decreases a,
{
    match a {
        JsonValue::Array(xs) => match b {
            JsonValue::Array(ys) => ys.len() == xs.len() && forall|i: int|
                0 <= i < xs.len() ==> json_equiv(#[trigger] xs@[i], ys@[i]),
            _ => false,
        },
        JsonValue::Object(xs) => match b {
            JsonValue::Object(ys) => {
                &&& ys.len() == xs.len()
                &&& forall|i: int|
                    0 <= i < xs.len() ==> has_key(ys@, #[trigger] xs@[i].0@) && json_equiv(
                        xs@[i].1,
                        value_at_key(ys@, xs@[i].0@),
                    )
                &&& forall|j: int| 0 <= j < ys.len() ==> has_key(xs@, #[trigger] ys@[j].0@)
            },
            _ => false,
        },
        _ => json_same(a, b),
    }
}

/// Two objects in strictly increasing key order with the same keys have them at the same
/// positions.
proof fn lemma_sorted_same_keys(n1: Seq<(String, JsonValue)>, n2: Seq<(String, JsonValue)>)
    requires
        keys_sorted(n1),
        keys_sorted(n2),
        n1.len() == n2.len(),
        forall|j: int| 0 <= j < n1.len() ==> has_key(n2, #[trigger] n1[j].0@),
        forall|j: int| 0 <= j < n2.len() ==> has_key(n1, #[trigger] n2[j].0@),
    ensures
        forall|j: int| 0 <= j < n1.len() ==> #[trigger] n1[j].0@ == n2[j].0@,
    decreases n1.len(),
{
    if n1.len() > 0 {
        let k1 = n1[0].0@;
        let k2 = n2[0].0@;
        assert(has_key(n2, k1));
        let p = choose|p: int| 0 <= p < n2.len() && #[trigger] n2[p].0@ == k1;
        assert(has_key(n1, k2));
        let q = choose|q: int| 0 <= q < n1.len() && #[trigger] n1[q].0@ == k2;
        if p > 0 {
            assert(text_lt(n2[0].0@, n2[p].0@));
            if q > 0 {
                assert(text_lt(n1[0].0@, n1[q].0@));
                lemma_text_lt_asymmetric(k1, k2);
            } else {
                lemma_text_lt_asymmetric(k1, k1);
            }
        }
        assert(k1 == k2);
        let r1 = n1.drop_first();
        let r2 = n2.drop_first();
        assert forall|j: int| 0 <= j < r1.len() implies has_key(r2, #[trigger] r1[j].0@) by {
            let x = r1[j].0@;
            assert(x == n1[j + 1].0@);
            assert(text_lt(n1[0].0@, n1[j + 1].0@));
            assert(has_key(n2, x));
            let r = choose|r: int| 0 <= r < n2.len() && #[trigger] n2[r].0@ == x;
            if r == 0 {
                lemma_text_lt_asymmetric(x, x);
            }
            assert(r2[r - 1] == n2[r]);
        }
        assert forall|j: int| 0 <= j < r2.len() implies has_key(r1, #[trigger] r2[j].0@) by {
            let x = r2[j].0@;
            assert(x == n2[j + 1].0@);
            assert(text_lt(n2[0].0@, n2[j + 1].0@));
            assert(has_key(n1, x));
            let r = choose|r: int| 0 <= r < n1.len() && #[trigger] n1[r].0@ == x;
            if r == 0 {
                lemma_text_lt_asymmetric(x, x);
            }
            assert(r1[r - 1] == n1[r]);
        }
        assert(keys_sorted(r1)) by {
            assert forall|a: int, b: int| 0 <= a < b < r1.len() implies text_lt(
                #[trigger] r1[a].0@,
                #[trigger] r1[b].0@,
            ) by {
                assert(r1[a] == n1[a + 1] && r1[b] == n1[b + 1]);
            }
        }
        assert(keys_sorted(r2)) by {
            assert forall|a: int, b: int| 0 <= a < b < r2.len() implies text_lt(
                #[trigger] r2[a].0@,
                #[trigger] r2[b].0@,
            ) by {
                assert(r2[a] == n2[a + 1] && r2[b] == n2[b + 1]);
            }
        }
        lemma_sorted_same_keys(r1, r2);
        assert forall|j: int| 0 <= j < n1.len() implies #[trigger] n1[j].0@ == n2[j].0@ by {
            if j > 0 {
                assert(r1[j - 1] == n1[j] && r2[j - 1] == n2[j]);
            }
        }
    }
}

/// Canonical forms depend only on content: values with the same content (object entries
/// in any order) have the same canonical form, entry for entry.
pub proof fn lemma_canonical_order_independent(
    v1: JsonValue,
    v2: JsonValue,
    out1: JsonValue,
    out2: JsonValue,
)
    requires
        json_wf(v1),
        json_wf(v2),
        json_equiv(v1, v2),
        canonical_form(out1, v1),
        canonical_form(out2, v2),
    ensures
        json_same(out1, out2),
    decreases v1,
{
    match v1 {
        JsonValue::Array(a1) => {
            let a2 = v2->Array_0;
            let b1 = out1->Array_0;
            let b2 = out2->Array_0;
            assert forall|i: int| 0 <= i < b1.len() implies json_same(#[trigger] b1@[i], b2@[i]) by {
                assert(json_wf(a1@[i]));
                assert(json_wf(a2@[i]));
                lemma_canonical_order_independent(a1@[i], a2@[i], b1@[i], b2@[i]);
            }
        },
        JsonValue::Object(m1) => {
            let m2 = v2->Object_0;
            let n1 = out1->Object_0;
            let n2 = out2->Object_0;
            lemma_sorted_distinct(n1@);
            lemma_sorted_distinct(n2@);
            assert forall|j: int| 0 <= j < n1.len() implies has_key(n2@, #[trigger] n1@[j].0@) by {
                assert(has_key(m1@, n1@[j].0@));
                let i = choose|i: int| 0 <= i < m1.len() && #[trigger] m1@[i].0@ == n1@[j].0@;
                assert(has_key(m2@, m1@[i].0@));
                let i2 = choose|i2: int| 0 <= i2 < m2.len() && #[trigger] m2@[i2].0@ == m1@[i].0@;
                assert(has_key(n2@, m2@[i2].0@));
            }
            assert forall|j: int| 0 <= j < n2.len() implies has_key(n1@, #[trigger] n2@[j].0@) by {
                assert(has_key(m2@, n2@[j].0@));
                let i2 = choose|i2: int| 0 <= i2 < m2.len() && #[trigger] m2@[i2].0@ == n2@[j].0@;
                assert(has_key(m1@, m2@[i2].0@));
                let i = choose|i: int| 0 <= i < m1.len() && #[trigger] m1@[i].0@ == m2@[i2].0@;
                assert(has_key(n1@, m1@[i].0@));
            }
            lemma_sorted_same_keys(n1@, n2@);
            assert forall|j: int| 0 <= j < n1.len() implies same_key_at(n1@, n2@, j) && json_same(
                #[trigger] n1@[j].1,
                n2@[j].1,
            ) by {
                let k = n1@[j].0@;
                assert(n2@[j].0@ == k);
                assert(has_key(m1@, k));
                let i = choose|i: int| 0 <= i < m1.len() && #[trigger] m1@[i].0@ == k;
                assert(has_key(m2@, m1@[i].0@));
                let i2 = choose|i2: int| 0 <= i2 < m2.len() && #[trigger] m2@[i2].0@ == k;
                assert(m2@[i2].0@ == m2@[i2].0@);
                lemma_value_at_key(n1@, j);
                lemma_value_at_key(n2@, j);
                lemma_value_at_key(m2@, i2);
                assert(canonical_form(value_at_key(n1@, m1@[i].0@), m1@[i].1));
                assert(canonical_form(value_at_key(n2@, m2@[i2].0@), m2@[i2].1));
                assert(json_equiv(m1@[i].1, value_at_key(m2@, m1@[i].0@)));
                assert(json_wf(m1@[i].1));
                assert(json_wf(m2@[i2].1));
                lemma_canonical_order_independent(m1@[i].1, m2@[i2].1, n1@[j].1, n2@[j].1);
            }
        },
        _ => {},
    }
}

/// Canonicalizing keeps the content: the canonical form of a value holds the same
/// content as the value.
pub proof fn lemma_canonical_preserves_content(out: JsonValue, v: JsonValue)
    requires
        json_wf(v),
        canonical_form(out, v),
    ensures
        json_equiv(out, v),
    decreases v,
{
    match v {
        JsonValue::Array(a) => {
            let b = out->Array_0;
            assert forall|i: int| 0 <= i < b.len() implies json_equiv(#[trigger] b@[i], a@[i]) by {
                assert(json_wf(a@[i]));
                lemma_canonical_preserves_content(b@[i], a@[i]);
            }
        },
        JsonValue::Object(m) => {
            let n = out->Object_0;
            lemma_sorted_distinct(n@);
            assert forall|j: int| 0 <= j < n.len() implies has_key(m@, #[trigger] n@[j].0@)
                && json_equiv(n@[j].1, value_at_key(m@, n@[j].0@)) by {
                assert(has_key(m@, n@[j].0@));
                let k = choose|k: int| 0 <= k < m.len() && #[trigger] m@[k].0@ == n@[j].0@;
                assert(has_key(n@, m@[k].0@));
                lemma_value_at_key(n@, j);
                lemma_value_at_key(m@, k);
                assert(json_wf(m@[k].1));
                lemma_canonical_preserves_content(n@[j].1, m@[k].1);
            }
            assert forall|k: int| 0 <= k < m.len() implies has_key(n@, #[trigger] m@[k].0@) by {
                assert(has_key(n@, m@[k].0@));
            }
        },
        _ => {},
    }
}

} // verus!
