//! A map from member names to values, kept in the byte order of the names.
use vstd::prelude::*;

verus! {

/// `a` comes strictly before `b` in lexicographic byte order.
pub open spec fn bytes_lt(a: Seq<u8>, b: Seq<u8>) -> bool
    decreases a.len(),
{
    if a.len() == 0 {
        b.len() > 0
    } else if b.len() == 0 {
        false
    } else if a[0] != b[0] {
        a[0] < b[0]
    } else {
        bytes_lt(a.drop_first(), b.drop_first())
    }
}

pub proof fn lemma_bytes_lt_irreflexive(a: Seq<u8>)
    ensures
        !bytes_lt(a, a),
    decreases a.len(),
{
    if a.len() > 0 {
        lemma_bytes_lt_irreflexive(a.drop_first());
    }
}

pub proof fn lemma_bytes_lt_total(a: Seq<u8>, b: Seq<u8>)
    ensures
        a != b ==> bytes_lt(a, b) || bytes_lt(b, a),
        !(bytes_lt(a, b) && bytes_lt(b, a)),
    decreases a.len(),
{
    if a.len() > 0 && b.len() > 0 && a[0] == b[0] {
        lemma_bytes_lt_total(a.drop_first(), b.drop_first());
        if a.drop_first() == b.drop_first() {
            assert(a =~= seq![a[0]] + a.drop_first());
            assert(b =~= seq![b[0]] + b.drop_first());
        }
    } else if a.len() == 0 && b.len() == 0 {
        assert(a =~= b);
    }
}

pub proof fn lemma_bytes_lt_transitive(a: Seq<u8>, b: Seq<u8>, c: Seq<u8>)
    requires
        bytes_lt(a, b),
        bytes_lt(b, c),
    ensures
        bytes_lt(a, c),
    decreases a.len(),
{
    if a.len() > 0 && b.len() > 0 && c.len() > 0 && a[0] == b[0] && b[0] == c[0] {
        lemma_bytes_lt_transitive(a.drop_first(), b.drop_first(), c.drop_first());
    }
}

/// Every name of `keys` comes strictly before every later one.
pub open spec fn strictly_sorted(keys: Seq<Seq<u8>>) -> bool {
    forall|i: int, j: int| 0 <= i < j < keys.len() ==> bytes_lt(#[trigger] keys[i], #[trigger] keys[j])
}

/// Compares two byte strings in lexicographic order.
pub fn bytes_less(a: &[u8], b: &[u8]) -> (r: bool)
    ensures
        r == bytes_lt(a@, b@),
{
    let mut i: usize = 0;
    assert(a@.skip(0) =~= a@);
    assert(b@.skip(0) =~= b@);
    while i < a.len() && i < b.len()
        invariant
            i <= a@.len(),
            i <= b@.len(),
            bytes_lt(a@, b@) == bytes_lt(a@.skip(i as int), b@.skip(i as int)),
        decreases a@.len() - i,
    {
        if a[i] != b[i] {
            return a[i] < b[i];
        }
        assert(a@.skip(i as int).drop_first() =~= a@.skip(i + 1));
        assert(b@.skip(i as int).drop_first() =~= b@.skip(i + 1));
        i = i + 1;
    }
    i < b.len()
}

/// Compares two byte strings for equality.
pub fn bytes_equal(a: &[u8], b: &[u8]) -> (r: bool)
    ensures
        r == (a@ == b@),
{
    if a.len() != b.len() {
        return false;
    }
    let mut i: usize = 0;
    while i < a.len()
        invariant
            a@.len() == b@.len(),
            i <= a@.len(),
            a@.subrange(0, i as int) == b@.subrange(0, i as int),
        decreases a@.len() - i,
    {
        if a[i] != b[i] {
            assert(a@[i as int] != b@[i as int]);
            return false;
        }
        assert(a@.subrange(0, i + 1) =~= a@.subrange(0, i as int).push(a@[i as int]));
        assert(b@.subrange(0, i + 1) =~= b@.subrange(0, i as int).push(b@[i as int]));
        i = i + 1;
    }
    assert(a@ =~= a@.subrange(0, i as int));
    assert(b@ =~= b@.subrange(0, i as int));
    true
}

/// The bytes by which a name is ordered and looked up: its UTF-8 encoding.
pub open spec fn name_key(name: Seq<char>) -> Seq<u8> {
    vstd::utf8::encode_utf8(name)
}

/// A position at which `keys` holds `k`, where there is one.
pub open spec fn key_index(keys: Seq<Seq<u8>>, k: Seq<u8>) -> int {
    choose|i: int| 0 <= i < keys.len() && keys[i] == k
}

/// The value paired with `k`, where `keys` and `vals` pair names with values.
pub open spec fn seq_lookup<V>(keys: Seq<Seq<u8>>, vals: Seq<V>, k: Seq<u8>) -> Option<V> {
    if keys.contains(k) {
        Some(vals[key_index(keys, k)])
    } else {
        None
    }
}

/// With strictly sorted names, the value looked up under the name at `i` is the value at `i`.
pub proof fn lemma_seq_lookup_at<V>(keys: Seq<Seq<u8>>, vals: Seq<V>, i: int)
    requires
        strictly_sorted(keys),
        0 <= i < keys.len(),
    ensures
        seq_lookup(keys, vals, keys[i]) == Some(vals[i]),
{
    let k = keys[i];
    assert(keys.contains(k));
    let j = key_index(keys, k);
    if j != i {
        if j < i {
            assert(bytes_lt(keys[j], keys[i]));
        } else {
            assert(bytes_lt(keys[i], keys[j]));
        }
        lemma_bytes_lt_irreflexive(k);
    }
}

/// Placing `kb` at `i`, after every smaller name and before every larger one, keeps the names
/// sorted and changes the lookup of `kb` alone.
proof fn lemma_seq_insert<V>(keys: Seq<Seq<u8>>, vals: Seq<V>, i: int, kb: Seq<u8>, v: V)
    requires
        strictly_sorted(keys),
        keys.len() == vals.len(),
        0 <= i <= keys.len(),
        forall|j: int| 0 <= j < i ==> bytes_lt(#[trigger] keys[j], kb),
        forall|j: int| i <= j < keys.len() ==> bytes_lt(kb, #[trigger] keys[j]),
    ensures
        strictly_sorted(keys.insert(i, kb)),
        seq_lookup(keys.insert(i, kb), vals.insert(i, v), kb) == Some(v),
        forall|q: Seq<u8>|
            q != kb ==> #[trigger] seq_lookup(keys.insert(i, kb), vals.insert(i, v), q)
                == seq_lookup(keys, vals, q),
        keys.insert(i, kb).to_set() == keys.to_set().insert(kb),
{
    let nk = keys.insert(i, kb);
    let nv = vals.insert(i, v);
    assert forall|a: int, b: int| 0 <= a < b < nk.len() implies bytes_lt(
        #[trigger] nk[a],
        #[trigger] nk[b],
    ) by {
        if a < i && b > i {
            lemma_bytes_lt_transitive(keys[a], kb, keys[b - 1]);
        }
    }
    lemma_seq_lookup_at(nk, nv, i);
    assert forall|x: Seq<u8>| #[trigger] nk.contains(x) <==> keys.contains(x) || x == kb by {
        if nk.contains(x) {
            let j = choose|j: int| 0 <= j < nk.len() && nk[j] == x;
            if j < i {
                assert(keys[j] == x);
            } else if j > i {
                assert(keys[j - 1] == x);
            }
        }
        if keys.contains(x) {
            let j = choose|j: int| 0 <= j < keys.len() && keys[j] == x;
            if j < i {
                assert(nk[j] == x);
            } else {
                assert(nk[j + 1] == x);
            }
        }
        if x == kb {
            assert(nk[i] == x);
        }
    }
    assert(nk.to_set() =~= keys.to_set().insert(kb));
    assert forall|q: Seq<u8>| q != kb implies #[trigger] seq_lookup(nk, nv, q) == seq_lookup(
        keys,
        vals,
        q,
    ) by {
        if keys.contains(q) {
            let j = key_index(keys, q);
            lemma_seq_lookup_at(keys, vals, j);
            if j < i {
                lemma_seq_lookup_at(nk, nv, j);
            } else {
                lemma_seq_lookup_at(nk, nv, j + 1);
            }
        }
    }
}

/// Replacing the value at `i` changes the lookup of the name at `i` alone.
proof fn lemma_seq_replace<V>(keys: Seq<Seq<u8>>, vals: Seq<V>, i: int, v: V)
    requires
        strictly_sorted(keys),
        keys.len() == vals.len(),
        0 <= i < keys.len(),
    ensures
        seq_lookup(keys, vals.update(i, v), keys[i]) == Some(v),
        forall|q: Seq<u8>|
            q != keys[i] ==> #[trigger] seq_lookup(keys, vals.update(i, v), q) == seq_lookup(
                keys,
                vals,
                q,
            ),
{
    lemma_seq_lookup_at(keys, vals.update(i, v), i);
    assert forall|q: Seq<u8>| q != keys[i] implies #[trigger] seq_lookup(
        keys,
        vals.update(i, v),
        q,
    ) == seq_lookup(keys, vals, q) by {
        if keys.contains(q) {
            let j = key_index(keys, q);
            lemma_seq_lookup_at(keys, vals, j);
            lemma_seq_lookup_at(keys, vals.update(i, v), j);
        }
    }
}

/// Values under unique names, kept in the byte order of the names.
pub struct NameMap<V> {
    entries: Vec<(String, V)>,
}

impl<V> NameMap<V> {
    /// The names, in order.
    pub closed spec fn keys(&self) -> Seq<Seq<u8>> {
        self.entries@.map_values(|e: (String, V)| name_key(e.0@))
    }

    /// The values, in the order of their names.
    pub closed spec fn values_seq(&self) -> Seq<V> {
        self.entries@.map_values(|e: (String, V)| e.1)
    }

    /// The names are unique and in strictly increasing byte order.
    pub open spec fn wf(&self) -> bool {
        &&& self.keys().len() == self.values_seq().len()
        &&& strictly_sorted(self.keys())
    }

    /// The value stored under `k`, if any.
    pub open spec fn lookup(&self, k: Seq<u8>) -> Option<V> {
        seq_lookup(self.keys(), self.values_seq(), k)
    }

    pub fn new() -> (r: NameMap<V>)
        ensures
            r.wf(),
            r.keys() == Seq::<Seq<u8>>::empty(),
            forall|k: Seq<u8>| r.lookup(k) is None,
    {
        let r = NameMap { entries: Vec::new() };
        assert(r.keys() =~= Seq::<Seq<u8>>::empty());
        r
    }

    pub fn len(&self) -> (r: usize)
        ensures
            r == self.keys().len(),
            r == self.values_seq().len(),
    {
        self.entries.len()
    }

    pub fn is_empty(&self) -> (r: bool)
        ensures
            r == (self.keys().len() == 0),
            r == (self.values_seq().len() == 0),
    {
        self.entries.len() == 0
    }

    /// The position of the first name that does not come before `k`.
    fn position_of(&self, k: &[u8]) -> (r: usize)
        requires
            self.wf(),
        ensures
            r <= self.keys().len(),
            forall|i: int| 0 <= i < r ==> bytes_lt(#[trigger] self.keys()[i], k@),
            r < self.keys().len() ==> !bytes_lt(self.keys()[r as int], k@),
    {
        let mut i: usize = 0;
        while i < self.entries.len()
            invariant
                self.wf(),
                i <= self.keys().len(),
                forall|j: int| 0 <= j < i ==> bytes_lt(#[trigger] self.keys()[j], k@),
            decreases self.keys().len() - i,
        {
            let name = self.entries[i].0.as_str().as_bytes();
            if !bytes_less(name, k) {
                return i;
            }
            i = i + 1;
        }
        i
    }

    /// Where `k` is absent, the names before `i` are smaller and the rest larger.
    proof fn lemma_split_at(&self, i: int, k: Seq<u8>)
        requires
            self.wf(),
            0 <= i <= self.keys().len(),
            forall|j: int| 0 <= j < i ==> bytes_lt(#[trigger] self.keys()[j], k),
            i < self.keys().len() ==> !bytes_lt(self.keys()[i], k),
            i < self.keys().len() ==> self.keys()[i] != k,
        ensures
            !self.keys().contains(k),
            forall|j: int| i <= j < self.keys().len() ==> bytes_lt(k, #[trigger] self.keys()[j]),
    {
        let keys = self.keys();
        if i < keys.len() {
            lemma_bytes_lt_total(keys[i], k);
        }
        assert forall|j: int| i <= j < keys.len() implies bytes_lt(k, #[trigger] keys[j]) by {
            if j > i {
                lemma_bytes_lt_transitive(k, keys[i], keys[j]);
            }
        }
        if keys.contains(k) {
            let j = choose|j: int| 0 <= j < keys.len() && keys[j] == k;
            lemma_bytes_lt_irreflexive(k);
            if j < i {
                assert(bytes_lt(keys[j], k));
            } else {
                assert(bytes_lt(k, keys[j]));
            }
        }
    }

    /// The value stored under `k`, if any.
    pub fn get(&self, k: &str) -> (r: Option<&V>)
        requires
            self.wf(),
        ensures
            r matches Some(v) ==> self.lookup(name_key(k@)) == Some(*v),
            r is None ==> self.lookup(name_key(k@)) is None,
    {
        let kb = k.as_bytes();
        let i = self.position_of(kb);
        if i < self.entries.len() && bytes_equal(self.entries[i].0.as_str().as_bytes(), kb) {
            proof {
                lemma_seq_lookup_at(self.keys(), self.values_seq(), i as int);
            }
            Some(&self.entries[i].1)
        } else {
            proof {
                self.lemma_split_at(i as int, kb@);
            }
            None
        }
    }

    /// Whether a value is stored under `k`.
    pub fn contains(&self, k: &str) -> (r: bool)
        requires
            self.wf(),
        ensures
            r == self.lookup(name_key(k@)) is Some,
    {
        self.get(k).is_some()
    }

    /// Stores `v` under `k`, replacing and returning the value stored there before.
    pub fn insert(&mut self, k: String, v: V) -> (r: Option<V>)
        requires
            old(self).wf(),
        ensures
            final(self).wf(),
            r == old(self).lookup(name_key(k@)),
            final(self).lookup(name_key(k@)) == Some(v),
            forall|q: Seq<u8>|
                q != name_key(k@) ==> #[trigger] final(self).lookup(q) == old(self).lookup(q),
            final(self).keys().to_set() == old(self).keys().to_set().insert(name_key(k@)),
    {
        let ghost kb = name_key(k@);
        let i = self.position_of(k.as_str().as_bytes());
        let ghost old_keys = self.keys();
        let ghost old_vals = self.values_seq();
        if i < self.entries.len() && bytes_equal(
            self.entries[i].0.as_str().as_bytes(),
            k.as_str().as_bytes(),
        ) {
            proof {
                lemma_seq_lookup_at(old_keys, old_vals, i as int);
                lemma_seq_replace(old_keys, old_vals, i as int, v);
            }
            let (_, prev) = self.entries.remove(i);
            self.entries.insert(i, (k, v));
            proof {
                assert(self.keys() =~= old_keys);
                assert(self.values_seq() =~= old_vals.update(i as int, v));
                assert(old_keys.contains(kb));
                assert(self.keys().to_set() =~= old_keys.to_set().insert(kb));
            }
            Some(prev)
        } else {
            proof {
                self.lemma_split_at(i as int, kb);
                lemma_seq_insert(old_keys, old_vals, i as int, kb, v);
            }
            self.entries.insert(i, (k, v));
            proof {
                assert(self.keys() =~= old_keys.insert(i as int, kb));
                assert(self.values_seq() =~= old_vals.insert(i as int, v));
            }
            None
        }
    }

    /// The values in the byte order of their names.
    pub fn values(&self) -> (r: Vec<&V>)
        ensures
            r@.len() == self.values_seq().len(),
            r@.len() == self.keys().len(),
            forall|i: int| 0 <= i < r@.len() ==> *#[trigger] r@[i] == self.values_seq()[i],
    {
        let mut out: Vec<&V> = Vec::new();
        let mut i: usize = 0;
        while i < self.entries.len()
            invariant
                i <= self.entries@.len(),
                out@.len() == i,
                forall|j: int| 0 <= j < i ==> *#[trigger] out@[j] == self.values_seq()[j],
            decreases self.entries@.len() - i,
        {
            out.push(&self.entries[i].1);
            i = i + 1;
        }
        out
    }

    /// The names in byte order.
    pub fn keys_in_order(&self) -> (r: Vec<&String>)
        ensures
            r@.len() == self.keys().len(),
            r@.len() == self.values_seq().len(),
            forall|i: int| 0 <= i < r@.len() ==> name_key((#[trigger] r@[i])@) == self.keys()[i],
    {
        let mut out: Vec<&String> = Vec::new();
        let mut i: usize = 0;
        while i < self.entries.len()
            invariant
                i <= self.entries@.len(),
                out@.len() == i,
                forall|j: int| 0 <= j < i ==> name_key((#[trigger] out@[j])@) == self.keys()[j],
            decreases self.entries@.len() - i,
        {
            out.push(&self.entries[i].0);
            i = i + 1;
        }
        out
    }

    /// The names and values, in order, taken out of the map.
    pub fn into_pairs(self) -> (r: Vec<(String, V)>)
        ensures
            r@.len() == self.keys().len(),
            r@.len() == self.values_seq().len(),
            forall|i: int|
                0 <= i < r@.len() ==> name_key((#[trigger] r@[i]).0@) == self.keys()[i] && r@[i].1
                    == self.values_seq()[i],
    {
        self.entries
    }
}

} // verus!
