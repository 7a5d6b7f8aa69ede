//! Ordered maps from names to values, as requests carry them.

use vstd::prelude::*;
use crate::text::{chars_of, string_from_chars, str_eq};

verus! {

/// Query-string or form fields: each key with the values given for it, in order.
pub type FieldsView = Seq<(Seq<char>, Seq<Seq<char>>)>;

/// Header fields: each (lower-case) name with its value.
pub type HeadersView = Seq<(Seq<char>, Seq<char>)>;

/// The index of the first entry with key `k`, or `m.len()` if there is none.
pub open spec fn key_index<V>(m: Seq<(Seq<char>, V)>, k: Seq<char>) -> int
    decreases m.len(),
{
    if m.len() == 0 {
        0
    } else if m[0].0 == k {
        0
    } else {
        1 + key_index(m.skip(1), k)
    }
}

/// Whether the map has an entry with key `k`.
pub open spec fn has_key<V>(m: Seq<(Seq<char>, V)>, k: Seq<char>) -> bool {
    key_index(m, k) < m.len()
}

/// The keys of `m` are distinct.
pub open spec fn distinct_keys<V>(m: Seq<(Seq<char>, V)>) -> bool {
    forall|i: int, j: int| 0 <= i < j < m.len() ==> m[i].0 != m[j].0
}

/// Adds value `v` under key `k`: after the values `k` already has, or as a
/// new last entry.
pub open spec fn fields_add(m: FieldsView, k: Seq<char>, v: Seq<char>) -> FieldsView {
    let i = key_index(m, k);
    if i < m.len() {
        m.update(i, (k, m[i].1.push(v)))
    } else {
        m.push((k, seq![v]))
    }
}

/// The joined value of a repeated header: the values separated by `", "`;
/// an empty value so far is replaced rather than joined.
pub open spec fn join_value(old: Seq<char>, v: Seq<char>) -> Seq<char> {
    if old.len() == 0 {
        v
    } else {
        old + seq![',', ' '] + v
    }
}

/// Adds header `k: v`: appended to the value `k` already has, or as a new last entry.
pub open spec fn headers_add(m: HeadersView, k: Seq<char>, v: Seq<char>) -> HeadersView {
    let i = key_index(m, k);
    if i < m.len() {
        m.update(i, (k, join_value(m[i].1, v)))
    } else {
        m.push((k, v))
    }
}

/// `key_index` finds the first entry with the key, and no earlier one has it.
pub proof fn lemma_key_index<V>(m: Seq<(Seq<char>, V)>, k: Seq<char>)
    ensures
        0 <= key_index(m, k) <= m.len(),
        key_index(m, k) < m.len() ==> m[key_index(m, k)].0 == k,
        forall|j: int| 0 <= j < key_index(m, k) ==> m[j].0 != k,
    decreases m.len(),
{
    if m.len() > 0 && m[0].0 != k {
        lemma_key_index(m.skip(1), k);
        assert forall|j: int| 0 <= j < key_index(m, k) implies m[j].0 != k by {
            if j > 0 {
                assert(m[j] == m.skip(1)[j - 1]);
            }
        }
    }
}

/// Adding a value keeps the keys distinct.
pub proof fn lemma_fields_add_distinct(m: FieldsView, k: Seq<char>, v: Seq<char>)
    requires
        distinct_keys(m),
    ensures
        distinct_keys(fields_add(m, k, v)),
        fields_add(m, k, v).len() == m.len() + if has_key(m, k) { 0int } else { 1int },
{
    lemma_key_index(m, k);
}

/// Adding a header keeps the names distinct.
pub proof fn lemma_headers_add_distinct(m: HeadersView, k: Seq<char>, v: Seq<char>)
    requires
        distinct_keys(m),
    ensures
        distinct_keys(headers_add(m, k, v)),
{
    lemma_key_index(m, k);
}

/// Query-string or form fields.
pub struct FieldMap {
    keys: Vec<String>,
    values: Vec<Vec<String>>,
}

impl View for FieldMap {
    type V = FieldsView;

    closed spec fn view(&self) -> FieldsView {
        Seq::new(self.keys@.len(), |i: int| (self.keys@[i]@, self.values@[i]@.map_values(|s: String| s@)))
    }
}

impl FieldMap {
    #[verifier::type_invariant]
    spec fn inv(self) -> bool {
        &&& self.keys@.len() == self.values@.len()
        &&& distinct_keys(self@)
    }

    /// No fields.
    pub fn new() -> (m: Self)
        ensures
            m@ == Seq::<(Seq<char>, Seq<Seq<char>>)>::empty(),
    {
        let m = FieldMap { keys: Vec::new(), values: Vec::new() };
        assert(m@ =~= Seq::<(Seq<char>, Seq<Seq<char>>)>::empty());
        m
    }

    fn find(&self, key: &str) -> (r: usize)
        ensures
            r == key_index(self@, key@),
    {
        proof {
            use_type_invariant(self);
            lemma_key_index(self@, key@);
        }
        let mut i: usize = 0;
        while i < self.keys.len()
            invariant
                i <= self.keys@.len(),
                self.keys@.len() == self.values@.len(),
                distinct_keys(self@),
                forall|j: int| 0 <= j < i ==> self@[j].0 != key@,
                0 <= key_index(self@, key@) <= self@.len(),
                key_index(self@, key@) < self@.len() ==> self@[key_index(self@, key@)].0 == key@,
                forall|j: int| 0 <= j < key_index(self@, key@) ==> self@[j].0 != key@,
            decreases self.keys@.len() - i,
        {
            if str_eq(self.keys[i].as_str(), key) {
                assert(self@[i as int].0 == key@);
                return i;
            }
            i = i + 1;
        }
        i
    }

    /// The values given for `key`, if any.
    pub fn get(&self, key: &str) -> (r: Option<&Vec<String>>)
        ensures
            !has_key(self@, key@) ==> r is None,
            has_key(self@, key@) ==> (r matches Some(v) && v@.map_values(|s: String| s@) == self@[key_index(self@, key@)].1),
    {
        proof {
            use_type_invariant(self);
        }
        let i = self.find(key);
        if i < self.keys.len() {
            Some(&self.values[i])
        } else {
            None
        }
    }

    /// Whether `key` has values.
    pub fn contains_key(&self, key: &str) -> (r: bool)
        ensures
            r == has_key(self@, key@),
    {
        let i = self.find(key);
        i < self.keys.len()
    }

    /// Whether there are no fields.
    pub fn is_empty(&self) -> (r: bool)
        ensures
            r == (self@.len() == 0),
    {
        self.keys.len() == 0
    }

    /// The number of distinct keys.
    pub fn len(&self) -> (r: usize)
        ensures
            r == self@.len(),
    {
        self.keys.len()
    }

    /// Adds `value` under `key`.
    pub fn add(&mut self, key: String, value: String)
        ensures
            final(self)@ == fields_add(old(self)@, key@, value@),
    {
        proof {
            use_type_invariant(&*self);
            lemma_key_index(self@, key@);
        }
        let i = self.find(key.as_str());
        let ghost old_view = self@;
        let mut taken = FieldMap::new();
        std::mem::swap(&mut taken, self);
        let FieldMap { mut keys, mut values } = taken;
        if i < keys.len() {
            let mut vs = values.remove(i);
            vs.push(value);
            values.insert(i, vs);
        } else {
            keys.push(key);
            let mut vs: Vec<String> = Vec::new();
            vs.push(value);
            values.push(vs);
        }
        proof {
            lemma_fields_add_distinct(old_view, key@, value@);
            let nv = Seq::new(keys@.len(), |j: int| (keys@[j]@, values@[j]@.map_values(|s: String| s@)));
            assert(nv =~= fields_add(old_view, key@, value@)) by {
                assert forall|j: int| 0 <= j < nv.len() implies nv[j] == fields_add(old_view, key@, value@)[j] by {
                    if j == i && i < old_view.len() {
                        assert(values@[j]@.map_values(|s: String| s@) =~= old_view[j].1.push(value@));
                    }
                    if j == old_view.len() {
                        assert(values@[j]@.map_values(|s: String| s@) =~= seq![value@]);
                    }
                }
            }
        }
        let m = FieldMap { keys, values };
        assert(m@ =~= fields_add(old_view, key@, value@));
        *self = m;
    }
}

/// Request header fields.
pub struct HeaderMap {
    keys: Vec<String>,
    values: Vec<String>,
}

impl View for HeaderMap {
    type V = HeadersView;

    closed spec fn view(&self) -> HeadersView {
        Seq::new(self.keys@.len(), |i: int| (self.keys@[i]@, self.values@[i]@))
    }
}

impl HeaderMap {
    #[verifier::type_invariant]
    spec fn inv(self) -> bool {
        &&& self.keys@.len() == self.values@.len()
        &&& distinct_keys(self@)
    }

    /// No headers.
    pub fn new() -> (m: Self)
        ensures
            m@ == Seq::<(Seq<char>, Seq<char>)>::empty(),
    {
        let m = HeaderMap { keys: Vec::new(), values: Vec::new() };
        assert(m@ =~= Seq::<(Seq<char>, Seq<char>)>::empty());
        m
    }

    fn find(&self, key: &str) -> (r: usize)
        ensures
            r == key_index(self@, key@),
    {
        proof {
            use_type_invariant(self);
            lemma_key_index(self@, key@);
        }
        let mut i: usize = 0;
        while i < self.keys.len()
            invariant
                i <= self.keys@.len(),
                self.keys@.len() == self.values@.len(),
                distinct_keys(self@),
                forall|j: int| 0 <= j < i ==> self@[j].0 != key@,
                0 <= key_index(self@, key@) <= self@.len(),
                key_index(self@, key@) < self@.len() ==> self@[key_index(self@, key@)].0 == key@,
                forall|j: int| 0 <= j < key_index(self@, key@) ==> self@[j].0 != key@,
            decreases self.keys@.len() - i,
        {
            if str_eq(self.keys[i].as_str(), key) {
                assert(self@[i as int].0 == key@);
                return i;
            }
            i = i + 1;
        }
        i
    }

    /// The value of header `key` (lower-case), if present.
    pub fn get(&self, key: &str) -> (r: Option<&String>)
        ensures
            !has_key(self@, key@) ==> r is None,
            has_key(self@, key@) ==> (r matches Some(v) && v@ == self@[key_index(self@, key@)].1),
    {
        proof {
            use_type_invariant(self);
        }
        let i = self.find(key);
        if i < self.keys.len() {
            Some(&self.values[i])
        } else {
            None
        }
    }

    /// Whether header `key` (lower-case) is present.
    pub fn contains_key(&self, key: &str) -> (r: bool)
        ensures
            r == has_key(self@, key@),
    {
        let i = self.find(key);
        i < self.keys.len()
    }

    /// Whether there are no headers.
    pub fn is_empty(&self) -> (r: bool)
        ensures
            r == (self@.len() == 0),
    {
        self.keys.len() == 0
    }

    /// The number of distinct header names.
    pub fn len(&self) -> (r: usize)
        ensures
            r == self@.len(),
    {
        self.keys.len()
    }

    /// Adds header `key: value`, joining it to an earlier value of the same name.
    pub fn add(&mut self, key: String, value: String)
        ensures
            final(self)@ == headers_add(old(self)@, key@, value@),
    {
        proof {
            use_type_invariant(&*self);
            lemma_key_index(self@, key@);
        }
        let i = self.find(key.as_str());
        let ghost old_view = self@;
        let mut taken = HeaderMap::new();
        std::mem::swap(&mut taken, self);
        let HeaderMap { mut keys, mut values } = taken;
        if i < keys.len() {
            let old_value = values.remove(i);
            let joined = if old_value.as_str().is_empty() {
                value
            } else {
                let mut cs = chars_of(old_value.as_str());
                cs.push(',');
                cs.push(' ');
                let vs = chars_of(value.as_str());
                let mut k: usize = 0;
                let ghost base = cs@;
                while k < vs.len()
                    invariant
                        k <= vs@.len(),
                        cs@ == base + vs@.take(k as int),
                    decreases vs@.len() - k,
                {
                    cs.push(vs[k]);
                    assert(vs@.take(k + 1) =~= vs@.take(k as int).push(vs@[k as int]));
                    k = k + 1;
                }
                assert(vs@.take(vs@.len() as int) =~= vs@);
                assert(cs@ =~= old_value@ + seq![',', ' '] + value@);
                string_from_chars(cs.as_slice())
            };
            assert(joined@ == join_value(old_value@, value@));
            assert(old_value@ == old_view[i as int].1);
            values.insert(i, joined);
        } else {
            keys.push(key);
            values.push(value);
        }
        proof {
            lemma_headers_add_distinct(old_view, key@, value@);
            let nv = Seq::new(keys@.len(), |j: int| (keys@[j]@, values@[j]@));
            assert(nv =~= headers_add(old_view, key@, value@));
        }
        let m = HeaderMap { keys, values };
        assert(m@ =~= headers_add(old_view, key@, value@));
        *self = m;
    }
}

} // verus!
