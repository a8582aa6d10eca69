use vstd::prelude::*;

use crate::text::{
    lemma_text_lt_asymmetric, lemma_text_lt_irreflexive, lemma_text_lt_total,
    lemma_text_lt_transitive, str_eq, text_less, text_lt,
};

verus! {

/// The keys of `m` are in strictly increasing text order (so none occurs twice).
pub open spec fn keys_sorted<V>(m: Seq<(Seq<char>, V)>) -> bool {
    forall|i: int, j: int| 0 <= i < j < m.len() ==> text_lt(#[trigger] m[i].0, #[trigger] m[j].0)
}

/// The keys of `m`, in order.
pub open spec fn keys_of<V>(m: Seq<(Seq<char>, V)>) -> Seq<Seq<char>> {
    m.map_values(|e: (Seq<char>, V)| e.0)
}

/// The value that `m` holds for `k`.
pub open spec fn map_get<V>(m: Seq<(Seq<char>, V)>, k: Seq<char>) -> Option<V>
    decreases m.len(),
{
    if m.len() == 0 {
        None
    } else if m[0].0 == k {
        Some(m[0].1)
    } else {
        map_get(m.skip(1), k)
    }
}

/// `m` with `k` bound to `v`: the old binding replaced, or a new one in key order.
pub open spec fn map_insert<V>(m: Seq<(Seq<char>, V)>, k: Seq<char>, v: V) -> Seq<(Seq<char>, V)>
    decreases m.len(),
{
    if m.len() == 0 {
        seq![(k, v)]
    } else if m[0].0 == k {
        seq![(k, v)] + m.skip(1)
    } else if text_lt(k, m[0].0) {
        seq![(k, v)] + m
    } else {
        seq![m[0]] + map_insert(m.skip(1), k, v)
    }
}

/// `m` with the value of `k` replaced by `v` where `k` is bound; `m` unchanged otherwise.
pub open spec fn map_put<V>(m: Seq<(Seq<char>, V)>, k: Seq<char>, v: V) -> Seq<(Seq<char>, V)>
    decreases m.len(),
{
    if m.len() == 0 {
        m
    } else if m[0].0 == k {
        seq![(k, v)] + map_put(m.skip(1), k, v)
    } else {
        seq![m[0]] + map_put(m.skip(1), k, v)
    }
}

proof fn lemma_skip_sorted<V>(m: Seq<(Seq<char>, V)>)
    requires
        keys_sorted(m),
        m.len() > 0,
    ensures
        keys_sorted(m.skip(1)),
{
    let t = m.skip(1);
    assert forall|a: int, b: int| 0 <= a < b < t.len() implies text_lt(#[trigger] t[a].0, #[trigger] t[b].0) by {
        assert(t[a] == m[a + 1]);
        assert(t[b] == m[b + 1]);
    }
}

pub proof fn lemma_map_get_at<V>(m: Seq<(Seq<char>, V)>, k: Seq<char>, i: int)
    requires
        keys_sorted(m),
        0 <= i < m.len(),
        m[i].0 == k,
    ensures
        map_get(m, k) == Some(m[i].1),
    decreases i,
{
    if i > 0 {
        lemma_text_lt_irreflexive(k);
        assert(m[0].0 != k);
        lemma_skip_sorted(m);
        lemma_map_get_at(m.skip(1), k, i - 1);
    }
}

pub proof fn lemma_map_get_absent<V>(m: Seq<(Seq<char>, V)>, k: Seq<char>)
    requires
        forall|i: int| 0 <= i < m.len() ==> (#[trigger] m[i]).0 != k,
    ensures
        map_get(m, k) is None,
    decreases m.len(),
{
    if m.len() > 0 {
        let t = m.skip(1);
        assert forall|i: int| 0 <= i < t.len() implies (#[trigger] t[i]).0 != k by {
            assert(t[i] == m[i + 1]);
        }
        lemma_map_get_absent(t, k);
    }
}

pub proof fn lemma_map_put_absent<V>(m: Seq<(Seq<char>, V)>, k: Seq<char>, v: V)
    requires
        forall|i: int| 0 <= i < m.len() ==> (#[trigger] m[i]).0 != k,
    ensures
        map_put(m, k, v) == m,
    decreases m.len(),
{
    if m.len() > 0 {
        let t = m.skip(1);
        assert forall|i: int| 0 <= i < t.len() implies (#[trigger] t[i]).0 != k by {
            assert(t[i] == m[i + 1]);
        }
        lemma_map_put_absent(t, k, v);
        assert(seq![m[0]] + t =~= m);
    }
}

pub proof fn lemma_map_put_at<V>(m: Seq<(Seq<char>, V)>, k: Seq<char>, v: V, i: int)
    requires
        keys_sorted(m),
        0 <= i < m.len(),
        m[i].0 == k,
    ensures
        map_put(m, k, v) == m.update(i, (k, v)),
    decreases i,
{
    let t = m.skip(1);
    lemma_skip_sorted(m);
    if i == 0 {
        assert forall|j: int| 0 <= j < t.len() implies (#[trigger] t[j]).0 != k by {
            assert(t[j] == m[j + 1]);
            lemma_text_lt_irreflexive(k);
        }
        lemma_map_put_absent(t, k, v);
        assert(seq![(k, v)] + t =~= m.update(0, (k, v)));
    } else {
        lemma_text_lt_irreflexive(k);
        assert(m[0].0 != k);
        lemma_map_put_at(t, k, v, i - 1);
        assert(seq![m[0]] + t.update(i - 1, (k, v)) =~= m.update(i, (k, v)));
    }
}

pub proof fn lemma_map_insert_at<V>(m: Seq<(Seq<char>, V)>, k: Seq<char>, v: V, i: int)
    requires
        keys_sorted(m),
        0 <= i <= m.len(),
        forall|j: int| 0 <= j < i ==> text_lt(#[trigger] m[j].0, k),
        i < m.len() ==> !text_lt(m[i].0, k),
    ensures
        i < m.len() && m[i].0 == k ==> map_insert(m, k, v) == m.update(i, (k, v)),
        !(i < m.len() && m[i].0 == k) ==> map_insert(m, k, v) == m.insert(i, (k, v)),
    decreases i,
{
    if m.len() == 0 {
        assert(seq![(k, v)] =~= m.insert(0, (k, v)));
    } else if i == 0 {
        if m[0].0 == k {
            assert(seq![(k, v)] + m.skip(1) =~= m.update(0, (k, v)));
        } else {
            lemma_text_lt_total(k, m[0].0);
            assert(seq![(k, v)] + m =~= m.insert(0, (k, v)));
        }
    } else {
        lemma_text_lt_irreflexive(k);
        lemma_text_lt_asymmetric(m[0].0, k);
        assert(m[0].0 != k);
        let t = m.skip(1);
        lemma_skip_sorted(m);
        assert forall|j: int| 0 <= j < i - 1 implies text_lt(#[trigger] t[j].0, k) by {
            assert(t[j] == m[j + 1]);
        }
        lemma_map_insert_at(t, k, v, i - 1);
        if i < m.len() && m[i].0 == k {
            assert(seq![m[0]] + t.update(i - 1, (k, v)) =~= m.update(i, (k, v)));
        } else {
            assert(seq![m[0]] + t.insert(i - 1, (k, v)) =~= m.insert(i, (k, v)));
        }
    }
}

/// Replacing a value never changes the keys.
pub proof fn lemma_map_put_keys<V>(m: Seq<(Seq<char>, V)>, k: Seq<char>, v: V)
    ensures
        keys_of(map_put(m, k, v)) == keys_of(m),
    decreases m.len(),
{
    if m.len() > 0 {
        let t = m.skip(1);
        lemma_map_put_keys(t, k, v);
        let rest = map_put(t, k, v);
        let head = if m[0].0 == k { (k, v) } else { m[0] };
        let r = map_put(m, k, v);
        assert(r == seq![head] + rest);
        assert(keys_of(rest).len() == keys_of(t).len());
        assert(keys_of(r) =~= keys_of(m)) by {
            assert forall|i: int| 0 <= i < r.len() implies #[trigger] keys_of(r)[i] == keys_of(m)[i] by {
                if i > 0 {
                    assert(r[i] == rest[i - 1]);
                    assert(keys_of(rest)[i - 1] == keys_of(t)[i - 1]);
                    assert(t[i - 1] == m[i]);
                }
            }
        }
    }
}

/// A map from texts to values kept in key order, as `BTreeMap<String, V>` keeps it.
pub struct StrMap<V> {
    entries: Vec<(String, V)>,
}

/// The views of a list of string-keyed entries.
pub open spec fn entry_views<V>(v: Seq<(String, V)>) -> Seq<(Seq<char>, V)> {
    v.map_values(|e: (String, V)| (e.0@, e.1))
}

impl<V> View for StrMap<V> {
    type V = Seq<(Seq<char>, V)>;

    closed spec fn view(&self) -> Seq<(Seq<char>, V)> {
        entry_views(self.entries@)
    }
}

impl<V> StrMap<V> {
    #[verifier::type_invariant]
    closed spec fn inv(self) -> bool {
        keys_sorted(entry_views(self.entries@))
    }

    /// The empty map.
    pub fn new() -> (r: StrMap<V>)
        ensures
            r@ == Seq::<(Seq<char>, V)>::empty(),
    {
        let r = StrMap { entries: Vec::new() };
        assert(r@ =~= Seq::<(Seq<char>, V)>::empty());
        r
    }

    pub fn len(&self) -> (n: usize)
        ensures
            n == self@.len(),
    {
        self.entries.len()
    }

    /// The keys are in strictly increasing text order.
    pub fn check_sorted(&self)
        ensures
            keys_sorted(self@),
    {
        proof {
            use_type_invariant(self);
        }
    }

    /// The entry at position `i` in key order.
    pub fn entry(&self, i: usize) -> (r: (&String, &V))
        requires
            i < self@.len(),
        ensures
            r.0@ == self@[i as int].0,
            *r.1 == self@[i as int].1,
    {
        let e = &self.entries[i];
        (&e.0, &e.1)
    }

    fn find(&self, k: &str) -> (r: Option<usize>)
        ensures
            match r {
                Some(i) => i < self@.len() && self@[i as int].0 == k@ && map_get(self@, k@) == Some(
                    self@[i as int].1,
                ),
                None => map_get(self@, k@) is None && forall|j: int|
                    0 <= j < self@.len() ==> (#[trigger] self@[j]).0 != k@,
            },
    {
        proof {
            use_type_invariant(self);
        }
        let mut i: usize = 0;
        while i < self.entries.len()
            invariant
                i <= self.entries.len(),
                keys_sorted(self@),
                forall|j: int| 0 <= j < i ==> (#[trigger] self@[j]).0 != k@,
            decreases self.entries.len() - i,
        {
            if str_eq(self.entries[i].0.as_str(), k) {
                proof {
                    lemma_map_get_at(self@, k@, i as int);
                }
                return Some(i);
            }
            i += 1;
        }
        proof {
            lemma_map_get_absent::<V>(self@, k@);
        }
        None
    }

    /// The value bound to `k`.
    pub fn get(&self, k: &str) -> (r: Option<&V>)
        ensures
            match r {
                Some(v) => map_get(self@, k@) == Some(*v),
                None => map_get(self@, k@) is None,
            },
    {
        match self.find(k) {
            Some(i) => Some(&self.entries[i].1),
            None => None,
        }
    }

    /// Whether `k` is bound.
    pub fn contains_key(&self, k: &str) -> (b: bool)
        ensures
            b == map_get(self@, k@) is Some,
    {
        self.find(k).is_some()
    }

    /// Binds `k` to `v`, replacing an old binding.
    pub fn insert(&mut self, k: String, v: V)
        ensures
            final(self)@ == map_insert(old(self)@, k@, v),
    {
        proof {
            use_type_invariant(&*self);
        }
        let ghost m = self@;
        let mut i: usize = 0;
        while i < self.entries.len() && text_less(self.entries[i].0.as_str(), k.as_str())
            invariant
                i <= self.entries.len(),
                m == self@,
                keys_sorted(m),
                forall|j: int| 0 <= j < i ==> text_lt(#[trigger] m[j].0, k@),
            decreases self.entries.len() - i,
        {
            i += 1;
        }
        let ghost kv = k@;
        proof {
            lemma_map_insert_at(m, kv, v, i as int);
        }
        let mut entries: Vec<(String, V)> = Vec::new();
        std::mem::swap(&mut entries, &mut self.entries);
        if i < entries.len() && str_eq(entries[i].0.as_str(), k.as_str()) {
            let ghost old_entries = entries@;
            entries.set(i, (k, v));
            assert(entry_views(entries@) =~= m.update(i as int, (kv, v)));
            proof {
                let t = entry_views(entries@);
                assert forall|a: int, b: int| 0 <= a < b < t.len() implies text_lt(#[trigger] t[a].0, #[trigger] t[b].0) by {
                    assert(t[a].0 == m[a].0);
                    assert(t[b].0 == m[b].0);
                }
            }
            self.entries = entries;
        } else {
            proof {
                if i < m.len() {
                    lemma_text_lt_total(kv, m[i as int].0);
                }
                let t = m.insert(i as int, (kv, v));
                assert forall|a: int, b: int| 0 <= a < b < t.len() implies text_lt(#[trigger] t[a].0, #[trigger] t[b].0) by {
                    if b < i {
                    } else if b == i {
                    } else if a < i {
                        if i < m.len() {
                            lemma_text_lt_transitive(m[a].0, kv, m[i as int].0);
                            if b - 1 > i {
                                lemma_text_lt_transitive(m[a].0, m[i as int].0, m[b - 1].0);
                            }
                        }
                    } else if a == i {
                        if b - 1 > i {
                            lemma_text_lt_transitive(kv, m[i as int].0, m[b - 1].0);
                        }
                    }
                }
            }
            entries.insert(i, (k, v));
            assert(entry_views(entries@) =~= m.insert(i as int, (kv, v)));
            self.entries = entries;
        }
    }

    /// Replaces the value of `k` by `v` where `k` is bound; answers whether it was.
    pub fn put(&mut self, k: &str, v: V) -> (found: bool)
        ensures
            final(self)@ == map_put(old(self)@, k@, v),
            found == map_get(old(self)@, k@) is Some,
    {
        proof {
            use_type_invariant(&*self);
        }
        let ghost m = self@;
        match self.find(k) {
            Some(i) => {
                proof {
                    lemma_map_put_at(m, k@, v, i as int);
                }
                let mut entries: Vec<(String, V)> = Vec::new();
                std::mem::swap(&mut entries, &mut self.entries);
                let key = entries[i].0.clone();
                entries.set(i, (key, v));
                assert(entry_views(entries@) =~= m.update(i as int, (k@, v)));
                proof {
                    let t = entry_views(entries@);
                    assert forall|a: int, b: int| 0 <= a < b < t.len() implies text_lt(#[trigger] t[a].0, #[trigger] t[b].0) by {
                        assert(t[a].0 == m[a].0);
                        assert(t[b].0 == m[b].0);
                    }
                }
                self.entries = entries;
                true
            },
            None => {
                proof {
                    lemma_map_put_absent(m, k@, v);
                }
                false
            },
        }
    }
}

impl<V: Copy> StrMap<V> {
    /// A copy of this map.
    pub fn copy(&self) -> (r: StrMap<V>)
        ensures
            r@ == self@,
    {
        proof {
            use_type_invariant(self);
        }
        let mut entries: Vec<(String, V)> = Vec::new();
        let mut i: usize = 0;
        while i < self.entries.len()
            invariant
                i <= self.entries.len(),
                entries.len() == i,
                entry_views(entries@) == self@.take(i as int),
            decreases self.entries.len() - i,
        {
            let k = self.entries[i].0.clone();
            let v = self.entries[i].1;
            assert(k@ == self@[i as int].0);
            let ghost prev = entries@;
            entries.push((k, v));
            assert forall|j: int| 0 <= j < i + 1 implies #[trigger] entry_views(entries@)[j]
                == self@.take(i + 1)[j] by {
                if j < i {
                    assert(entries@[j] == prev[j]);
                    assert(entry_views(prev)[j] == (prev[j].0@, prev[j].1));
                }
            }
            assert(entry_views(entries@) =~= self@.take(i + 1));
            i += 1;
        }
        assert(self@.take(i as int) =~= self@);
        StrMap { entries }
    }
}

} // verus!
