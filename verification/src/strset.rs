use vstd::prelude::*;

use crate::text::{
    lemma_text_lt_asymmetric, lemma_text_lt_irreflexive, lemma_text_lt_total,
    lemma_text_lt_transitive, str_eq, text_less, text_lt,
};

verus! {

/// The texts of `s` are in strictly increasing text order (so none occurs twice).
pub open spec fn sorted_texts(s: Seq<Seq<char>>) -> bool {
    forall|i: int, j: int| 0 <= i < j < s.len() ==> text_lt(#[trigger] s[i], #[trigger] s[j])
}

/// `x` added to the ordered set `s`, in its place; `s` itself when `x` is already there.
pub open spec fn set_insert(s: Seq<Seq<char>>, x: Seq<char>) -> Seq<Seq<char>>
    decreases s.len(),
{
    if s.len() == 0 {
        seq![x]
    } else if s[0] == x {
        s
    } else if text_lt(x, s[0]) {
        seq![x] + s
    } else {
        seq![s[0]] + set_insert(s.skip(1), x)
    }
}

/// `s` without `x`.
pub open spec fn set_remove(s: Seq<Seq<char>>, x: Seq<char>) -> Seq<Seq<char>>
    decreases s.len(),
{
    if s.len() == 0 {
        s
    } else if s[0] == x {
        set_remove(s.skip(1), x)
    } else {
        seq![s[0]] + set_remove(s.skip(1), x)
    }
}

/// Each text of `xs`, in turn, added to `s`.
pub open spec fn insert_all(s: Seq<Seq<char>>, xs: Seq<Seq<char>>) -> Seq<Seq<char>>
    decreases xs.len(),
{
    if xs.len() == 0 {
        s
    } else {
        set_insert(insert_all(s, xs.drop_last()), xs.last())
    }
}

/// Each text of `xs`, in turn, taken out of `s`.
pub open spec fn remove_all(s: Seq<Seq<char>>, xs: Seq<Seq<char>>) -> Seq<Seq<char>>
    decreases xs.len(),
{
    if xs.len() == 0 {
        s
    } else {
        set_remove(remove_all(s, xs.drop_last()), xs.last())
    }
}

/// The views of a list of strings.
pub open spec fn texts(v: Seq<String>) -> Seq<Seq<char>> {
    v.map_values(|s: String| s@)
}

pub proof fn lemma_set_insert_at(s: Seq<Seq<char>>, x: Seq<char>, i: int)
    requires
        sorted_texts(s),
        0 <= i <= s.len(),
        forall|k: int| 0 <= k < i ==> text_lt(#[trigger] s[k], x),
        i < s.len() ==> !text_lt(s[i], x),
    ensures
        i < s.len() && s[i] == x ==> set_insert(s, x) == s,
        !(i < s.len() && s[i] == x) ==> set_insert(s, x) == s.insert(i, x),
    decreases i,
{
    if s.len() == 0 {
        assert(seq![x] =~= s.insert(0, x));
    } else if i == 0 {
        if s[0] != x {
            lemma_text_lt_total(x, s[0]);
            assert(seq![x] + s =~= s.insert(0, x));
        }
    } else {
        lemma_text_lt_irreflexive(x);
        lemma_text_lt_asymmetric(s[0], x);
        assert(s[0] != x);
        let t = s.skip(1);
        assert forall|k: int| 0 <= k < i - 1 implies text_lt(#[trigger] t[k], x) by {
            assert(t[k] == s[k + 1]);
        }
        lemma_set_insert_at(t, x, i - 1);
        if i < s.len() && s[i] == x {
            assert(seq![s[0]] + t =~= s);
        } else {
            assert(seq![s[0]] + t.insert(i - 1, x) =~= s.insert(i, x));
        }
    }
}

pub proof fn lemma_insert_keeps_sorted(s: Seq<Seq<char>>, x: Seq<char>, i: int)
    requires
        sorted_texts(s),
        0 <= i <= s.len(),
        forall|k: int| 0 <= k < i ==> text_lt(#[trigger] s[k], x),
        i < s.len() ==> text_lt(x, s[i]),
    ensures
        sorted_texts(s.insert(i, x)),
{
    let t = s.insert(i, x);
    assert forall|a: int, b: int| 0 <= a < b < t.len() implies text_lt(#[trigger] t[a], #[trigger] t[b]) by {
        if b < i {
        } else if b == i {
        } else if a < i {
            if i < s.len() {
                lemma_text_lt_transitive(s[a], x, s[i]);
                if b - 1 > i {
                    lemma_text_lt_transitive(s[a], s[i], s[b - 1]);
                }
            }
        } else if a == i {
            if b - 1 > i {
                lemma_text_lt_transitive(x, s[i], s[b - 1]);
            }
        } else {
        }
    }
}

pub proof fn lemma_set_remove_absent(s: Seq<Seq<char>>, x: Seq<char>)
    requires
        !s.contains(x),
    ensures
        set_remove(s, x) == s,
    decreases s.len(),
{
    if s.len() > 0 {
        assert(!s.skip(1).contains(x)) by {
            if s.skip(1).contains(x) {
                let k = choose|k: int| 0 <= k < s.skip(1).len() && s.skip(1)[k] == x;
                assert(s[k + 1] == x);
            }
        }
        assert(s[0] != x);
        lemma_set_remove_absent(s.skip(1), x);
        assert(seq![s[0]] + s.skip(1) =~= s);
    }
}

pub proof fn lemma_set_remove_at(s: Seq<Seq<char>>, x: Seq<char>, i: int)
    requires
        sorted_texts(s),
        0 <= i < s.len(),
        s[i] == x,
    ensures
        set_remove(s, x) == s.remove(i),
    decreases i,
{
    let t = s.skip(1);
    if i == 0 {
        assert(!t.contains(x)) by {
            if t.contains(x) {
                let k = choose|k: int| 0 <= k < t.len() && t[k] == x;
                assert(s[k + 1] == x);
                lemma_text_lt_irreflexive(x);
            }
        }
        lemma_set_remove_absent(t, x);
        assert(t =~= s.remove(0));
    } else {
        assert(s[0] != x) by {
            lemma_text_lt_irreflexive(x);
        }
        assert(sorted_texts(t)) by {
            assert forall|a: int, b: int| 0 <= a < b < t.len() implies text_lt(#[trigger] t[a], #[trigger] t[b]) by {
                assert(t[a] == s[a + 1]);
                assert(t[b] == s[b + 1]);
            }
        }
        lemma_set_remove_at(t, x, i - 1);
        assert(seq![s[0]] + t.remove(i - 1) =~= s.remove(i));
    }
}

pub proof fn lemma_set_insert_contains(s: Seq<Seq<char>>, x: Seq<char>, y: Seq<char>)
    ensures
        set_insert(s, x).contains(y) == (s.contains(y) || y == x),
    decreases s.len(),
{
    if s.len() == 0 {
        assert(seq![x][0] == x);
    } else if s[0] == x {
    } else if text_lt(x, s[0]) {
        let r = seq![x] + s;
        if s.contains(y) {
            let k = choose|k: int| 0 <= k < s.len() && s[k] == y;
            assert(r[k + 1] == y);
        }
        if r.contains(y) && y != x {
            let k = choose|k: int| 0 <= k < r.len() && r[k] == y;
            assert(s[k - 1] == y);
        }
        assert(r[0] == x);
    } else {
        let t = s.skip(1);
        lemma_set_insert_contains(t, x, y);
        let r = seq![s[0]] + set_insert(t, x);
        if s.contains(y) {
            let k = choose|k: int| 0 <= k < s.len() && s[k] == y;
            if k == 0 {
                assert(r[0] == y);
            } else {
                assert(t[k - 1] == y);
                let j = choose|j: int| 0 <= j < set_insert(t, x).len() && set_insert(t, x)[j] == y;
                assert(r[j + 1] == y);
            }
        }
        if y == x {
            let j = choose|j: int| 0 <= j < set_insert(t, x).len() && set_insert(t, x)[j] == y;
            assert(r[j + 1] == y);
        }
        if r.contains(y) {
            let k = choose|k: int| 0 <= k < r.len() && r[k] == y;
            if k == 0 {
                assert(s[0] == y);
            } else {
                assert(set_insert(t, x)[k - 1] == y);
                if t.contains(y) {
                    let j = choose|j: int| 0 <= j < t.len() && t[j] == y;
                    assert(s[j + 1] == y);
                }
            }
        }
    }
}

pub proof fn lemma_set_remove_contains(s: Seq<Seq<char>>, x: Seq<char>, y: Seq<char>)
    ensures
        set_remove(s, x).contains(y) == (s.contains(y) && y != x),
    decreases s.len(),
{
    if s.len() > 0 {
        let t = s.skip(1);
        lemma_set_remove_contains(t, x, y);
        if s.contains(y) && y != x {
            let k = choose|k: int| 0 <= k < s.len() && s[k] == y;
            if k > 0 {
                assert(t[k - 1] == y);
            }
        }
        if s[0] != x {
            let r = seq![s[0]] + set_remove(t, x);
            if r.contains(y) {
                let k = choose|k: int| 0 <= k < r.len() && r[k] == y;
                if k > 0 {
                    assert(set_remove(t, x)[k - 1] == y);
                }
            }
            if set_remove(t, x).contains(y) {
                let k = choose|k: int| 0 <= k < set_remove(t, x).len() && set_remove(t, x)[k] == y;
                assert(r[k + 1] == y);
            }
            assert(r[0] == s[0]);
        }
        if t.contains(y) {
            let k = choose|k: int| 0 <= k < t.len() && t[k] == y;
            assert(s[k + 1] == y);
        }
    }
}

pub proof fn lemma_insert_all_contains(s: Seq<Seq<char>>, xs: Seq<Seq<char>>, y: Seq<char>)
    ensures
        insert_all(s, xs).contains(y) == (s.contains(y) || xs.contains(y)),
    decreases xs.len(),
{
    if xs.len() > 0 {
        let d = xs.drop_last();
        lemma_insert_all_contains(s, d, y);
        lemma_set_insert_contains(insert_all(s, d), xs.last(), y);
        if d.contains(y) {
            let k = choose|k: int| 0 <= k < d.len() && d[k] == y;
            assert(xs[k] == y);
        }
        if xs.contains(y) && y != xs.last() {
            let k = choose|k: int| 0 <= k < xs.len() && xs[k] == y;
            assert(d[k] == y);
        }
    }
}

pub proof fn lemma_remove_all_contains(s: Seq<Seq<char>>, xs: Seq<Seq<char>>, y: Seq<char>)
    ensures
        remove_all(s, xs).contains(y) == (s.contains(y) && !xs.contains(y)),
    decreases xs.len(),
{
    if xs.len() > 0 {
        let d = xs.drop_last();
        lemma_remove_all_contains(s, d, y);
        lemma_set_remove_contains(remove_all(s, d), xs.last(), y);
        if d.contains(y) {
            let k = choose|k: int| 0 <= k < d.len() && d[k] == y;
            assert(xs[k] == y);
        }
        if xs.contains(y) && y != xs.last() {
            let k = choose|k: int| 0 <= k < xs.len() && xs[k] == y;
            assert(d[k] == y);
        }
    }
}

/// Adding the elements of an ordered set, in order, to the empty set gives it back.
pub proof fn lemma_insert_all_sorted(xs: Seq<Seq<char>>)
    requires
        sorted_texts(xs),
    ensures
        insert_all(Seq::empty(), xs) == xs,
    decreases xs.len(),
{
    if xs.len() > 0 {
        let d = xs.drop_last();
        assert(sorted_texts(d)) by {
            assert forall|a: int, b: int| 0 <= a < b < d.len() implies text_lt(#[trigger] d[a], #[trigger] d[b]) by {
                assert(d[a] == xs[a]);
                assert(d[b] == xs[b]);
            }
        }
        lemma_insert_all_sorted(d);
        assert forall|k: int| 0 <= k < d.len() implies text_lt(#[trigger] d[k], xs.last()) by {
            assert(d[k] == xs[k]);
        }
        lemma_set_insert_at(d, xs.last(), d.len() as int);
        assert(d.insert(d.len() as int, xs.last()) =~= xs);
    }
}

/// A set of texts kept in text order, as `BTreeSet<String>` keeps it.
pub struct StrSet {
    items: Vec<String>,
}

impl View for StrSet {
    type V = Seq<Seq<char>>;

    closed spec fn view(&self) -> Seq<Seq<char>> {
        texts(self.items@)
    }
}

impl StrSet {
    #[verifier::type_invariant]
    closed spec fn inv(self) -> bool {
        sorted_texts(texts(self.items@))
    }

    /// The empty set.
    pub fn new() -> (r: StrSet)
        ensures
            r@ == Seq::<Seq<char>>::empty(),
    {
        let r = StrSet { items: Vec::new() };
        assert(r@ =~= Seq::<Seq<char>>::empty());
        r
    }

    pub fn len(&self) -> (n: usize)
        ensures
            n == self@.len(),
    {
        self.items.len()
    }

    pub fn is_empty(&self) -> (b: bool)
        ensures
            b == (self@.len() == 0),
    {
        self.items.len() == 0
    }

    /// The element at position `i` in text order.
    pub fn item(&self, i: usize) -> (r: &String)
        requires
            i < self@.len(),
        ensures
            r@ == self@[i as int],
    {
        &self.items[i]
    }

    /// Whether `x` is an element.
    pub fn contains(&self, x: &str) -> (b: bool)
        ensures
            b == self@.contains(x@),
    {
        let mut i: usize = 0;
        while i < self.items.len()
            invariant
                i <= self.items.len(),
                forall|k: int| 0 <= k < i ==> self@[k] != x@,
            decreases self.items.len() - i,
        {
            if str_eq(self.items[i].as_str(), x) {
                assert(self@[i as int] == x@);
                return true;
            }
            i += 1;
        }
        false
    }

    /// Adds `x`; answers whether it was new.
    pub fn insert(&mut self, x: String) -> (added: bool)
        ensures
            final(self)@ == set_insert(old(self)@, x@),
            sorted_texts(final(self)@),
            added == !old(self)@.contains(x@),
    {
        proof {
            use_type_invariant(&*self);
        }
        let ghost s = self@;
        let mut i: usize = 0;
        while i < self.items.len() && text_less(self.items[i].as_str(), x.as_str())
            invariant
                i <= self.items.len(),
                s == self@,
                sorted_texts(s),
                forall|k: int| 0 <= k < i ==> text_lt(#[trigger] s[k], x@),
            decreases self.items.len() - i,
        {
            i += 1;
        }
        proof {
            lemma_set_insert_at(s, x@, i as int);
        }
        if i < self.items.len() && str_eq(self.items[i].as_str(), x.as_str()) {
            proof {
                assert(s.contains(x@) && s[i as int] == x@);
            }
            return false;
        }
        proof {
            if i < s.len() {
                lemma_text_lt_total(x@, s[i as int]);
            }
            lemma_insert_keeps_sorted(s, x@, i as int);
            assert(!s.contains(x@)) by {
                if s.contains(x@) {
                    let k = choose|k: int| 0 <= k < s.len() && s[k] == x@;
                    lemma_text_lt_irreflexive(x@);
                    if k > i {
                        lemma_text_lt_transitive(x@, s[i as int], s[k]);
                    }
                }
            }
        }
        let ghost xv = x@;
        let mut items: Vec<String> = Vec::new();
        std::mem::swap(&mut items, &mut self.items);
        items.insert(i, x);
        assert(texts(items@) =~= s.insert(i as int, xv));
        self.items = items;
        true
    }

    /// Takes `x` out; answers whether it was there.
    pub fn remove(&mut self, x: &str) -> (removed: bool)
        ensures
            final(self)@ == set_remove(old(self)@, x@),
            sorted_texts(final(self)@),
            removed == old(self)@.contains(x@),
    {
        proof {
            use_type_invariant(&*self);
        }
        let ghost s = self@;
        let mut i: usize = 0;
        while i < self.items.len()
            invariant
                i <= self.items.len(),
                s == self@,
                s == old(self)@,
                sorted_texts(s),
                forall|k: int| 0 <= k < i ==> s[k] != x@,
            decreases self.items.len() - i,
        {
            if str_eq(self.items[i].as_str(), x) {
                proof {
                    lemma_set_remove_at(s, x@, i as int);
                }
                let mut items: Vec<String> = Vec::new();
                std::mem::swap(&mut items, &mut self.items);
                items.remove(i);
                let ghost t = texts(items@);
                assert(t =~= s.remove(i as int));
                proof {
                    assert(sorted_texts(t)) by {
                        assert forall|a: int, b: int| 0 <= a < b < t.len() implies text_lt(#[trigger] t[a], #[trigger] t[b]) by {
                            if a >= i {
                                assert(t[a] == s[a + 1]);
                            }
                            if b >= i {
                                assert(t[b] == s[b + 1]);
                            }
                        }
                    }
                }
                self.items = items;
                assert(s[i as int] == x@);
                return true;
            }
            i += 1;
        }
        proof {
            lemma_set_remove_absent(s, x@);
            use_type_invariant(&*self);
        }
        false
    }

    /// A copy of this set.
    pub fn copy(&self) -> (r: StrSet)
        ensures
            r@ == self@,
    {
        proof {
            use_type_invariant(self);
        }
        let mut items: Vec<String> = Vec::new();
        let mut i: usize = 0;
        while i < self.items.len()
            invariant
                i <= self.items.len(),
                texts(items@) == self@.take(i as int),
                items.len() == i,
            decreases self.items.len() - i,
        {
            let c = self.items[i].clone();
            assert(c@ == self@[i as int]);
            let ghost prev = items@;
            items.push(c);
            assert forall|k: int| 0 <= k < i + 1 implies #[trigger] texts(items@)[k] == self@.take(i + 1)[k] by {
                if k < i {
                    assert(items@[k] == prev[k]);
                    assert(texts(prev)[k] == prev[k]@);
                }
            }
            assert(texts(items@) =~= self@.take(i + 1));
            i += 1;
        }
        assert(self@.take(i as int) =~= self@);
        StrSet { items }
    }

    /// The elements in text order.
    pub fn to_vec(&self) -> (r: Vec<String>)
        ensures
            texts(r@) == self@,
    {
        let mut out: Vec<String> = Vec::new();
        let mut i: usize = 0;
        while i < self.items.len()
            invariant
                i <= self.items.len(),
                texts(out@) == self@.take(i as int),
                out.len() == i,
            decreases self.items.len() - i,
        {
            let c = self.items[i].clone();
            assert(c@ == self@[i as int]);
            let ghost prev = out@;
            out.push(c);
            assert forall|k: int| 0 <= k < i + 1 implies #[trigger] texts(out@)[k] == self@.take(i + 1)[k] by {
                if k < i {
                    assert(out@[k] == prev[k]);
                    assert(texts(prev)[k] == prev[k]@);
                }
            }
            assert(texts(out@) =~= self@.take(i + 1));
            i += 1;
        }
        assert(self@.take(i as int) =~= self@);
        out
    }

    /// Adds every string of `xs`, in order.
    pub fn insert_vec(&mut self, xs: &Vec<String>)
        ensures
            final(self)@ == insert_all(old(self)@, texts(xs@)),
    {
        let ghost s0 = self@;
        let mut i: usize = 0;
        while i < xs.len()
            invariant
                i <= xs.len(),
                self@ == insert_all(s0, texts(xs@).take(i as int)),
            decreases xs.len() - i,
        {
            assert(texts(xs@).take(i + 1).drop_last() =~= texts(xs@).take(i as int));
            self.insert(xs[i].clone());
            i += 1;
        }
        assert(texts(xs@).take(i as int) =~= texts(xs@));
    }

    /// Takes out every string of `xs`, in order.
    pub fn remove_vec(&mut self, xs: &Vec<String>)
        ensures
            final(self)@ == remove_all(old(self)@, texts(xs@)),
    {
        let ghost s0 = self@;
        let mut i: usize = 0;
        while i < xs.len()
            invariant
                i <= xs.len(),
                self@ == remove_all(s0, texts(xs@).take(i as int)),
            decreases xs.len() - i,
        {
            assert(texts(xs@).take(i + 1).drop_last() =~= texts(xs@).take(i as int));
            self.remove(xs[i].as_str());
            i += 1;
        }
        assert(texts(xs@).take(i as int) =~= texts(xs@));
    }

    /// The set of the strings of `xs`.
    pub fn from_vec(xs: &Vec<String>) -> (r: StrSet)
        ensures
            r@ == insert_all(Seq::empty(), texts(xs@)),
    {
        let mut r = StrSet::new();
        r.insert_vec(xs);
        r
    }
}

} // verus!
