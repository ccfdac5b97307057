//! A map keyed by strings that keeps its entries in insertion order.
use vstd::prelude::*;

verus! {

/// A map from strings to values. Each key occurs once; a key keeps the
/// position at which it was first inserted.
pub struct StrMap<V> {
    entries: Vec<(String, V)>,
}

/// The keys of an entry sequence are pairwise distinct.
pub open spec fn keys_distinct<V>(s: Seq<(String, V)>) -> bool {
    forall|i: int, j: int| 0 <= i < s.len() && 0 <= j < s.len() && i != j ==> s[i].0@ != s[j].0@
}

/// `k` is the key of some entry.
pub open spec fn has_key<V>(s: Seq<(String, V)>, k: Seq<char>) -> bool {
    exists|i: int| 0 <= i < s.len() && s[i].0@ == k
}

/// An index whose entry has key `k`.
pub open spec fn key_index<V>(s: Seq<(String, V)>, k: Seq<char>) -> int {
    choose|i: int| 0 <= i < s.len() && s[i].0@ == k
}

/// The map that an entry sequence denotes.
pub open spec fn entries_map<V: DeepView>(s: Seq<(String, V)>) -> Map<Seq<char>, V::V> {
    Map::new(|k: Seq<char>| has_key(s, k), |k: Seq<char>| s[key_index(s, k)].1.deep_view())
}

impl<V: DeepView> View for StrMap<V> {
    type V = Map<Seq<char>, V::V>;

    closed spec fn view(&self) -> Map<Seq<char>, V::V> {
        entries_map(self.entries@)
    }
}

impl<V: DeepView> DeepView for StrMap<V> {
    type V = Map<Seq<char>, V::V>;

    open spec fn deep_view(&self) -> Map<Seq<char>, V::V> {
        self@
    }
}

proof fn lemma_lookup<V: DeepView>(s: Seq<(String, V)>, i: int)
    requires
        keys_distinct(s),
        0 <= i < s.len(),
    ensures
        entries_map(s).dom().contains(s[i].0@),
        entries_map(s)[s[i].0@] == s[i].1.deep_view(),
{
    let k = s[i].0@;
    assert(has_key(s, k));
    let j = key_index(s, k);
    assert(s[j].0@ == k);
}

proof fn lemma_update<V: DeepView>(s: Seq<(String, V)>, i: int, k: String, v: V)
    requires
        keys_distinct(s),
        0 <= i < s.len(),
        s[i].0@ == k@,
    ensures
        keys_distinct(s.update(i, (k, v))),
        entries_map(s.update(i, (k, v))) == entries_map(s).insert(k@, v.deep_view()),
{
    let t = s.update(i, (k, v));
    assert forall|a: int, b: int| 0 <= a < t.len() && 0 <= b < t.len() && a != b implies t[a].0@ != t[b].0@ by {
        assert(s[a].0@ != s[b].0@);
    }
    let m1 = entries_map(t);
    let m2 = entries_map(s).insert(k@, v.deep_view());
    assert forall|q: Seq<char>| m1.dom().contains(q) <==> m2.dom().contains(q) by {
        if has_key(s, q) {
            let j = choose|j: int| 0 <= j < s.len() && s[j].0@ == q;
            assert(t[j].0@ == q || j == i);
        }
        if has_key(t, q) {
            let j = choose|j: int| 0 <= j < t.len() && t[j].0@ == q;
            assert(s[j].0@ == q || j == i);
        }
    }
    assert forall|q: Seq<char>| m1.dom().contains(q) implies m1[q] == m2[q] by {
        let j = key_index(t, q);
        assert(t[j].0@ == q);
        if q == k@ {
            assert(j == i);
        } else {
            assert(s[j].0@ == q);
            lemma_lookup(s, j);
        }
    }
    assert(m1 =~= m2);
}

proof fn lemma_push<V: DeepView>(s: Seq<(String, V)>, k: String, v: V)
    requires
        keys_distinct(s),
        !has_key(s, k@),
    ensures
        keys_distinct(s.push((k, v))),
        entries_map(s.push((k, v))) == entries_map(s).insert(k@, v.deep_view()),
{
    let t = s.push((k, v));
    assert forall|a: int, b: int| 0 <= a < t.len() && 0 <= b < t.len() && a != b implies t[a].0@ != t[b].0@ by {
        if a < s.len() && b < s.len() {
            assert(s[a].0@ != s[b].0@);
        } else if a < s.len() {
            assert(s[a].0@ != k@);
        } else {
            assert(s[b].0@ != k@);
        }
    }
    let m1 = entries_map(t);
    let m2 = entries_map(s).insert(k@, v.deep_view());
    assert forall|q: Seq<char>| m1.dom().contains(q) <==> m2.dom().contains(q) by {
        if has_key(s, q) {
            let j = choose|j: int| 0 <= j < s.len() && s[j].0@ == q;
            assert(t[j].0@ == q);
        }
        if has_key(t, q) {
            let j = choose|j: int| 0 <= j < t.len() && t[j].0@ == q;
            if j < s.len() {
                assert(s[j].0@ == q);
            }
        }
        if q == k@ {
            assert(t[s.len() as int].0@ == q);
        }
    }
    assert forall|q: Seq<char>| m1.dom().contains(q) implies m1[q] == m2[q] by {
        let j = key_index(t, q);
        assert(t[j].0@ == q);
        if q == k@ {
            assert(j == s.len());
        } else {
            assert(s[j].0@ == q);
            lemma_lookup(s, j);
        }
    }
    assert(m1 =~= m2);
}

proof fn lemma_remove<V: DeepView>(s: Seq<(String, V)>, i: int)
    requires
        keys_distinct(s),
        0 <= i < s.len(),
    ensures
        keys_distinct(s.remove(i)),
        entries_map(s.remove(i)) == entries_map(s).remove(s[i].0@),
{
    let t = s.remove(i);
    let k = s[i].0@;
    assert forall|a: int, b: int| 0 <= a < t.len() && 0 <= b < t.len() && a != b implies t[a].0@ != t[b].0@ by {
        let a2 = if a < i { a } else { a + 1 };
        let b2 = if b < i { b } else { b + 1 };
        assert(t[a] == s[a2]);
        assert(t[b] == s[b2]);
        assert(s[a2].0@ != s[b2].0@);
    }
    let m1 = entries_map(t);
    let m2 = entries_map(s).remove(k);
    assert forall|q: Seq<char>| m1.dom().contains(q) <==> m2.dom().contains(q) by {
        if has_key(s, q) && q != k {
            let j = choose|j: int| 0 <= j < s.len() && s[j].0@ == q;
            assert(j != i);
            let j2 = if j < i { j } else { j - 1 };
            assert(t[j2] == s[j]);
        }
        if has_key(t, q) {
            let j = choose|j: int| 0 <= j < t.len() && t[j].0@ == q;
            let j2 = if j < i { j } else { j + 1 };
            assert(t[j] == s[j2]);
            assert(j2 != i);
            assert(s[j2].0@ != s[i].0@);
        }
    }
    assert forall|q: Seq<char>| m1.dom().contains(q) implies m1[q] == m2[q] by {
        let j = key_index(t, q);
        assert(t[j].0@ == q);
        let j2 = if j < i { j } else { j + 1 };
        assert(t[j] == s[j2]);
        lemma_lookup(s, j2);
    }
    assert(m1 =~= m2);
}

/// The index of the entry with key `key`, if any.
fn find_key<V>(e: &Vec<(String, V)>, key: &String) -> (r: Option<usize>)
    ensures
        match r {
            Some(i) => i < e@.len() && e@[i as int].0@ == key@,
            None => !has_key(e@, key@),
        },
{
    let mut i: usize = 0;
    while i < e.len()
        invariant
            i <= e@.len(),
            forall|j: int| 0 <= j < i ==> e@[j].0@ != key@,
        decreases e@.len() - i,
    {
        if e[i].0 == *key {
            return Some(i);
        }
        i = i + 1;
    }
    None
}

impl<V> StrMap<V> {
    #[verifier::type_invariant]
    spec fn wf(self) -> bool {
        keys_distinct(self.entries@)
    }
}

impl<V: DeepView> StrMap<V> {
    /// The entries, in insertion order.
    pub closed spec fn entry_seq(self) -> Seq<(String, V)> {
        self.entries@
    }

    /// An empty map.
    pub fn new() -> (r: Self)
        ensures
            r@ == Map::<Seq<char>, V::V>::empty(),
            r.entry_seq().len() == 0,
    {
        let r = StrMap { entries: Vec::new() };
        assert(r@ =~= Map::<Seq<char>, V::V>::empty());
        r
    }

    /// The entries, in insertion order; their keys are distinct and each entry is a binding of the map.
    pub fn entries(&self) -> (r: &Vec<(String, V)>)
        ensures
            r@ == self.entry_seq(),
            keys_distinct(r@),
            forall|i: int| 0 <= i < r@.len() ==> #[trigger] self@.dom().contains(r@[i].0@)
                && self@[r@[i].0@] == r@[i].1.deep_view(),
            forall|k: Seq<char>| self@.dom().contains(k) ==> has_key(r@, k),
    {
        proof {
            use_type_invariant(self);
            assert forall|i: int| 0 <= i < self.entries@.len() implies #[trigger] self@.dom().contains(self.entries@[i].0@)
                && self@[self.entries@[i].0@] == self.entries@[i].1.deep_view() by {
                lemma_lookup(self.entries@, i);
            }
        }
        &self.entries
    }

    /// The number of keys.
    pub fn len(&self) -> (r: usize)
        ensures
            r == self@.dom().len(),
            r == self.entry_seq().len(),
    {
        proof {
            use_type_invariant(self);
            self.lemma_dom_len();
        }
        self.entries.len()
    }

    proof fn lemma_dom_len(&self)
        requires
            keys_distinct(self.entries@),
        ensures
            self@.dom().finite(),
            self@.dom().len() == self.entries@.len(),
    {
        let s = self.entries@;
        let keys = s.map_values(|e: (String, V)| e.0@);
        assert(keys.no_duplicates()) by {
            assert forall|a: int, b: int| 0 <= a < keys.len() && 0 <= b < keys.len() && a != b implies keys[a] != keys[b] by {
                assert(s[a].0@ != s[b].0@);
            }
        }
        assert(self@.dom() =~= keys.to_set()) by {
            assert forall|q: Seq<char>| self@.dom().contains(q) <==> keys.to_set().contains(q) by {
                if has_key(s, q) {
                    let j = choose|j: int| 0 <= j < s.len() && s[j].0@ == q;
                    assert(keys[j] == q);
                }
                if keys.to_set().contains(q) {
                    let j = choose|j: int| 0 <= j < keys.len() && keys[j] == q;
                    assert(s[j].0@ == q);
                }
            }
        }
        keys.unique_seq_to_set();
    }

    /// The value bound to `key`.
    pub fn get(&self, key: &str) -> (r: Option<&V>)
        ensures
            match r {
                Some(v) => self@.dom().contains(key@) && self@[key@] == v.deep_view(),
                None => !self@.dom().contains(key@),
            },
    {
        proof {
            use_type_invariant(self);
        }
        let k = key.to_owned();
        match find_key(&self.entries, &k) {
            Some(i) => {
                proof {
                    lemma_lookup(self.entries@, i as int);
                }
                Some(&self.entries[i].1)
            },
            None => None,
        }
    }

    /// Whether `key` is bound.
    pub fn contains_key(&self, key: &str) -> (r: bool)
        ensures
            r == self@.dom().contains(key@),
    {
        match self.get(key) {
            Some(_) => true,
            None => false,
        }
    }

    /// Binds `key` to `value`, replacing an earlier binding.
    pub fn insert(&mut self, key: String, value: V)
        ensures
            final(self)@ == old(self)@.insert(key@, value.deep_view()),
    {
        proof {
            use_type_invariant(&*self);
        }
        let mut e: Vec<(String, V)> = Vec::new();
        std::mem::swap(&mut self.entries, &mut e);
        let ghost s = e@;
        let found = find_key(&e, &key);
        match found {
            Some(i) => {
                proof {
                    lemma_update(s, i as int, key, value);
                }
                e.set(i, (key, value));
            },
            None => {
                proof {
                    lemma_push(s, key, value);
                }
                e.push((key, value));
            },
        }
        self.entries = e;
    }

    /// Removes the binding of `key`, returning its value.
    pub fn remove(&mut self, key: &str) -> (r: Option<V>)
        ensures
            final(self)@ == old(self)@.remove(key@),
            match r {
                Some(v) => old(self)@.dom().contains(key@) && old(self)@[key@] == v.deep_view(),
                None => !old(self)@.dom().contains(key@),
            },
    {
        proof {
            use_type_invariant(&*self);
        }
        let k = key.to_owned();
        match find_key(&self.entries, &k) {
            Some(i) => {
                proof {
                    lemma_lookup(self.entries@, i as int);
                    lemma_remove(self.entries@, i as int);
                }
                let mut e: Vec<(String, V)> = Vec::new();
                std::mem::swap(&mut self.entries, &mut e);
                let (_, v) = e.remove(i);
                self.entries = e;
                Some(v)
            },
            None => {
                assert(self@.remove(key@) =~= self@);
                None
            },
        }
    }
}

/// A list cut to its first element (an empty list stays empty).
pub open spec fn head_only<T>(s: Seq<T>) -> Seq<T> {
    if s.len() == 0 {
        s
    } else {
        seq![s[0]]
    }
}

impl StrMap<Vec<String>> {
    /// The same keys, each keeping only the first value of its list.
    pub fn first_only(&self) -> (r: StrMap<Vec<String>>)
        ensures
            r@ == Map::new(|k: Seq<char>| self@.dom().contains(k), |k: Seq<char>| head_only(self@[k])),
    {
        proof {
            use_type_invariant(self);
        }
        let n = self.entries.len();
        let mut out: Vec<(String, Vec<String>)> = Vec::new();
        let mut i: usize = 0;
        while i < n
            invariant
                n == self.entries@.len(),
                i <= n,
                out@.len() == i,
                forall|j: int| 0 <= j < i ==> (#[trigger] out@[j]).0@ == self.entries@[j].0@
                    && out@[j].1.deep_view() == head_only(self.entries@[j].1.deep_view()),
            decreases n - i,
        {
            let values = &self.entries[i].1;
            let mut first: Vec<String> = Vec::new();
            if values.len() > 0 {
                let c = values[0].clone();
                first.push(c);
                assert(first@.len() == 1);
                assert(first@[0]@ == values@[0]@);
            }
            assert(first.deep_view() =~= head_only(values.deep_view()));
            out.push((self.entries[i].0.clone(), first));
            i = i + 1;
        }
        let ghost s = self.entries@;
        let ghost t = out@;
        assert(keys_distinct(t)) by {
            assert forall|a: int, b: int| 0 <= a < t.len() && 0 <= b < t.len() && a != b implies t[a].0@ != t[b].0@ by {
                assert(t[a].0@ == s[a].0@);
                assert(t[b].0@ == s[b].0@);
            }
        }
        let r = StrMap { entries: out };
        let ghost target = Map::new(|k: Seq<char>| self@.dom().contains(k), |k: Seq<char>| head_only(self@[k]));
        assert forall|k: Seq<char>| r@.dom().contains(k) <==> target.dom().contains(k) by {
            if has_key(t, k) {
                let j = choose|j: int| 0 <= j < t.len() && t[j].0@ == k;
                assert(s[j].0@ == k);
                assert(has_key(s, k));
            }
            if has_key(s, k) {
                let j = choose|j: int| 0 <= j < s.len() && s[j].0@ == k;
                assert(t[j].0@ == k);
                assert(has_key(t, k));
            }
        }
        assert forall|k: Seq<char>| r@.dom().contains(k) implies r@[k] == target[k] by {
            let j = choose|j: int| 0 <= j < t.len() && t[j].0@ == k;
            lemma_lookup(t, j);
            assert(s[j].0@ == k);
            lemma_lookup(s, j);
        }
        assert(r@ =~= target);
        r
    }

    /// Appends `value` to the list bound to `key`, starting a list when `key` is unbound.
    pub fn append_value(&mut self, key: String, value: String)
        ensures
            final(self)@ == old(self)@.insert(
                key@,
                if old(self)@.dom().contains(key@) {
                    old(self)@[key@].push(value@)
                } else {
                    seq![value@]
                },
            ),
    {
        proof {
            use_type_invariant(&*self);
        }
        let mut e: Vec<(String, Vec<String>)> = Vec::new();
        std::mem::swap(&mut self.entries, &mut e);
        let ghost s = e@;
        match find_key(&e, &key) {
            Some(i) => {
                proof {
                    lemma_lookup(s, i as int);
                }
                let mut slot: (String, Vec<String>) = (String::new(), Vec::new());
                e.set_and_swap(i, &mut slot);
                let mut vs = slot.1;
                let ghost old_vs = vs;
                vs.push(value);
                assert(vs.deep_view() =~= old_vs.deep_view().push(value@));
                proof {
                    lemma_update(s, i as int, key, vs);
                    assert(e@.update(i as int, (key, vs)) =~= s.update(i as int, (key, vs)));
                }
                e.set(i, (key, vs));
            },
            None => {
                let mut vs: Vec<String> = Vec::new();
                vs.push(value);
                assert(vs.deep_view() =~= seq![value@]);
                proof {
                    lemma_push(s, key, vs);
                }
                e.push((key, vs));
            },
        }
        self.entries = e;
    }
}

} // verus!
