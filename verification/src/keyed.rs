//! A small map over keys that are compared by what they denote.
use vstd::prelude::*;

verus! {

/// Keys that are equal when their views are.
pub trait Keyed: View + Sized {
    fn same(&self, other: &Self) -> (r: bool)
        ensures
            r == (self@ == other@),
    ;

    fn copy(&self) -> (k: Self)
        ensures
            k@ == self@,
    ;
}

/// What a list of keys denotes.
pub open spec fn views<K: View>(keys: Seq<K>) -> Seq<K::V> {
    keys.map_values(|k: K| k@)
}

/// A map from keys to values, kept as a list of entries.
pub struct KeyedMap<K: Keyed, V> {
    entries: Vec<(K, V)>,
}

impl<K: Keyed, V> KeyedMap<K, V> {
    pub closed spec fn holds(&self, k: K::V, i: int) -> bool {
        0 <= i < self.entries@.len() && self.entries@[i].0@ == k
    }

    /// Each key has one entry.
    pub closed spec fn wf(&self) -> bool {
        forall|i: int, j: int|
            0 <= i < j < self.entries@.len() ==> (#[trigger] self.entries@[i]).0@ != (
            #[trigger] self.entries@[j]).0@
    }

    spec fn place(&self, k: K::V) -> int {
        choose|i: int| self.holds(k, i)
    }

    /// The keys with an entry, in entry order.
    pub closed spec fn listed(&self) -> Seq<K::V> {
        self.entries@.map_values(|e: (K, V)| e.0@)
    }
}

impl<K: Keyed, V> View for KeyedMap<K, V> {
    type V = Map<K::V, V>;

    closed spec fn view(&self) -> Map<K::V, V> {
        Map::new(
            |k: K::V| exists|i: int| self.holds(k, i),
            |k: K::V| self.entries@[self.place(k)].1,
        )
    }
}

impl<K: Keyed, V> KeyedMap<K, V> {
    proof fn lemma_entry(&self, i: int)
        requires
            self.wf(),
            0 <= i < self.entries@.len(),
        ensures
            self@.dom().contains(self.entries@[i].0@),
            self@[self.entries@[i].0@] == self.entries@[i].1,
            self.holds(self.entries@[i].0@, i),
    {
        let k = self.entries@[i].0@;
        assert(self.holds(k, i));
        let p = self.place(k);
        assert(self.holds(k, p));
        if p != i {
            if p < i {
                assert(self.entries@[p].0@ != self.entries@[i].0@);
            } else {
                assert(self.entries@[i].0@ != self.entries@[p].0@);
            }
        }
    }

    proof fn lemma_dom(&self)
        requires
            self.wf(),
        ensures
            self@.dom().finite(),
            self@.dom().len() == self.entries@.len(),
            self@.dom() == self.listed().to_set(),
            self.listed().no_duplicates(),
    {
        let keys = self.listed();
        assert forall|k: K::V| self@.dom().contains(k) <==> keys.to_set().contains(k) by {
            if keys.contains(k) {
                let i = choose|i: int| 0 <= i < keys.len() && keys[i] == k;
                assert(self.holds(k, i));
            }
            if self@.dom().contains(k) {
                let i = choose|i: int| self.holds(k, i);
                assert(keys[i] == k);
            }
        }
        assert(self@.dom() =~= keys.to_set());
        keys.unique_seq_to_set();
    }

    /// A map has finitely many keys.
    pub proof fn lemma_finite(&self)
        requires
            self.wf(),
        ensures
            self@.dom().finite(),
    {
        self.lemma_dom();
    }

    pub fn new() -> (m: Self)
        ensures
            m.wf(),
            m@ == Map::<K::V, V>::empty(),
    {
        let m = KeyedMap { entries: Vec::new() };
        assert(m@ =~= Map::<K::V, V>::empty());
        m
    }

    /// Every key is listed once.
    pub proof fn lemma_listed(&self)
        requires
            self.wf(),
        ensures
            self.listed().no_duplicates(),
            self.listed().to_set() == self@.dom(),
            forall|k: K::V| self@.dom().contains(k) <==> #[trigger] self.listed().contains(k),
    {
        self.lemma_dom();
        assert forall|k: K::V| self@.dom().contains(k) <==> #[trigger] self.listed().contains(k) by {
            assert(self.listed().to_set().contains(k) == self.listed().contains(k));
        }
    }

    /// The key of entry `i`.
    pub fn key_at(&self, i: usize) -> (k: &K)
        requires
            i < self.listed().len(),
        ensures
            k@ == self.listed()[i as int],
    {
        &self.entries[i].0
    }

    /// The value of entry `i`.
    pub fn value_at(&self, i: usize) -> (v: &V)
        requires
            self.wf(),
            i < self.listed().len(),
        ensures
            *v == self@[self.listed()[i as int]],
    {
        proof {
            self.lemma_entry(i as int);
        }
        &self.entries[i].1
    }

    /// How many keys have an entry.
    pub fn len(&self) -> (n: usize)
        requires
            self.wf(),
        ensures
            n == self@.dom().len(),
            n == self.listed().len(),
            self@.dom().finite(),
    {
        proof {
            self.lemma_dom();
        }
        self.entries.len()
    }

    fn position(&self, key: &K) -> (r: Option<usize>)
        ensures
            match r {
                Some(i) => self.holds(key@, i as int),
                None => !self@.dom().contains(key@),
            },
    {
        let mut i: usize = 0;
        while i < self.entries.len()
            invariant
                i <= self.entries.len(),
                forall|j: int| 0 <= j < i ==> !self.holds(key@, j),
            decreases self.entries.len() - i,
        {
            if self.entries[i].0.same(key) {
                return Some(i);
            }
            i = i + 1;
        }
        None
    }

    pub fn contains(&self, key: &K) -> (r: bool)
        ensures
            r == self@.dom().contains(key@),
    {
        match self.position(key) {
            Some(i) => {
                assert(self.holds(key@, i as int));
                true
            },
            None => false,
        }
    }

    pub fn get(&self, key: &K) -> (r: Option<&V>)
        requires
            self.wf(),
        ensures
            r == (if self@.dom().contains(key@) {
                Some(&self@[key@])
            } else {
                None
            }),
    {
        match self.position(key) {
            Some(i) => {
                proof {
                    self.lemma_entry(i as int);
                }
                Some(&self.entries[i].1)
            },
            None => None,
        }
    }

    /// Sets the value of `key`.
    pub fn insert(&mut self, key: K, value: V)
        requires
            old(self).wf(),
        ensures
            final(self).wf(),
            final(self)@ == old(self)@.insert(key@, value),
    {
        self.remove(&key);
        let ghost mid = *self;
        let ghost k = key@;
        self.entries.push((key, value));
        proof {
            assert(!mid@.dom().contains(k));
            assert(forall|i: int| 0 <= i < mid.entries@.len() ==> self.entries@[i] == mid.entries@[i]);
            assert(self.entries@[mid.entries@.len() as int].0@ == k);
            assert forall|d: K::V| self@.dom().contains(d) <==> mid@.insert(k, value).dom().contains(d) by {
                if mid@.dom().contains(d) {
                    let i = choose|i: int| mid.holds(d, i);
                    assert(self.holds(d, i));
                }
                if d == k {
                    assert(self.holds(d, mid.entries@.len() as int));
                }
                if self@.dom().contains(d) && d != k {
                    let i = choose|i: int| self.holds(d, i);
                    assert(mid.holds(d, i));
                }
            }
            assert(self.wf()) by {
                assert forall|i: int, j: int| 0 <= i < j < self.entries@.len() implies (#[trigger] self.entries@[i]).0@ != (#[trigger] self.entries@[j]).0@ by {
                    if j == mid.entries@.len() {
                        if self.entries@[i].0@ == k {
                            assert(mid.holds(k, i));
                        }
                    } else {
                        assert(mid.entries@[i].0@ != mid.entries@[j].0@);
                    }
                }
            }
            assert forall|d: K::V| self@.dom().contains(d) implies self@[d] == mid@.insert(k, value)[d] by {
                let i = choose|i: int| self.holds(d, i);
                self.lemma_entry(i);
                if i < mid.entries@.len() {
                    assert(mid.holds(d, i));
                    mid.lemma_entry(i);
                }
            }
            assert(self@ =~= mid@.insert(k, value));
            assert(mid@.insert(k, value) =~= old(self)@.insert(k, value));
        }
    }

    /// Drops the entry of `key`; says whether there was one.
    pub fn remove(&mut self, key: &K) -> (had: bool)
        requires
            old(self).wf(),
        ensures
            final(self).wf(),
            had == old(self)@.dom().contains(key@),
            final(self)@ == old(self)@.remove(key@),
    {
        self.take(key).is_some()
    }

    /// Takes the entry of `key` out.
    pub fn take(&mut self, key: &K) -> (r: Option<V>)
        requires
            old(self).wf(),
        ensures
            final(self).wf(),
            r == (if old(self)@.dom().contains(key@) {
                Some(old(self)@[key@])
            } else {
                None
            }),
            final(self)@ == old(self)@.remove(key@),
    {
        let ghost before = *self;
        match self.position(key) {
            Some(i) => {
                assert(before.holds(key@, i as int));
                let (_, value) = self.entries.remove(i);
                proof {
                    before.lemma_entry(i as int);
                }
                proof {
                    assert(self.entries@ == before.entries@.remove(i as int));
                    assert forall|a: int, b: int| 0 <= a < b < self.entries@.len() implies (#[trigger] self.entries@[a]).0@ != (#[trigger] self.entries@[b]).0@ by {
                        let x = if a < i { a } else { a + 1 };
                        let y = if b < i { b } else { b + 1 };
                        assert(self.entries@[a] == before.entries@[x]);
                        assert(self.entries@[b] == before.entries@[y]);
                    }
                    assert forall|d: K::V| self@.dom().contains(d) <==> before@.remove(key@).dom().contains(d) by {
                        if self@.dom().contains(d) {
                            let a = choose|a: int| self.holds(d, a);
                            let x = if a < i { a } else { a + 1 };
                            assert(self.entries@[a] == before.entries@[x]);
                            assert(before.holds(d, x));
                            if d == key@ {
                                if x < i {
                                    assert(before.entries@[x].0@ != before.entries@[i as int].0@);
                                } else {
                                    assert(before.entries@[i as int].0@ != before.entries@[x].0@);
                                }
                            }
                        }
                        if before@.remove(key@).dom().contains(d) {
                            let x = choose|x: int| before.holds(d, x);
                            assert(x != i);
                            let a = if x < i { x } else { x - 1 };
                            assert(self.entries@[a] == before.entries@[x]);
                            assert(self.holds(d, a));
                        }
                    }
                    assert forall|d: K::V| self@.dom().contains(d) implies self@[d] == before@.remove(key@)[d] by {
                        let a = choose|a: int| self.holds(d, a);
                        let x = if a < i { a } else { a + 1 };
                        assert(self.entries@[a] == before.entries@[x]);
                        self.lemma_entry(a);
                        before.lemma_entry(x);
                    }
                    assert(self@ =~= before@.remove(key@));
                }
                Some(value)
            },
            None => {
                assert(self@ =~= before@.remove(key@));
                None
            },
        }
    }

    /// The keys with an entry.
    pub fn keys(&self) -> (out: Vec<K>)
        requires
            self.wf(),
        ensures
            views(out@).no_duplicates(),
            views(out@).to_set() == self@.dom(),
            out@.len() == self@.dom().len(),
            self@.dom().finite(),
    {
        let mut out: Vec<K> = Vec::new();
        let mut i: usize = 0;
        while i < self.entries.len()
            invariant
                i <= self.entries.len(),
                out@.len() == i,
                forall|j: int| 0 <= j < i ==> (#[trigger] out@[j])@ == self.entries@[j].0@,
            decreases self.entries.len() - i,
        {
            out.push(self.entries[i].0.copy());
            i = i + 1;
        }
        proof {
            assert(views(out@) =~= self.listed());
            self.lemma_dom();
        }
        out
    }
}

impl Keyed for String {
    fn same(&self, other: &Self) -> (r: bool) {
        crate::text::same_text(self, other)
    }

    fn copy(&self) -> (k: Self) {
        self.clone()
    }
}

/// A map from texts to values.
pub type TextMap<V> = KeyedMap<String, V>;

} // verus!
