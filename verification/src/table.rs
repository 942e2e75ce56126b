//! Association table keyed by `String`, keeping insertion order.
//!
//! Every mapping in the analysis (module tables, export tables, the graphs)
//! is one of these: a vector of key/value pairs with pairwise-distinct keys.
//! Insertion order is kept, which makes every walk over a table
//! deterministic.

use vstd::prelude::*;

verus! {

#[derive(Debug, PartialEq, Eq)]
pub struct StrTable<V> {
    pairs: Vec<(String, V)>,
}

impl<V: DeepView> View for StrTable<V> {
    type V = Seq<(Seq<char>, V::V)>;

    closed spec fn view(&self) -> Seq<(Seq<char>, V::V)> {
        self.pairs.deep_view()
    }
}

impl<V: DeepView> DeepView for StrTable<V> {
    type V = Seq<(Seq<char>, V::V)>;

    open spec fn deep_view(&self) -> Seq<(Seq<char>, V::V)> {
        self.view()
    }
}

/// The keys of a pair sequence, in order.
pub open spec fn keys_of<T>(s: Seq<(Seq<char>, T)>) -> Seq<Seq<char>> {
    s.map_values(|p: (Seq<char>, T)| p.0)
}

/// Whether a pair sequence binds the key `k`.
pub open spec fn seq_contains_key<T>(s: Seq<(Seq<char>, T)>, k: Seq<char>) -> bool {
    exists|i: int| 0 <= i < s.len() && s[i].0 == k
}

/// The index of the first pair binding `k`.
pub open spec fn seq_key_index<T>(s: Seq<(Seq<char>, T)>, k: Seq<char>) -> int
    decreases s.len(),
{
    if s.len() == 0 {
        0
    } else if s[0].0 == k {
        0
    } else {
        1 + seq_key_index(s.drop_first(), k)
    }
}

/// The value bound to `k` by the first pair with that key.
pub open spec fn seq_get<T>(s: Seq<(Seq<char>, T)>, k: Seq<char>) -> T {
    s[seq_key_index(s, k)].1
}

/// Pairwise-distinct keys.
pub open spec fn distinct_keys<T>(s: Seq<(Seq<char>, T)>) -> bool {
    forall|i: int, j: int| 0 <= i < j < s.len() ==> s[i].0 != s[j].0
}

/// `s` with the value at `k` replaced by `v` (first binding), or with
/// `(k, v)` appended when `k` is unbound.
pub open spec fn seq_set<T>(s: Seq<(Seq<char>, T)>, k: Seq<char>, v: T) -> Seq<(Seq<char>, T)> {
    if seq_contains_key(s, k) {
        s.update(seq_key_index(s, k), (k, v))
    } else {
        s.push((k, v))
    }
}

pub proof fn lemma_key_index<T>(s: Seq<(Seq<char>, T)>, k: Seq<char>)
    requires
        seq_contains_key(s, k),
    ensures
        0 <= seq_key_index(s, k) < s.len(),
        s[seq_key_index(s, k)].0 == k,
        forall|i: int| 0 <= i < seq_key_index(s, k) ==> s[i].0 != k,
    decreases s.len(),
{
    if s.len() > 0 && s[0].0 != k {
        assert(seq_contains_key(s.drop_first(), k)) by {
            let i = choose|i: int| 0 <= i < s.len() && s[i].0 == k;
            assert(s.drop_first()[i - 1].0 == k);
        }
        lemma_key_index(s.drop_first(), k);
        assert forall|i: int| 0 <= i < seq_key_index(s, k) implies s[i].0 != k by {
            if i > 0 {
                assert(s.drop_first()[i - 1].0 != k);
            }
        }
    }
}

/// With distinct keys, any index whose pair binds `k` is the key index.
pub proof fn lemma_key_index_unique<T>(s: Seq<(Seq<char>, T)>, k: Seq<char>, i: int)
    requires
        distinct_keys(s),
        0 <= i < s.len(),
        s[i].0 == k,
    ensures
        seq_key_index(s, k) == i,
{
    assert(seq_contains_key(s, k));
    lemma_key_index(s, k);
    let j = seq_key_index(s, k);
    if i < j {
        assert(s[i].0 != s[j].0);
    } else if j < i {
        assert(s[j].0 != s[i].0);
    }
}

impl<V: DeepView> StrTable<V> {
    /// Distinct keys; every table the library builds satisfies this.
    pub open spec fn wf(&self) -> bool {
        distinct_keys(self@)
    }

    pub open spec fn contains_spec(&self, k: Seq<char>) -> bool {
        seq_contains_key(self@, k)
    }

    pub open spec fn get_spec(&self, k: Seq<char>) -> V::V {
        seq_get(self@, k)
    }

    pub fn new() -> (r: Self)
        ensures
            r@ =~= Seq::<(Seq<char>, V::V)>::empty(),
            r.wf(),
    {
        StrTable { pairs: Vec::new() }
    }

    pub fn len(&self) -> (r: usize)
        ensures
            r == self@.len(),
    {
        proof {
            assert(self@.len() == self.pairs@.len());
        }
        self.pairs.len()
    }

    fn position(&self, k: &String) -> (r: Option<usize>)
        ensures
            match r {
                Some(i) => i < self@.len() && self@[i as int].0 == k@ && forall|j: int|
                    0 <= j < i ==> self@[j].0 != k@,
                None => !self.contains_spec(k@),
            },
    {
        let n = self.pairs.len();
        assert(self@.len() == n);
        for i in 0..n
            invariant
                n == self@.len(),
                n == self.pairs@.len(),
                forall|j: int| 0 <= j < i ==> self@[j].0 != k@,
        {
            assert(self@[i as int] == (self.pairs@[i as int].0@, self.pairs@[i as int].1.deep_view()));
            if self.pairs[i].0 == *k {
                return Some(i);
            }
        }
        None
    }

    pub fn contains_key(&self, k: &String) -> (r: bool)
        ensures
            r == self.contains_spec(k@),
    {
        self.position(k).is_some()
    }

    pub fn get(&self, k: &String) -> (r: Option<&V>)
        requires
            self.wf(),
        ensures
            match r {
                Some(v) => self.contains_spec(k@) && v.deep_view() == self.get_spec(k@),
                None => !self.contains_spec(k@),
            },
    {
        match self.position(k) {
            Some(i) => {
                proof {
                    lemma_key_index_unique(self@, k@, i as int);
                    assert(self@[i as int]
                        == (self.pairs@[i as int].0@, self.pairs@[i as int].1.deep_view()));
                }
                Some(&self.pairs[i].1)
            }
            None => None,
        }
    }

    /// Insert a binding for a key that is not yet present.
    pub fn push_new(&mut self, k: String, v: V)
        requires
            old(self).wf(),
            !old(self).contains_spec(k@),
        ensures
            final(self)@ =~= old(self)@.push((k@, v.deep_view())),
            final(self).wf(),
    {
        let ghost s0 = self@;
        self.pairs.push((k, v));
        proof {
            assert forall|i: int| 0 <= i < s0.len() implies self@[i] == s0[i] by {
                assert(self.pairs@[i] == old(self).pairs@[i]);
            }
            assert(self@.len() == s0.len() + 1);
            assert(self@[s0.len() as int] == (k@, v.deep_view()));
            assert forall|i: int, j: int| 0 <= i < j < self@.len() implies self@[i].0
                != self@[j].0 by {
                if j == s0.len() {
                    assert(self@[j].0 == k@);
                    if self@[i].0 == k@ {
                        assert(self@[i] == s0[i]);
                        assert(s0[i].0 == k@);
                        assert(seq_contains_key(s0, k@));
                    }
                } else {
                    assert(s0[i].0 != s0[j].0);
                }
            }
        }
    }

    /// Insert or overwrite: replaces the first binding of `k`, or appends.
    pub fn set(&mut self, k: String, v: V)
        requires
            old(self).wf(),
        ensures
            final(self)@ =~= seq_set(old(self)@, k@, v.deep_view()),
            final(self).wf(),
    {
        let ghost s0 = self@;
        match self.position(&k) {
            Some(i) => {
                proof {
                    lemma_key_index_unique(s0, k@, i as int);
                }
                self.pairs[i] = (k, v);
                proof {
                    assert forall|m: int| 0 <= m < self@.len() && m != i implies self@[m]
                        == s0[m] by {
                        assert(self.pairs@[m] == old(self).pairs@[m]);
                    }
                    assert(self@[i as int] == (k@, v.deep_view()));
                    assert(self@ =~= seq_set(s0, k@, v.deep_view()));
                }
            }
            None => {
                self.push_new(k, v);
            }
        }
    }

    /// The key of the `i`-th binding.
    pub fn key_at(&self, i: usize) -> (r: &String)
        requires
            i < self@.len(),
        ensures
            r@ == self@[i as int].0,
    {
        proof {
            assert(self@[i as int] == (self.pairs@[i as int].0@, self.pairs@[i as int].1.deep_view()));
        }
        &self.pairs[i].0
    }

    /// The value of the `i`-th binding.
    pub fn val_at(&self, i: usize) -> (r: &V)
        requires
            i < self@.len(),
        ensures
            r.deep_view() == self@[i as int].1,
    {
        proof {
            assert(self@[i as int] == (self.pairs@[i as int].0@, self.pairs@[i as int].1.deep_view()));
        }
        &self.pairs[i].1
    }

    /// Borrow the value of the `i`-th binding for in-place update.
    pub fn val_at_mut(&mut self, i: usize) -> (element: &mut V)
        requires
            old(self).wf(),
            i < old(self)@.len(),
        ensures
            element.deep_view() == old(self)@[i as int].1,
            final(self)@ =~= old(self)@.update(
                i as int,
                (old(self)@[i as int].0, final(element).deep_view()),
            ),
            final(self).wf(),
    {
        proof {
            assert(self@[i as int] == (self.pairs@[i as int].0@, self.pairs@[i as int].1.deep_view()));
        }
        &mut self.pairs[i].1
    }

    /// First index of `k`, under well-formedness the spec key index.
    pub fn index_of(&self, k: &String) -> (r: Option<usize>)
        requires
            self.wf(),
        ensures
            match r {
                Some(i) => self.contains_spec(k@) && i == seq_key_index(self@, k@)
                    && i < self@.len() && self@[i as int].0 == k@,
                None => !self.contains_spec(k@),
            },
    {
        match self.position(k) {
            Some(i) => {
                proof {
                    lemma_key_index_unique(self@, k@, i as int);
                }
                Some(i)
            }
            None => None,
        }
    }

    /// Remove the `i`-th binding, shifting later ones down.
    pub fn remove_at(&mut self, i: usize) -> (v: V)
        requires
            old(self).wf(),
            i < old(self)@.len(),
        ensures
            v.deep_view() == old(self)@[i as int].1,
            final(self)@ =~= old(self)@.remove(i as int),
            final(self).wf(),
    {
        proof {
            assert(self@[i as int] == (self.pairs@[i as int].0@, self.pairs@[i as int].1.deep_view()));
        }
        let ghost s0 = self@;
        let ghost p0 = self.pairs@;
        let p = self.pairs.remove(i);
        proof {
            p0.remove_ensures(i as int);
            assert forall|m: int| 0 <= m < self@.len() implies self@[m] == s0.remove(i as int)[m] by {
                if m < i {
                    assert(self.pairs@[m] == p0[m]);
                } else {
                    assert(self.pairs@[m] == p0[m + 1]);
                }
            }
            assert(self@ =~= s0.remove(i as int));
            assert forall|a: int, b: int| 0 <= a < b < self@.len() implies self@[a].0
                != self@[b].0 by {
                let a0 = if a < i { a } else { a + 1 };
                let b0 = if b < i { b } else { b + 1 };
                assert(self@[a] == s0[a0]);
                assert(self@[b] == s0[b0]);
                assert(s0[a0].0 != s0[b0].0);
            }
        }
        p.1
    }

    /// Replace the value of the `i`-th binding, keeping its key.
    pub fn set_val_at(&mut self, i: usize, v: V)
        requires
            old(self).wf(),
            i < old(self)@.len(),
        ensures
            final(self)@ =~= old(self)@.update(i as int, (old(self)@[i as int].0, v.deep_view())),
            final(self).wf(),
    {
        let ghost s0 = self@;
        let k = self.pairs[i].0.clone();
        proof {
            assert(s0[i as int] == (self.pairs@[i as int].0@, self.pairs@[i as int].1.deep_view()));
        }
        self.pairs[i] = (k, v);
        proof {
            assert forall|m: int| 0 <= m < self@.len() && m != i implies self@[m] == s0[m] by {
                assert(self.pairs@[m] == old(self).pairs@[m]);
            }
            assert(self@[i as int] == (s0[i as int].0, v.deep_view()));
        }
    }
}

} // verus!
