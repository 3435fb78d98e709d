//! A small string-to-string map that keeps one entry per key, in insertion
//! order. Used for storage options, catalog properties and request headers.

use vstd::prelude::*;

verus! {

pub type Entries = Seq<(Seq<char>, Seq<char>)>;

/// The value of the first entry whose key is `k`.
pub open spec fn lookup(e: Entries, k: Seq<char>) -> Option<Seq<char>>
    decreases e.len(),
{
    if e.len() == 0 {
        None
    } else if e[0].0 == k {
        Some(e[0].1)
    } else {
        lookup(e.drop_first(), k)
    }
}

pub open spec fn keys_unique(e: Entries) -> bool {
    forall|i: int, j: int| 0 <= i < j < e.len() ==> e[i].0 != e[j].0
}

pub proof fn lemma_lookup_index(e: Entries, k: Seq<char>)
    ensures
        lookup(e, k) matches Some(v) ==> exists|i: int| 0 <= i < e.len() && e[i] == (k, v),
        lookup(e, k) is None ==> forall|i: int| 0 <= i < e.len() ==> e[i].0 != k,
    decreases e.len(),
{
    if e.len() > 0 && e[0].0 != k {
        lemma_lookup_index(e.drop_first(), k);
        if let Some(v) = lookup(e, k) {
            let i = choose|i: int| 0 <= i < e.drop_first().len() && e.drop_first()[i] == (k, v);
            assert(e[i + 1] == (k, v));
        }
        assert forall|i: int| 0 <= i < e.len() && lookup(e, k) is None implies e[i].0 != k by {
            if i > 0 {
                assert(e.drop_first()[i - 1] == e[i]);
            }
        }
    }
}

pub proof fn lemma_lookup_at(e: Entries, i: int)
    requires
        keys_unique(e),
        0 <= i < e.len(),
    ensures
        lookup(e, e[i].0) == Some(e[i].1),
    decreases e.len(),
{
    if i > 0 {
        assert(e[0].0 != e[i].0);
        let t = e.drop_first();
        assert(keys_unique(t));
        assert(t[i - 1] == e[i]);
        lemma_lookup_at(t, i - 1);
    }
}

/// A map from strings to strings: one entry per key, kept in the order keys
/// were first inserted. Request metadata reaches the library in this form:
/// whoever builds it from a transport's headers keeps only the values that
/// read back as text (visible ASCII), as the readers of headers expect.
#[derive(Debug)]
pub struct StringMap {
    entries: Vec<(String, String)>,
}

impl View for StringMap {
    type V = Entries;

    closed spec fn view(&self) -> Entries {
        self.entries@.map_values(|p: (String, String)| (p.0@, p.1@))
    }
}

impl StringMap {
    #[verifier::type_invariant]
    spec fn inv(self) -> bool {
        keys_unique(self@)
    }

    /// The value stored under `k`, if any.
    pub open spec fn spec_get(self, k: Seq<char>) -> Option<Seq<char>> {
        lookup(self@, k)
    }

    /// An empty map.
    pub fn new() -> (m: Self)
        ensures
            m@ == Seq::<(Seq<char>, Seq<char>)>::empty(),
    {
        let m = StringMap { entries: Vec::new() };
        assert(m@ =~= Seq::<(Seq<char>, Seq<char>)>::empty());
        m
    }

    /// A copy of this map.
    pub fn copy(&self) -> (m: Self)
        ensures
            m@ == self@,
    {
        proof {
            use_type_invariant(self);
        }
        StringMap { entries: self.entries() }
    }

    /// Number of keys.
    pub fn len(&self) -> (n: usize)
        ensures
            n == self@.len(),
    {
        self.entries.len()
    }

    /// The entries, in insertion order.
    pub fn entries(&self) -> (v: Vec<(String, String)>)
        ensures
            v@.map_values(|p: (String, String)| (p.0@, p.1@)) == self@,
            keys_unique(self@),
    {
        proof {
            use_type_invariant(self);
        }
        let mut v: Vec<(String, String)> = Vec::new();
        let mut i: usize = 0;
        while i < self.entries.len()
            invariant
                i <= self.entries.len(),
                v.len() == i,
                forall|j: int| 0 <= j < i ==> (v@[j].0@, v@[j].1@) == self@[j],
            decreases self.entries.len() - i,
        {
            let (k, val) = &self.entries[i];
            v.push((k.clone(), val.clone()));
            i = i + 1;
        }
        assert(v@.map_values(|p: (String, String)| (p.0@, p.1@)) =~= self@);
        v
    }

    fn index_of(&self, k: &str) -> (r: Option<usize>)
        ensures
            r matches Some(i) ==> i < self@.len() && self@[i as int].0 == k@,
            r is None ==> forall|i: int| 0 <= i < self@.len() ==> self@[i].0 != k@,
    {
        let mut i: usize = 0;
        while i < self.entries.len()
            invariant
                i <= self.entries.len(),
                self@.len() == self.entries.len(),
                forall|j: int| 0 <= j < i ==> self@[j].0 != k@,
            decreases self.entries.len() - i,
        {
            if str_eq(self.entries[i].0.as_str(), k) {
                return Some(i);
            }
            i = i + 1;
        }
        None
    }

    /// The value stored under `k`, if any.
    pub fn get(&self, k: &str) -> (r: Option<String>)
        ensures
            match r {
                Some(v) => self.spec_get(k@) == Some(v@),
                None => self.spec_get(k@) is None,
            },
    {
        proof {
            use_type_invariant(self);
        }
        match self.index_of(k) {
            Some(i) => {
                proof {
                    lemma_lookup_at(self@, i as int);
                }
                Some(self.entries[i].1.clone())
            },
            None => {
                proof {
                    lemma_lookup_index(self@, k@);
                    if let Some(v) = lookup(self@, k@) {
                        let j = choose|j: int| 0 <= j < self@.len() && self@[j] == (k@, v);
                        assert(self@[j].0 == k@);
                    }
                }
                None
            },
        }
    }

    /// Store `v` under `k`, replacing any earlier value of `k` in place.
    pub fn insert(&mut self, k: String, v: String)
        ensures
            forall|q: Seq<char>| #[trigger]
                final(self).spec_get(q) == if q == k@ {
                    Some(v@)
                } else {
                    old(self).spec_get(q)
                },
            old(self).spec_get(k@) is Some ==> final(self)@.len() == old(self)@.len(),
            old(self).spec_get(k@) is None ==> final(self)@ == old(self)@.push((k@, v@)),
    {
        proof {
            use_type_invariant(&*self);
        }
        let ghost pre = self@;
        match self.index_of(k.as_str()) {
            Some(i) => {
                let ghost kk = k@;
                let ghost vv = v@;
                proof {
                    lemma_lookup_at(pre, i as int);
                }
                let mut e: Vec<(String, String)> = Vec::new();
                std::mem::swap(&mut e, &mut self.entries);
                e.set(i, (k, v));
                proof {
                    assert(e@.map_values(|p: (String, String)| (p.0@, p.1@)) =~= pre.update(
                        i as int,
                        (kk, vv),
                    ));
                }
                self.entries = e;
                proof {
                    assert(self@ =~= pre.update(i as int, (kk, vv)));
                    assert forall|q: Seq<char>| #[trigger]
                        lookup(self@, q) == if q == kk {
                            Some(vv)
                        } else {
                            lookup(pre, q)
                        } by {
                        lemma_lookup_at(pre, i as int);
                        if q == kk {
                            lemma_lookup_at(self@, i as int);
                        } else {
                            lemma_lookup_index(pre, q);
                            lemma_lookup_index(self@, q);
                            if let Some(w) = lookup(self@, q) {
                                let j = choose|j: int| 0 <= j < self@.len() && self@[j] == (q, w);
                                assert(pre[j] == (q, w));
                                lemma_lookup_at(pre, j);
                            } else if let Some(w) = lookup(pre, q) {
                                let j = choose|j: int| 0 <= j < pre.len() && pre[j] == (q, w);
                                assert(self@[j] == (q, w));
                            }
                        }
                    }
                }
            },
            None => {
                let ghost kk = k@;
                let ghost vv = v@;
                proof {
                    lemma_lookup_index(pre, kk);
                    if let Some(w) = lookup(pre, kk) {
                        let j = choose|j: int| 0 <= j < pre.len() && pre[j] == (kk, w);
                        assert(pre[j].0 == kk);
                    }
                }
                let mut e: Vec<(String, String)> = Vec::new();
                std::mem::swap(&mut e, &mut self.entries);
                e.push((k, v));
                proof {
                    assert(e@.map_values(|p: (String, String)| (p.0@, p.1@)) =~= pre.push(
                        (kk, vv),
                    ));
                }
                self.entries = e;
                proof {
                    assert(self@ =~= pre.push((kk, vv)));
                    assert forall|q: Seq<char>| #[trigger]
                        lookup(self@, q) == if q == kk {
                            Some(vv)
                        } else {
                            lookup(pre, q)
                        } by {
                        lemma_lookup_index(pre, q);
                        lemma_lookup_index(self@, q);
                        if q == kk {
                            lemma_lookup_at(self@, pre.len() as int);
                        } else if let Some(w) = lookup(self@, q) {
                            let j = choose|j: int| 0 <= j < self@.len() && self@[j] == (q, w);
                            assert(j < pre.len());
                            assert(pre[j] == (q, w));
                            lemma_lookup_at(pre, j);
                        } else if let Some(w) = lookup(pre, q) {
                            let j = choose|j: int| 0 <= j < pre.len() && pre[j] == (q, w);
                            assert(self@[j] == (q, w));
                        }
                    }
                }
            },
        }
    }
}

/// Equality of two string slices by their characters.
pub fn str_eq(a: &str, b: &str) -> (r: bool)
    ensures
        r == (a@ == b@),
{
    let x = crate::text::chars_of(a);
    let y = crate::text::chars_of(b);
    if x.len() != y.len() {
        return false;
    }
    let mut i: usize = 0;
    while i < x.len()
        invariant
            x.len() == y.len(),
            x@ == a@,
            y@ == b@,
            i <= x.len(),
            forall|j: int| 0 <= j < i ==> x@[j] == y@[j],
        decreases x.len() - i,
    {
        if x[i] != y[i] {
            assert(x@[i as int] != y@[i as int]);
            return false;
        }
        i = i + 1;
    }
    assert(x@ =~= y@);
    true
}

} // verus!
