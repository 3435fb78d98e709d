//! Lexicographic order on strings and a stable insertion sort over any type
//! with a total preorder.

use vstd::prelude::*;

verus! {

/// Lexicographic order of character sequences by code point (the order of
/// Rust's `str` comparison, since UTF-8 preserves code-point order).
pub open spec fn lex_le(a: Seq<char>, b: Seq<char>) -> bool
    decreases a.len(),
{
    if a.len() == 0 {
        true
    } else if b.len() == 0 {
        false
    } else if a[0] < b[0] {
        true
    } else if a[0] > b[0] {
        false
    } else {
        lex_le(a.drop_first(), b.drop_first())
    }
}

pub proof fn lemma_lex_total(a: Seq<char>, b: Seq<char>)
    ensures
        lex_le(a, b) || lex_le(b, a),
    decreases a.len(),
{
    if a.len() > 0 && b.len() > 0 && a[0] == b[0] {
        lemma_lex_total(a.drop_first(), b.drop_first());
    }
}

pub proof fn lemma_lex_trans(a: Seq<char>, b: Seq<char>, c: Seq<char>)
    requires
        lex_le(a, b),
        lex_le(b, c),
    ensures
        lex_le(a, c),
    decreases a.len(),
{
    if a.len() > 0 && b.len() > 0 && c.len() > 0 && a[0] == b[0] && b[0] == c[0] {
        lemma_lex_trans(a.drop_first(), b.drop_first(), c.drop_first());
    }
}

pub proof fn lemma_lex_antisym(a: Seq<char>, b: Seq<char>)
    requires
        lex_le(a, b),
        lex_le(b, a),
    ensures
        a == b,
    decreases a.len(),
{
    if a.len() > 0 && b.len() > 0 {
        lemma_lex_antisym(a.drop_first(), b.drop_first());
        assert(a[0] == b[0]);
        assert(a =~= seq![a[0]] + a.drop_first());
        assert(b =~= seq![b[0]] + b.drop_first());
    }
}

pub proof fn lemma_lex_refl(a: Seq<char>)
    ensures
        lex_le(a, a),
{
    lemma_lex_total(a, a);
}

/// Strict lexicographic order.
pub open spec fn lex_lt(a: Seq<char>, b: Seq<char>) -> bool {
    lex_le(a, b) && a != b
}

pub proof fn lemma_lex_lt_trans(a: Seq<char>, b: Seq<char>, c: Seq<char>)
    requires
        lex_le(a, b),
        lex_lt(b, c),
    ensures
        lex_lt(a, c),
{
    lemma_lex_trans(a, b, c);
    if a == c {
        lemma_lex_antisym(b, c);
    }
}

/// Whether `a` precedes or equals `b` lexicographically.
pub fn str_le(a: &str, b: &str) -> (r: bool)
    ensures
        r == lex_le(a@, b@),
{
    let x = crate::text::chars_of(a);
    let y = crate::text::chars_of(b);
    let mut i: usize = 0;
    assert(a@.skip(0) =~= a@);
    assert(b@.skip(0) =~= b@);
    while i < x.len() && i < y.len()
        invariant
            i <= x.len(),
            i <= y.len(),
            x@ == a@,
            y@ == b@,
            lex_le(a@, b@) == lex_le(a@.skip(i as int), b@.skip(i as int)),
        decreases x.len() - i,
    {
        assert(a@.skip(i as int)[0] == x@[i as int]);
        assert(b@.skip(i as int)[0] == y@[i as int]);
        if x[i] < y[i] {
            return true;
        }
        if x[i] > y[i] {
            return false;
        }
        assert(a@.skip(i as int).drop_first() =~= a@.skip(i + 1));
        assert(b@.skip(i as int).drop_first() =~= b@.skip(i + 1));
        i = i + 1;
    }
    i == x.len()
}

/// A type with a total preorder and an executable comparison for it.
pub trait Ranked: Sized {
    spec fn rank_le(a: Self, b: Self) -> bool;

    proof fn lemma_rank_total(a: Self, b: Self)
        ensures
            Self::rank_le(a, b) || Self::rank_le(b, a),
    ;

    proof fn lemma_rank_trans(a: Self, b: Self, c: Self)
        requires
            Self::rank_le(a, b),
            Self::rank_le(b, c),
        ensures
            Self::rank_le(a, c),
    ;

    fn ranks_le(a: &Self, b: &Self) -> (r: bool)
        ensures
            r == Self::rank_le(*a, *b),
    ;
}

pub open spec fn sorted_by_rank<T: Ranked>(s: Seq<T>) -> bool {
    forall|i: int, j: int| 0 <= i <= j < s.len() ==> T::rank_le(#[trigger] s[i], #[trigger] s[j])
}

/// Sort by the type's preorder; equal-ranked elements keep their order.
pub fn sort_ranked<T: Ranked>(v: Vec<T>) -> (r: Vec<T>)
    ensures
        sorted_by_rank(r@),
        r@.to_multiset() == v@.to_multiset(),
{
    let mut src = v;
    let ghost orig = src@;
    let mut out: Vec<T> = Vec::new();
    // Elements are taken from the back of `src`; each is inserted before the
    // first placed element ranked at or above it, so ties keep their order.
    broadcast use vstd::multiset::group_multiset_axioms,
        vstd::seq_lib::group_to_multiset_ensures,
        vstd::multiset::lemma_multiset_empty_len;

    assert(out@.to_multiset() =~= vstd::multiset::Multiset::empty());
    while src.len() > 0
        invariant
            sorted_by_rank(out@),
            out@.to_multiset().add(src@.to_multiset()) == orig.to_multiset(),
        decreases src.len(),
    {
        let ghost s0 = src@;
        let x = src.pop().unwrap();
        proof {
            assert(s0 =~= src@.push(x));
        }
        let mut p: usize = 0;
        while p < out.len() && !T::ranks_le(&x, &out[p])
            invariant
                p <= out.len(),
                forall|k: int| 0 <= k < p ==> T::rank_le(#[trigger] out@[k], x),
            decreases out.len() - p,
        {
            proof {
                T::lemma_rank_total(x, out@[p as int]);
            }
            p = p + 1;
        }
        let ghost o0 = out@;
        proof {
            if p < out.len() {
                assert forall|k: int| p <= k < o0.len() implies T::rank_le(x, #[trigger] o0[k]) by {
                    T::lemma_rank_trans(x, o0[p as int], o0[k]);
                }
            }
        }
        out.insert(p, x);
        proof {
            assert(out@ =~= o0.insert(p as int, x));
            vstd::seq_lib::to_multiset_insert(o0, p as int, x);
            assert(out@.to_multiset() == o0.to_multiset().insert(x));
            vstd::seq_lib::to_multiset_build(src@, x);
            assert(s0.to_multiset() == src@.to_multiset().insert(x));
            assert(out@.to_multiset().add(src@.to_multiset()) =~= o0.to_multiset().add(
                s0.to_multiset(),
            ));
            assert forall|i: int, j: int| 0 <= i <= j < out@.len() implies T::rank_le(
                #[trigger] out@[i],
                #[trigger] out@[j],
            ) by {
                if i < p && j < p {
                } else if i < p && j == p {
                } else if i < p && j > p {
                    assert(T::rank_le(o0[i], x));
                    T::lemma_rank_trans(o0[i], x, o0[j - 1]);
                } else if i == p && j == p {
                    T::lemma_rank_total(x, x);
                } else if i == p {
                } else {
                    assert(T::rank_le(o0[i - 1], o0[j - 1]));
                }
            }
        }
    }
    assert(src@.to_multiset() =~= vstd::multiset::Multiset::empty());
    out
}

/// Strictly increasing, hence free of duplicates.
pub open spec fn strictly_sorted(v: Seq<Seq<char>>) -> bool {
    forall|i: int, j: int| 0 <= i < j < v.len() ==> lex_lt(#[trigger] v[i], #[trigger] v[j])
}

pub open spec fn views(v: Seq<String>) -> Seq<Seq<char>> {
    v.map_values(|s: String| s@)
}

/// Add `x` to the sorted set `v`.
pub fn set_insert(v: &mut Vec<String>, x: String)
    requires
        strictly_sorted(views(old(v)@)),
    ensures
        strictly_sorted(views(final(v)@)),
        views(final(v)@).to_set() == views(old(v)@).to_set().insert(x@),
{
    let ghost a0 = views(v@);
    let mut p: usize = 0;
    while p < v.len() && str_le(v[p].as_str(), x.as_str()) && !crate::strmap::str_eq(
        v[p].as_str(),
        x.as_str(),
    )
        invariant
            p <= v.len(),
            a0 == views(v@),
            forall|i: int| 0 <= i < p ==> lex_lt(#[trigger] a0[i], x@),
        decreases v.len() - p,
    {
        p = p + 1;
    }
    if p < v.len() && crate::strmap::str_eq(v[p].as_str(), x.as_str()) {
        assert(a0[p as int] == x@);
        assert(a0.to_set().insert(x@) =~= a0.to_set());
        return;
    }
    let ghost q = p as int;
    proof {
        if p < v.len() {
            lemma_lex_total(a0[q], x@);
            assert(lex_lt(x@, a0[q]));
        }
    }
    v.insert(p, x);
    proof {
        let a1 = views(v@);
        assert(a1 =~= a0.insert(q, x@));
        assert forall|i: int, j: int| 0 <= i < j < a1.len() implies lex_lt(#[trigger] a1[i], #[trigger] a1[j]) by {
            if j < q {
                assert(lex_lt(a0[i], a0[j]));
            } else if j == q {
            } else if i < q {
                if j - 1 > q {
                    assert(lex_lt(a0[q], a0[j - 1]));
                    lemma_lex_trans(x@, a0[q], a0[j - 1]);
                    lemma_lex_lt_trans(x@, a0[q], a0[j - 1]);
                }
                lemma_lex_lt_trans(a0[i], x@, a1[j]);
            } else if i == q {
                if j - 1 > q {
                    assert(lex_lt(a0[q], a0[j - 1]));
                    lemma_lex_lt_trans(x@, a0[q], a0[j - 1]);
                }
            } else {
                assert(lex_lt(a0[i - 1], a0[j - 1]));
            }
        }
        assert forall|y: Seq<char>| a1.to_set().contains(y) <==> a0.to_set().insert(x@).contains(y) by {
            if a1.to_set().contains(y) {
                let k = choose|k: int| 0 <= k < a1.len() && a1[k] == y;
                if k < q {
                    assert(a0[k] == y);
                } else if k > q {
                    assert(a0[k - 1] == y);
                }
            }
            if a0.to_set().contains(y) {
                let k = choose|k: int| 0 <= k < a0.len() && a0[k] == y;
                if k < q {
                    assert(a1[k] == y);
                } else {
                    assert(a1[k + 1] == y);
                }
            }
            if y == x@ {
                assert(a1[q] == y);
            }
        }
        assert(a1.to_set() =~= a0.to_set().insert(x@));
    }
}

} // verus!
