//! Lexicographic order on sequences of integers, the order that addresses
//! are sorted by (each address is mapped to such a sequence, its key).
use core::cmp::Ordering;
use vstd::prelude::*;

verus! {

/// Lexicographic comparison of `a` with `b`; a proper prefix comes first.
pub open spec fn lex(a: Seq<int>, b: Seq<int>) -> Ordering
    decreases a.len(),
{
    if a.len() == 0 {
        if b.len() == 0 {
            Ordering::Equal
        } else {
            Ordering::Less
        }
    } else if b.len() == 0 {
        Ordering::Greater
    } else if a[0] < b[0] {
        Ordering::Less
    } else if a[0] > b[0] {
        Ordering::Greater
    } else {
        lex(a.drop_first(), b.drop_first())
    }
}

/// The opposite of an ordering.
pub open spec fn flip(o: Ordering) -> Ordering {
    match o {
        Ordering::Less => Ordering::Greater,
        Ordering::Equal => Ordering::Equal,
        Ordering::Greater => Ordering::Less,
    }
}

/// Sequences compare equal exactly when they are equal.
pub proof fn lemma_lex_equal(a: Seq<int>, b: Seq<int>)
    ensures
        (lex(a, b) == Ordering::Equal) == (a == b),
    decreases a.len(),
{
    if a.len() > 0 && b.len() > 0 && a[0] == b[0] {
        lemma_lex_equal(a.drop_first(), b.drop_first());
        if a.drop_first() == b.drop_first() {
            assert(a =~= seq![a[0]] + a.drop_first());
            assert(b =~= seq![b[0]] + b.drop_first());
        }
        if a == b {
            assert(a.drop_first() == b.drop_first());
        }
    } else if a.len() == 0 && b.len() == 0 {
        assert(a =~= b);
    }
}

/// Comparing the other way round gives the opposite result.
pub proof fn lemma_lex_flip(a: Seq<int>, b: Seq<int>)
    ensures
        lex(b, a) == flip(lex(a, b)),
    decreases a.len(),
{
    if a.len() > 0 && b.len() > 0 && a[0] == b[0] {
        lemma_lex_flip(a.drop_first(), b.drop_first());
    }
}

/// The order is transitive.
pub proof fn lemma_lex_transitive(a: Seq<int>, b: Seq<int>, c: Seq<int>)
    requires
        lex(a, b) == Ordering::Less,
        lex(b, c) == Ordering::Less,
    ensures
        lex(a, c) == Ordering::Less,
    decreases a.len(),
{
    if a.len() > 0 && b.len() > 0 && c.len() > 0 && a[0] == b[0] && b[0] == c[0] {
        lemma_lex_transitive(a.drop_first(), b.drop_first(), c.drop_first());
    }
}

/// One-element sequences compare as their elements do.
pub proof fn lemma_lex_single(x: int, y: int)
    ensures
        lex(seq![x], seq![y]) == if x < y {
            Ordering::Less
        } else if x > y {
            Ordering::Greater
        } else {
            Ordering::Equal
        },
{
    let a = seq![x];
    let b = seq![y];
    assert(a[0] == x && b[0] == y && a.len() == 1 && b.len() == 1);
    assert(a.drop_first() =~= Seq::<int>::empty());
    assert(b.drop_first() =~= Seq::<int>::empty());
    assert(lex(Seq::<int>::empty(), Seq::<int>::empty()) == Ordering::Equal);
}

/// Of two sequences with parts of equal length in front, the front parts
/// decide unless they are equal.
pub proof fn lemma_lex_append(p1: Seq<int>, p2: Seq<int>, s1: Seq<int>, s2: Seq<int>)
    requires
        p1.len() == p2.len(),
    ensures
        lex(p1 + s1, p2 + s2) == if lex(p1, p2) == Ordering::Equal {
            lex(s1, s2)
        } else {
            lex(p1, p2)
        },
    decreases p1.len(),
{
    if p1.len() > 0 {
        assert((p1 + s1)[0] == p1[0]);
        assert((p2 + s2)[0] == p2[0]);
        assert((p1 + s1).drop_first() =~= p1.drop_first() + s1);
        assert((p2 + s2).drop_first() =~= p2.drop_first() + s2);
        lemma_lex_append(p1.drop_first(), p2.drop_first(), s1, s2);
    } else {
        assert(p1 + s1 =~= s1);
        assert(p2 + s2 =~= s2);
    }
}

} // verus!
