use crate::order::{lemma_lex_append, lemma_lex_equal, lex};
use core::cmp::Ordering;
use vstd::prelude::*;

verus! {

/// A 256-bit identifier naming an entity of the network.
#[derive(Clone, Copy, Debug, Hash, Eq, Ord)]
pub struct XorName(pub [u8; 32]);

impl XorName {
    /// The identifier's bytes, most significant first.
    pub open spec fn bytes(self) -> Seq<u8> {
        self.0@
    }

    /// The bytes as integers, the key that identifiers are ordered by.
    pub open spec fn key(self) -> Seq<int> {
        self.0@.map_values(|x: u8| x as int)
    }

    /// How `self` compares with `other`: byte by byte, from the first.
    pub open spec fn order(self, other: XorName) -> Ordering {
        lex(self.key(), other.key())
    }
}

/// Identifiers are equal exactly when their keys are.
pub proof fn lemma_xor_name_key(a: XorName, b: XorName)
    ensures
        (a == b) == (a.key() == b.key()),
{
    if a.key() == b.key() {
        assert forall|i: int| 0 <= i < 32 implies a.0@[i] == b.0@[i] by {
            assert(a.key()[i] == b.key()[i]);
        }
        assert(a.0@ =~= b.0@);
        lemma_xor_name_eq(a, b);
    }
}

/// Identifiers are equal exactly when their bytes are.
pub proof fn lemma_xor_name_eq(a: XorName, b: XorName)
    ensures
        (a == b) == (a.bytes() == b.bytes()),
{
    if a.bytes() == b.bytes() {
        assert(a.0 == b.0);
    }
}

impl PartialEq for XorName {
    fn eq(&self, other: &XorName) -> (r: bool) {
        let mut i: usize = 0;
        while i < 32
            invariant
                i <= 32,
                forall|k: int| 0 <= k < i ==> self.0@[k] == other.0@[k],
            decreases 32 - i,
        {
            if self.0[i] != other.0[i] {
                return false;
            }
            i += 1;
        }
        assert(self.0@ =~= other.0@);
        true
    }
}

impl vstd::std_specs::cmp::PartialEqSpecImpl for XorName {
    open spec fn obeys_eq_spec() -> bool {
        true
    }

    open spec fn eq_spec(&self, other: &XorName) -> bool {
        self.bytes() == other.bytes()
    }
}

impl PartialOrd for XorName {
    fn partial_cmp(&self, other: &XorName) -> (r: Option<Ordering>) {
        let ghost ka = self.key();
        let ghost kb = other.key();
        let mut i: usize = 0;
        while i < 32
            invariant
                i <= 32,
                ka == self.key(),
                kb == other.key(),
                ka.len() == 32,
                kb.len() == 32,
                ka.take(i as int) == kb.take(i as int),
            decreases 32 - i,
        {
            if self.0[i] != other.0[i] {
                proof {
                    let j = i as int;
                    assert(ka =~= ka.take(j) + (seq![ka[j]] + ka.skip(j + 1)));
                    assert(kb =~= kb.take(j) + (seq![kb[j]] + kb.skip(j + 1)));
                    lemma_lex_equal(ka.take(j), kb.take(j));
                    lemma_lex_append(ka.take(j), kb.take(j), seq![ka[j]] + ka.skip(j + 1), seq![kb[j]] + kb.skip(j + 1));
                    lemma_lex_append(seq![ka[j]], seq![kb[j]], ka.skip(j + 1), kb.skip(j + 1));
                    assert(seq![ka[j]].drop_first() =~= Seq::<int>::empty());
                    assert(seq![kb[j]].drop_first() =~= Seq::<int>::empty());
                }
                if self.0[i] < other.0[i] {
                    return Some(Ordering::Less);
                } else {
                    return Some(Ordering::Greater);
                }
            }
            proof {
                assert(ka.take(i + 1) =~= kb.take(i + 1));
            }
            i += 1;
        }
        proof {
            assert(ka =~= ka.take(32));
            assert(kb =~= kb.take(32));
            lemma_lex_equal(ka, kb);
        }
        Some(Ordering::Equal)
    }
}

impl vstd::std_specs::cmp::PartialOrdSpecImpl for XorName {
    open spec fn obeys_partial_cmp_spec() -> bool {
        true
    }

    open spec fn partial_cmp_spec(&self, other: &XorName) -> Option<Ordering> {
        Some(self.order(*other))
    }
}

} // verus!
