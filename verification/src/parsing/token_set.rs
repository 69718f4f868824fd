//! A set of token kinds, held as a bit set.
use crate::parsing::lexer::Syntax;
use vstd::prelude::*;

verus! {

/// A bit-set of `Syntax`: bit `n` stands for the kind whose number is `n`. Only kinds with a
/// number below 128 (the tokens) fit in it.
#[derive(Clone, Copy)]
pub struct TokenSet(pub u128);

/// Whether bit `c` of `bits` is set.
pub open spec fn bit_set(bits: u128, c: u128) -> bool {
    (bits >> c) & 1u128 == 1u128
}

/// Whether a kind's number fits in a `TokenSet`.
pub open spec fn fits(kind: Syntax) -> bool {
    kind.spec_code() < 128
}

impl TokenSet {
    /// Whether the set holds `kind`.
    pub open spec fn has(self, kind: Syntax) -> bool {
        fits(kind) && bit_set(self.0, kind.spec_code() as u128)
    }

    /// The set of the given kinds.
    pub fn new(kinds: &[Syntax]) -> (r: TokenSet)
        requires
            forall|j: int| 0 <= j < kinds@.len() ==> fits(#[trigger] kinds@[j]),
        ensures
            forall|k: Syntax| fits(k) ==> (r.has(k) <==> kinds@.contains(k)),
    {
        let mut res: u128 = 0;
        let mut i: usize = 0;
        assert forall|d: u128| !bit_set(0u128, d) by {
            assert((0u128 >> d) & 1u128 == 0u128) by (bit_vector);
        }
        while i < kinds.len()
            invariant
                i <= kinds@.len(),
                forall|j: int| 0 <= j < kinds@.len() ==> fits(#[trigger] kinds@[j]),
                forall|k: Syntax|
                    fits(k) ==> (#[trigger] bit_set(res, k.spec_code() as u128) <==> exists|j: int|
                        0 <= j < i && kinds@[j] == k),
            decreases kinds@.len() - i,
        {
            let m = mask(kinds[i]);
            let ghost old_res = res;
            let ghost c = kinds@[i as int].spec_code() as u128;
            res = res | m;
            proof {
                assert forall|k: Syntax| fits(k) implies (#[trigger] bit_set(
                    res,
                    k.spec_code() as u128,
                ) <==> exists|j: int| 0 <= j < i + 1 && kinds@[j] == k) by {
                    let d = k.spec_code() as u128;
                    lemma_or_bit(old_res, c, d);
                    if k == kinds@[i as int] {
                        assert(exists|j: int| 0 <= j < i + 1 && kinds@[j] == k) by {
                            assert(kinds@[i as int] == k);
                        }
                    }
                    if exists|j: int| 0 <= j < i + 1 && kinds@[j] == k {
                        let j = choose|j: int| 0 <= j < i + 1 && kinds@[j] == k;
                        if j < i {
                            assert(bit_set(old_res, d));
                        }
                    }
                }
            }
            i = i + 1;
        }
        proof {
            assert forall|k: Syntax| fits(k) implies (TokenSet(res).has(k) <==> kinds@.contains(k)) by {
                if kinds@.contains(k) {
                    let j = choose|j: int| 0 <= j < kinds@.len() && kinds@[j] == k;
                    assert(exists|j: int| 0 <= j < i && kinds@[j] == k);
                }
            }
        }
        TokenSet(res)
    }

    /// The kinds of both sets.
    pub fn union(self, other: TokenSet) -> (r: TokenSet)
        ensures
            forall|k: Syntax| #[trigger] r.has(k) <==> self.has(k) || other.has(k),
    {
        proof {
            assert forall|k: Syntax| #[trigger] TokenSet(self.0 | other.0).has(k) <==> self.has(k)
                || other.has(k) by {
                lemma_union_bit(self.0, other.0, k.spec_code() as u128);
            }
        }
        TokenSet(self.0 | other.0)
    }

    /// Whether the set holds `kind`.
    pub fn contains(&self, kind: Syntax) -> (r: bool)
        requires
            fits(kind),
        ensures
            r == self.has(kind),
    {
        let m = mask(kind);
        proof {
            lemma_and_mask(self.0, kind.spec_code() as u128);
        }
        self.0 & m != 0
    }
}

/// The bit that stands for `kind`.
pub fn mask(kind: Syntax) -> (m: u128)
    requires
        fits(kind),
    ensures
        m == 1u128 << (kind.spec_code() as u128),
{
    let c = kind.code() as u128;
    1u128 << c
}

proof fn lemma_or_bit(x: u128, c: u128, d: u128)
    requires
        c < 128,
        d < 128,
    ensures
        bit_set(x | (1u128 << c), d) <==> (bit_set(x, d) || c == d),
{
    assert(((x | (1u128 << c)) >> d) & 1u128 == 1u128 <==> (((x >> d) & 1u128 == 1u128) || c
        == d)) by (bit_vector)
        requires
            c < 128,
            d < 128,
    ;
}

proof fn lemma_union_bit(x: u128, y: u128, d: u128)
    ensures
        d < 128 ==> (bit_set(x | y, d) <==> (bit_set(x, d) || bit_set(y, d))),
{
    assert(d < 128 ==> (((x | y) >> d) & 1u128 == 1u128 <==> (((x >> d) & 1u128 == 1u128) || ((y
        >> d) & 1u128 == 1u128)))) by (bit_vector);
}

proof fn lemma_and_mask(x: u128, c: u128)
    requires
        c < 128,
    ensures
        (x & (1u128 << c) != 0) <==> bit_set(x, c),
{
    assert((x & (1u128 << c) != 0) <==> ((x >> c) & 1u128 == 1u128)) by (bit_vector)
        requires
            c < 128,
    ;
}

} // verus!
