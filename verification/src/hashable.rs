//! The values stored at the leaves and nodes of a Merkle tree.
use vstd::prelude::*;

verus! {

use crate::level::{Level, lemma_level_view};

/// A trait describing the operations that make a type suitable for use as
/// a leaf or node value in a merkle tree.
pub trait Hashable: Sized + core::fmt::Debug {
    fn empty_leaf() -> Self;

    fn combine(level: Level, a: &Self, b: &Self) -> Self;

    /// The root of a tree of height `level` whose leaves are all empty:
    /// the empty leaf, combined with itself once for each level below `level`.
    fn empty_root(level: Level) -> (r: Self)
        ensures
            exists|chain: Seq<Self>|
                {
                    &&& chain.len() == level@ + 1
                    &&& chain.last() == r
                    &&& call_ensures(Self::empty_leaf, (), chain[0])
                    &&& forall|i: int, l: Level|
                        0 <= i < level@ && l@ == i ==> #[trigger] call_ensures(
                            Self::combine,
                            (l, &chain[i], &chain[i]),
                            chain[i + 1],
                        )
                },
    {
        let leaf = Self::empty_leaf;
        let join = Self::combine;
        let zero = Level(0);
        proof {
            lemma_level_view(zero);
        }
        let levels = zero.iter_to(level);
        let mut v = leaf();
        let ghost mut chain: Seq<Self> = seq![v];
        let mut i: usize = 0;
        while i < levels.len()
            invariant
                levels@.len() == level@,
                forall|j: int| 0 <= j < levels@.len() ==> #[trigger] levels@[j]@ == j,
                i <= levels@.len(),
                chain.len() == i + 1,
                call_ensures(Self::empty_leaf, (), chain[0]),
                forall|k: int, l: Level|
                    0 <= k < i && l@ == k ==> #[trigger] call_ensures(
                        Self::combine,
                        (l, &chain[k], &chain[k]),
                        chain[k + 1],
                    ),
                chain.last() == v,
            decreases levels@.len() - i,
        {
            let next = join(levels[i], &v, &v);
            proof {
                let old_chain = chain;
                chain = chain.push(next);
                assert forall|k: int, l: Level|
                    0 <= k < i + 1 && l@ == k implies #[trigger] call_ensures(
                    Self::combine,
                    (l, &chain[k], &chain[k]),
                    chain[k + 1],
                ) by {
                    if k < i {
                        assert(chain[k] == old_chain[k]);
                        assert(chain[k + 1] == old_chain[k + 1]);
                    } else {
                        lemma_level_view(l);
                        lemma_level_view(levels@[k]);
                        assert(l == levels@[k]);
                    }
                }
            }
            v = next;
            i = i + 1;
        }
        v
    }
}

} // verus!
