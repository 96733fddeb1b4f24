//! The context of an address at another level of the tree, given as an
//! `either::Either` of an ancestor address and a range of descendant indices.
use vstd::prelude::*;

verus! {

use either::Either;
use core::ops::Range;
use crate::address::{
    Address, AddressView, address_from_view, lemma_address_from_view, lemma_address_view,
};
use crate::bits::{
    shl_usize, shr, lemma_usize_shl, lemma_usize_shr, lemma_shl_no_wrap, lemma_shr_block,
};
use vstd::arithmetic::power2::{pow2, lemma_pow2_pos};
use crate::level::{Level, lemma_level_view};

/// `either::Either`, whose two variants `Left` and `Right` are public.
#[verifier::external_type_specification]
#[verifier::reject_recursive_types(L)]
#[verifier::reject_recursive_types(R)]
pub struct ExEither<L, R>(Either<L, R>);

/// The context of an address: an ancestor address, or a range of indices of
/// descendant addresses.
pub type AddressContext = Either<Address, Range<usize>>;

/// The value `either::Either::Left(x)` for the address `x` whose view is `a`.
pub open spec fn either_left(a: AddressView) -> AddressContext {
    AddressContext::Left(address_from_view(a))
}

/// The value `either::Either::Right(start..end)`.
pub open spec fn either_right(start: nat, end: nat) -> AddressContext {
    AddressContext::Right(Range { start: start as usize, end: end as usize })
}

/// Builds `either::Either::Left(a)`: the variant `Left` holding `a`.
fn ancestor_context(a: Address) -> (r: Either<Address, Range<usize>>)
    ensures
        r == either_left(a@),
        r == AddressContext::Left(a),
{
    proof {
        lemma_address_from_view(a);
    }
    Either::Left(a)
}

/// Builds `either::Either::Right(start..end)`: the variant `Right` holding the
/// range from `start` to `end`.
fn descendant_context(start: usize, end: usize) -> (r: Either<Address, Range<usize>>)
    ensures
        r == either_right(start as nat, end as nat),
        r == AddressContext::Right(Range { start, end }),
{
    Either::Right(Range { start, end })
}

impl Address {
    /// Returns either the ancestor of this address at the given level (if the level is greater
    /// than or equal to that of this address) or the range of indices of root addresses of
    /// subtrees with roots at the given level contained within the tree with its root at this
    /// address otherwise.
    pub fn context(&self, level: Level) -> (r: Either<Address, Range<usize>>)
        requires
            // the index is shifted by the difference of the levels
            level@ >= self@.level ==> level@ - self@.level < usize::BITS,
            level@ < self@.level ==> self@.level - level@ < usize::BITS && self@.index
                < usize::MAX,
        ensures
            level@ >= self@.level ==> r == either_left(
                AddressView {
                    level: level@,
                    index: shr(self@.index, (level@ - self@.level) as nat),
                },
            ),
            level@ < self@.level ==> r == either_right(
                shl_usize(self@.index, (self@.level - level@) as nat),
                shl_usize(self@.index + 1, (self@.level - level@) as nat),
            ),
            level@ >= self@.level ==> (r matches Either::Left(x) && x@ == (AddressView {
                level: level@,
                index: shr(self@.index, (level@ - self@.level) as nat),
            })),
            level@ < self@.level ==> (r matches Either::Right(range) && range.start as nat
                == shl_usize(self@.index, (self@.level - level@) as nat) && range.end as nat
                == shl_usize(self@.index + 1, (self@.level - level@) as nat)),
    {
        broadcast use lemma_level_view, lemma_address_view;

        if level.0 >= self.level.0 {
            let shift = (level.0 - self.level.0) as usize;
            proof {
                lemma_usize_shr(self.index, shift);
            }
            ancestor_context(Address { level, index: self.index >> shift })
        } else {
            let shift = (self.level.0 - level.0) as usize;
            let next = self.index + 1;
            proof {
                lemma_usize_shl(self.index, shift);
                lemma_usize_shl(next, shift);
            }
            descendant_context(self.index << shift, next << shift)
        }
    }
}

/// At its own level, the context of an address is the address itself.
pub proof fn lemma_context_own_level(a: AddressView)
    ensures
        either_left(AddressView { level: a.level, index: shr(a.index, (a.level - a.level) as nat) })
            == either_left(a),
{
    crate::bits::lemma_shr_zero(a.index);
}

/// Above an address, its context is an address that contains it: its ancestor
/// (or itself) at that level.
pub proof fn law_context_ancestor(a: AddressView, level: nat)
    requires
        level >= a.level,
    ensures
        ({
            let up = AddressView { level, index: shr(a.index, (level - a.level) as nat) };
            &&& up.level == level
            &&& up.contains(a)
            &&& (level > a.level ==> up.is_ancestor_of(a))
        }),
{
    crate::address::law_contains(
        AddressView { level, index: shr(a.index, (level - a.level) as nat) },
        a,
    );
}

/// Below an address, when no index is lost, its context is the range of
/// indices of exactly those addresses at that level that it is an ancestor of.
pub proof fn law_context_descendants(a: AddressView, level: nat, j: nat)
    requires
        level < a.level,
        (a.index + 1) * pow2((a.level - level) as nat) <= usize::MAX,
    ensures
        ({
            let d = (a.level - level) as nat;
            (shl_usize(a.index, d) <= j && j < shl_usize(a.index + 1, d)) <==> a.is_ancestor_of(
                AddressView { level, index: j },
            )
        }),
{
    let d = (a.level - level) as nat;
    lemma_pow2_pos(d);
    assert(a.index * pow2(d) <= (a.index + 1) * pow2(d)) by (nonlinear_arith);
    lemma_shl_no_wrap(a.index, d);
    lemma_shl_no_wrap(a.index + 1, d);
    lemma_shr_block(j, a.index, d);
}

} // verus!
