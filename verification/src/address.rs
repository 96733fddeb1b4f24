//! Addresses of the nodes of a Merkle tree.
use vstd::prelude::*;

verus! {

use core::cmp::Ordering;
use vstd::std_specs::convert::FromSpecImpl;
use vstd::arithmetic::power2::{pow2, lemma_pow2_pos, lemma2_to64};
use crate::bits::{
    shl_usize, shr, trailing_ones,
    lemma_usize_shl, lemma_usize_shr, lemma_shr_step, lemma_trailing_ones, lemma_shr_shr,
    lemma_shr_zero, lemma_shl_no_wrap, lemma_shr_block, lemma_shr_succ, lemma_trailing_ones_below,
};
use crate::level::{Level, lemma_level_view};
use crate::position::{Position, lemma_position_view};

/// The abstract value of an address: the level of a node and its index among
/// the nodes of that level, counted from the left.
pub ghost struct AddressView {
    pub level: nat,
    pub index: nat,
}

impl AddressView {
    /// Whether `self` lies strictly above `other` on the path from `other` to the root.
    pub open spec fn is_ancestor_of(self, other: AddressView) -> bool {
        self.level > other.level && shr(other.index, (self.level - other.level) as nat)
            == self.index
    }

    /// Whether `self` is `other` or one of its ancestors.
    pub open spec fn contains(self, other: AddressView) -> bool {
        self == other || self.is_ancestor_of(other)
    }

    /// The address of the parent node.
    pub open spec fn parent(self) -> AddressView {
        AddressView { level: self.level + 1, index: self.index / 2 }
    }

    /// The address of the other child of the same parent.
    pub open spec fn sibling(self) -> AddressView {
        AddressView {
            level: self.level,
            index: if self.index % 2 == 0 {
                self.index + 1
            } else {
                (self.index - 1) as nat
            },
        }
    }

    /// The nearest of `self` and its ancestors that is a left child: the root of
    /// the subtree that `self` completes.
    pub open spec fn current_incomplete(self) -> AddressView {
        AddressView {
            level: self.level + trailing_ones(self.index),
            index: shr(self.index, trailing_ones(self.index)),
        }
    }

    /// The nearest of the ancestors of `self`, or of the node right after it,
    /// that is still incomplete once `self` is complete.
    pub open spec fn next_incomplete_parent(self) -> AddressView {
        if self.index % 2 == 1 {
            self.current_incomplete()
        } else {
            AddressView { level: self.level, index: self.index + 1 }.current_incomplete()
        }
    }

    /// The number of levels that `current_incomplete` climbs from `self`.
    pub open spec fn incomplete_height(self) -> nat {
        if self.index % 2 == 1 {
            trailing_ones(self.index)
        } else {
            trailing_ones(self.index + 1)
        }
    }
}

/// The address of an internal node of the Merkle tree.
/// When `level == 0`, the index has the same value as the
/// position.
#[derive(Copy, Clone, Debug, PartialEq, Eq, PartialOrd, Ord, Hash, Structural)]
pub struct Address {
    pub(crate) level: Level,
    pub(crate) index: usize,
}

impl View for Address {
    type V = AddressView;

    closed spec fn view(&self) -> AddressView {
        AddressView { level: self.level@, index: self.index as nat }
    }
}

/// Inside this crate an address is read through its fields.
pub(crate) broadcast proof fn lemma_address_view(a: Address)
    ensures
        #[trigger] a@ == (AddressView { level: a.level@, index: a.index as nat }),
{
}

/// The address whose view is `v`, for a view whose level fits in a `u8` and
/// whose index fits in a `usize`.
pub closed spec fn address_from_view(v: AddressView) -> Address {
    Address { level: Level(v.level as u8), index: v.index as usize }
}

/// Every address is the address of its view.
pub proof fn lemma_address_from_view(a: Address)
    ensures
        address_from_view(a@) == a,
{
    lemma_level_view(a.level);
    lemma_level_view(address_from_view(a@).level);
}

impl Address {
    /// Construct a new address from its constituent parts.
    pub fn from_parts(level: Level, index: usize) -> (r: Self)
        ensures
            r@ == (AddressView { level: level@, index: index as nat }),
    {
        Address { level, index }
    }

    /// Returns the address at the given level that contains the specified leaf position.
    pub fn above_position(level: Level, position: Position) -> (r: Self)
        requires
            level@ < usize::BITS,
        ensures
            r@ == (AddressView { level: level@, index: shr(position@, level@) }),
    {
        broadcast use lemma_level_view, lemma_position_view;

        proof {
            lemma_usize_shr(position.0, level.0 as usize);
        }
        Address { level, index: position.0 >> (level.0 as usize) }
    }

    /// Returns the level of the root of the tree having its root at this address.
    pub fn level(&self) -> (r: Level)
        ensures
            r@ == self@.level,
    {
        self.level
    }

    /// Returns the index of the address.
    ///
    /// The index of an address is defined as the number of subtrees with their roots
    /// at the address's level that appear to the left of this address in a binary
    /// tree of arbitrary height > level * 2 + 1.
    pub fn index(&self) -> (r: usize)
        ensures
            r as nat == self@.index,
    {
        self.index
    }

    /// The address of the node one level higher than this in a binary tree that contains
    /// this address as either its left or right child.
    pub fn parent(&self) -> (r: Address)
        requires
            self@.level < u8::MAX,
        ensures
            r@ == self@.parent(),
    {
        broadcast use lemma_level_view;

        let index = self.index;
        assert(index >> 1usize == index / 2) by (bit_vector);
        Address { level: self.level + 1, index: index >> 1 }
    }

    /// Returns the address that shares the same parent as this address.
    pub fn sibling(&self) -> (r: Address)
        ensures
            r@ == self@.sibling(),
    {
        let index = self.index;
        assert((index & 1usize == 0) <==> (index % 2 == 0)) by (bit_vector);
        Address {
            level: self.level,
            index: if index & 0x1 == 0 {
                index + 1
            } else {
                index - 1
            },
        }
    }

    /// Returns the immediate children of this address: none at the leaves.
    /// The index of a child is twice the index of its parent (plus one on the
    /// right), in the width of a `usize`.
    pub fn children(&self) -> (r: Option<(Address, Address)>)
        ensures
            self@.level == 0 ==> r is None,
            self@.level > 0 ==> (r matches Some((left, right)) && left@ == (AddressView {
                level: (self@.level - 1) as nat,
                index: shl_usize(self@.index, 1),
            }) && right@ == (AddressView {
                level: (self@.level - 1) as nat,
                index: shl_usize(self@.index, 1) + 1,
            })),
    {
        broadcast use lemma_level_view;

        if self.level == Level::from(0) {
            None
        } else {
            let index = self.index;
            proof {
                lemma_usize_shl(index, 1);
            }
            assert(((index << 1usize) | 1usize) == (index << 1usize) + 1) by (bit_vector);
            let left = Address { level: self.level - 1, index: index << 1 };

            let right = Address { level: self.level - 1, index: (index << 1) + 1 };

            Some((left, right))
        }
    }

    /// Returns whether this address is an ancestor of the specified address.
    pub fn is_ancestor_of(&self, addr: &Self) -> (r: bool)
        requires
            // the index of `addr` is shifted by the difference of the levels
            self@.level > addr@.level ==> self@.level - addr@.level < usize::BITS,
        ensures
            r == self@.is_ancestor_of(addr@),
            r == (self@.level > addr@.level && shr(addr@.index, (self@.level - addr@.level) as nat)
                == self@.index),
    {
        broadcast use lemma_level_view;

        self.level.0 > addr.level.0 && {
            let shift = (self.level.0 - addr.level.0) as usize;
            proof {
                lemma_usize_shr(addr.index, shift);
            }
            addr.index >> shift == self.index
        }
    }

    /// Returns whether this address is an ancestor of, or is equal to,
    /// the specified address.
    pub fn contains(&self, addr: &Self) -> (r: bool)
        requires
            self@.level > addr@.level ==> self@.level - addr@.level < usize::BITS,
        ensures
            r == self@.contains(addr@),
            r == (self@.level >= addr@.level && shr(addr@.index, (self@.level - addr@.level) as nat)
                == self@.index),
    {
        proof {
            law_contains(self@, addr@);
        }
        broadcast use lemma_level_view;

        *self == *addr || self.is_ancestor_of(addr)
    }

    /// Returns the minimum value among the range of leaf positions that are contained within the
    /// tree with its root at this address.
    pub fn position_range_start(&self) -> (r: Position)
        requires
            self@.level < usize::BITS,
        ensures
            r@ == shl_usize(self@.index, self@.level),
    {
        broadcast use lemma_level_view, lemma_position_view;

        proof {
            lemma_usize_shl(self.index, self.level.0 as usize);
        }
        Position::from(self.index << (self.level.0 as usize))
    }

    /// Returns the (exclusive) end of the range of leaf positions that are contained within the
    /// tree with its root at this address.
    pub fn position_range_end(&self) -> (r: Position)
        requires
            self@.level < usize::BITS,
            self@.index < usize::MAX,
        ensures
            r@ == shl_usize(self@.index + 1, self@.level),
    {
        broadcast use lemma_level_view, lemma_position_view;

        let next = self.index + 1;
        proof {
            lemma_usize_shl(next, self.level.0 as usize);
        }
        Position::from(next << (self.level.0 as usize))
    }

    /// Returns the maximum value among the range of leaf positions that are contained within the
    /// tree with its root at this address.
    pub fn max_position(&self) -> (r: Position)
        requires
            self@.level < usize::BITS,
            self@.index < usize::MAX,
            shl_usize(self@.index + 1, self@.level) > 0,
        ensures
            r@ == shl_usize(self@.index + 1, self@.level) - 1,
    {
        self.position_range_end() - 1
    }

    /// Returns the end-exclusive range of leaf positions that are contained within the tree with
    /// its root at this address.
    pub fn position_range(&self) -> (r: core::ops::Range<Position>)
        requires
            self@.level < usize::BITS,
            self@.index < usize::MAX,
        ensures
            r.start@ == shl_usize(self@.index, self@.level),
            r.end@ == shl_usize(self@.index + 1, self@.level),
    {
        core::ops::Range { start: self.position_range_start(), end: self.position_range_end() }
    }

    /// Returns whether the tree with this root address contains the given leaf position, or if not
    /// whether an address at the same level with a greater or lesser index will contain the
    /// specified leaf position.
    pub fn position_cmp(&self, pos: Position) -> (r: Ordering)
        requires
            self@.level < usize::BITS,
            self@.index < usize::MAX,
        ensures
            r == if shl_usize(self@.index, self@.level) > pos@ {
                Ordering::Greater
            } else if shl_usize(self@.index + 1, self@.level) <= pos@ {
                Ordering::Less
            } else {
                Ordering::Equal
            },
    {
        broadcast use lemma_position_view;

        let range = self.position_range();
        if range.start.0 > pos.0 {
            Ordering::Greater
        } else if range.end.0 <= pos.0 {
            Ordering::Less
        } else {
            Ordering::Equal
        }
    }

    /// Returns whether this address is the right-hand child of its parent
    pub fn is_right_child(&self) -> (r: bool)
        ensures
            r == (self@.index % 2 == 1),
    {
        let index = self.index;
        assert((index & 1usize == 1) <==> (index % 2 == 1)) by (bit_vector);
        index & 0x1 == 1
    }

    /// Returns the nearest of this address and its ancestors that is a left
    /// child, found by climbing while the index is odd.
    pub fn current_incomplete(&self) -> (r: Address)
        requires
            // the levels are counted up in a `u8`, one past the level returned
            self@.level + trailing_ones(self@.index) < u8::MAX,
        ensures
            r@ == self@.current_incomplete(),
            r@.level >= self@.level,
            r@.index == shr(self@.index, (r@.level - self@.level) as nat),
            r@.index % 2 == 0,
    {
        proof {
            law_current_incomplete(self@);
        }
        broadcast use lemma_level_view;

        let ghost t = trailing_ones(self@.index);
        // find the first zero bit in the index, searching from the least significant bit
        let mut index = self.index;
        let mut level: u8 = self.level.0;
        let ghost mut k: nat = 0;
        proof {
            vstd::arithmetic::power2::lemma2_to64();
            lemma_trailing_ones_prefix(self@.index, 0);
        }
        loop
            invariant
                k <= t,
                t == trailing_ones(self@.index),
                self@.level + t < u8::MAX,
                level == self@.level + k,
                index as nat == shr(self@.index, k),
                trailing_ones(index as nat) == t - k,
            decreases t - k,
        {
            assert((index & 1usize == 1) <==> (index % 2 == 1)) by (bit_vector);
            if index & 0x1 == 1 {
                assert(index >> 1usize == index / 2) by (bit_vector);
                index = index >> 1;
                level = level + 1;
                proof {
                    lemma_shr_step(self@.index, k);
                    k = k + 1;
                }
            } else {
                proof {
                    lemma_level_view(Level(level));
                }
                return Address { level: Level(level), index };
            }
        }
    }

    /// Returns the nearest incomplete ancestor once this address is complete:
    /// for a right child, that of this address; for a left child, that of the
    /// node right after it.
    pub fn next_incomplete_parent(&self) -> (r: Address)
        requires
            self@.level + self@.incomplete_height() < u8::MAX,
        ensures
            r@ == self@.next_incomplete_parent(),
            r@.level > self@.level,
            r@.index == shr(self@.index, (r@.level - self@.level) as nat),
            r@.index % 2 == 0,
    {
        proof {
            law_next_incomplete_parent(self@);
        }
        broadcast use lemma_level_view;

        if self.is_right_child() {
            self.current_incomplete()
        } else {
            let index = self.index;
            assert(index % 2 == 0 ==> (index | 1usize) == index + 1) by (bit_vector);
            let complete = Address { level: self.level, index: index + 1 };
            complete.current_incomplete()
        }
    }

    /// Increments this address's index by 1 and returns the resulting address.
    pub fn next_at_level(&self) -> (r: Address)
        requires
            self@.index < usize::MAX,
        ensures
            r@ == (AddressView { level: self@.level, index: self@.index + 1 }),
    {
        Address { level: self.level, index: self.index + 1 }
    }
}

/// Two addresses with the same level and index are the same address.
pub proof fn lemma_address_view_injective(a: Address, b: Address)
    requires
        a@ == b@,
    ensures
        a == b,
{
    lemma_level_view(a.level);
    lemma_level_view(b.level);
}

/// Taking the sibling twice gives back the address, and an address is never
/// its own sibling.
pub proof fn lemma_sibling_involutive(a: AddressView)
    ensures
        a.sibling().sibling() == a,
        a.sibling() != a,
{
}

/// An address and its sibling share their parent.
pub proof fn lemma_sibling_same_parent(a: AddressView)
    ensures
        a.sibling().parent() == a.parent(),
{
    if a.index % 2 == 0 {
        assert((a.index + 1) / 2 == a.index / 2);
    } else {
        assert((a.index - 1) / 2 == a.index / 2);
    }
}

/// The parent of an address is one of its ancestors, and every address
/// contains itself.
pub proof fn lemma_parent_is_ancestor(a: AddressView)
    ensures
        a.parent().is_ancestor_of(a),
        a.contains(a),
{
    lemma_shr_step(a.index, 0);
    lemma_shr_zero(a.index);
}

/// The parent of an address is its ancestor one level up: the address whose
/// index drops the lowest bit of the index.
pub proof fn law_parent(a: AddressView)
    ensures
        a.parent().level == a.level + 1,
        a.parent().index == shr(a.index, 1),
        a.parent().is_ancestor_of(a),
{
    lemma_parent_is_ancestor(a);
}

/// Being an ancestor is transitive.
pub proof fn lemma_ancestor_transitive(a: AddressView, b: AddressView, c: AddressView)
    requires
        a.is_ancestor_of(b),
        b.is_ancestor_of(c),
    ensures
        a.is_ancestor_of(c),
{
    lemma_shr_shr(c.index, (b.level - c.level) as nat, (a.level - b.level) as nat);
}

/// When no index bit is lost, the children of an address are siblings of each
/// other, the left one first, and the address is the parent of both.
pub proof fn lemma_children_parent(a: AddressView)
    requires
        a.level > 0,
        2 * a.index + 1 <= usize::MAX,
    ensures
        ({
            let left = AddressView { level: (a.level - 1) as nat, index: shl_usize(a.index, 1) };
            let right = AddressView {
                level: (a.level - 1) as nat,
                index: shl_usize(a.index, 1) + 1,
            };
            &&& left.parent() == a
            &&& right.parent() == a
            &&& left.sibling() == right
            &&& a.is_ancestor_of(left) && a.is_ancestor_of(right)
        }),
{
    lemma2_to64();
    lemma_shl_no_wrap(a.index, 1);
    lemma_parent_is_ancestor(AddressView { level: (a.level - 1) as nat, index: 2 * a.index });
    lemma_parent_is_ancestor(AddressView { level: (a.level - 1) as nat, index: 2 * a.index + 1 });
}

/// The leaves of the subtree rooted at an address are the positions that the
/// address lies above: when its range of positions fits in a `usize`, a
/// position falls in that range exactly when shifting it right by the level
/// gives the index.
pub proof fn lemma_position_range_contains(a: AddressView, p: nat)
    requires
        (a.index + 1) * pow2(a.level) <= usize::MAX,
    ensures
        (shl_usize(a.index, a.level) <= p && p < shl_usize(a.index + 1, a.level)) <==> shr(
            p,
            a.level,
        ) == a.index,
        shl_usize(a.index + 1, a.level) - shl_usize(a.index, a.level) == pow2(a.level),
{
    lemma_pow2_pos(a.level);
    assert(a.index * pow2(a.level) <= (a.index + 1) * pow2(a.level)) by (nonlinear_arith);
    assert((a.index + 1) * pow2(a.level) == a.index * pow2(a.level) + pow2(a.level))
        by (nonlinear_arith);
    lemma_shl_no_wrap(a.index, a.level);
    lemma_shl_no_wrap(a.index + 1, a.level);
    lemma_shr_block(p, a.index, a.level);
}

/// The address above a leaf at the next level up is the parent of the address
/// above it at this level.
pub proof fn lemma_above_position_parent(level: nat, p: nat)
    ensures
        (AddressView { level: level + 1, index: shr(p, level + 1) }) == (AddressView {
            level,
            index: shr(p, level),
        }).parent(),
{
    lemma_shr_step(p, level);
}

/// When no position is lost, the leaves below the two children of an address
/// split the leaves below it in two halves, the left one first.
pub proof fn lemma_children_split_range(a: AddressView)
    requires
        a.level > 0,
        (a.index + 1) * pow2(a.level) <= usize::MAX,
    ensures
        ({
            let k = (a.level - 1) as nat;
            let left = shl_usize(a.index, 1);
            &&& shl_usize(left, k) == shl_usize(a.index, a.level)
            &&& shl_usize(left + 1, k) == shl_usize(a.index, a.level) + pow2(k)
            &&& shl_usize(left + 2, k) == shl_usize(a.index + 1, a.level)
        }),
{
    let k = (a.level - 1) as nat;
    let i = a.index;
    let h = pow2(k);
    lemma_pow2_pos(k);
    vstd::arithmetic::power2::lemma_pow2_unfold(a.level);
    lemma2_to64();
    assert(pow2(a.level) == 2 * h);
    assert((i + 1) * pow2(a.level) == 2 * i * h + 2 * h) by (nonlinear_arith)
        requires
            pow2(a.level) == 2 * h,
    ;
    assert(2 * i + 1 <= usize::MAX) by (nonlinear_arith)
        requires
            2 * i * h + 2 * h <= usize::MAX,
            h >= 1,
    ;
    lemma_shl_no_wrap(i, 1);
    assert(i * pow2(a.level) == 2 * i * h) by (nonlinear_arith)
        requires
            pow2(a.level) == 2 * h,
    ;
    assert((2 * i) * h == 2 * i * h) by (nonlinear_arith);
    assert((2 * i + 1) * h == 2 * i * h + h) by (nonlinear_arith);
    assert((2 * i + 2) * h == 2 * i * h + 2 * h) by (nonlinear_arith);
    lemma_shl_no_wrap(2 * i, k);
    lemma_shl_no_wrap(2 * i + 1, k);
    lemma_shl_no_wrap(2 * i + 2, k);
    lemma_shl_no_wrap(i, a.level);
    lemma_shl_no_wrap(i + 1, a.level);
}

/// The address returned by `current_incomplete` is a left child (or the
/// root of a one-leaf tree), and it is the address itself or one of its
/// ancestors.
pub proof fn lemma_current_incomplete_contains(a: AddressView)
    ensures
        a.current_incomplete().index % 2 == 0,
        a.current_incomplete().contains(a),
{
    lemma_trailing_ones(a.index);
    let t = trailing_ones(a.index);
    if t == 0 {
        lemma_shr_zero(a.index);
    }
}

/// `next_incomplete_parent` always climbs at least one level.
pub proof fn lemma_next_incomplete_parent_above(a: AddressView)
    ensures
        a.next_incomplete_parent().level > a.level,
        a.next_incomplete_parent().level == a.level + a.incomplete_height(),
{
}

/// `current_incomplete` climbs from an address to its lowest ancestor-or-self
/// with an even index: the result lies above the address on its path to the
/// root, its index is even, and every address strictly between them on that
/// path (the address itself included) has an odd index.
pub proof fn law_current_incomplete(a: AddressView)
    ensures
        ({
            let r = a.current_incomplete();
            &&& r.level >= a.level
            &&& r.index == shr(a.index, (r.level - a.level) as nat)
            &&& r.index % 2 == 0
            &&& forall|k: nat|
                a.level <= k < r.level ==> #[trigger] shr(a.index, (k - a.level) as nat) % 2 == 1
        }),
{
    let r = a.current_incomplete();
    lemma_trailing_ones(a.index);
    assert forall|k: nat| a.level <= k < r.level implies #[trigger] shr(
        a.index,
        (k - a.level) as nat,
    ) % 2 == 1 by {
        lemma_trailing_ones_below(a.index, (k - a.level) as nat);
    }
}

/// `next_incomplete_parent` climbs from an address to its lowest strict
/// ancestor with an even index: the result lies strictly above the address on
/// its path to the root, its index is even, and every address strictly between
/// them has an odd index.
pub proof fn law_next_incomplete_parent(a: AddressView)
    ensures
        ({
            let r = a.next_incomplete_parent();
            &&& r.level > a.level
            &&& r.index == shr(a.index, (r.level - a.level) as nat)
            &&& r.index % 2 == 0
            &&& forall|k: nat|
                a.level < k < r.level ==> #[trigger] shr(a.index, (k - a.level) as nat) % 2 == 1
        }),
{
    let r = a.next_incomplete_parent();
    if a.index % 2 == 1 {
        law_current_incomplete(a);
    } else {
        let b = AddressView { level: a.level, index: a.index + 1 };
        law_current_incomplete(b);
        assert((a.index + 1) / 2 == a.index / 2);
        // above the lowest bit, the indices of `a` and of the next address agree
        assert forall|j: nat| j >= 1 implies shr(a.index + 1, j) == shr(a.index, j) by {
            lemma_shr_succ(a.index + 1, (j - 1) as nat);
            lemma_shr_succ(a.index, (j - 1) as nat);
        }
        assert(r.level > a.level);
        assert(shr(a.index + 1, (r.level - a.level) as nat) == shr(
            a.index,
            (r.level - a.level) as nat,
        ));
        assert forall|k: nat| a.level < k < r.level implies #[trigger] shr(
            a.index,
            (k - a.level) as nat,
        ) % 2 == 1 by {
            assert(shr(b.index, (k - b.level) as nat) % 2 == 1);
            assert(shr(a.index + 1, (k - a.level) as nat) == shr(a.index, (k - a.level) as nat));
        }
    }
}

/// An address is an ancestor of another exactly when it lies at a higher
/// level and dropping the difference of the levels from the low bits of the
/// other's index gives its index.
pub proof fn law_is_ancestor_of(a: AddressView, b: AddressView)
    ensures
        a.is_ancestor_of(b) <==> (a.level > b.level && shr(b.index, (a.level - b.level) as nat)
            == a.index),
{
}

/// The ancestors of an address are its parent and the ancestors of its parent.
pub proof fn law_ancestor_via_parent(a: AddressView, b: AddressView)
    ensures
        a.is_ancestor_of(b) <==> (a == b.parent() || a.is_ancestor_of(b.parent())),
{
    if a.level > b.level {
        let d = (a.level - b.level) as nat;
        lemma_shr_succ(b.index, (d - 1) as nat);
        if d == 1 {
            lemma_shr_zero(b.index / 2);
        }
    }
}

/// An address contains another exactly when it lies at the same or a higher
/// level and dropping the difference of the levels from the low bits of the
/// other's index gives its index: at the same level, the indices are equal.
pub proof fn law_contains(a: AddressView, b: AddressView)
    ensures
        a.contains(b) <==> (a.level >= b.level && shr(b.index, (a.level - b.level) as nat)
            == a.index),
        a.contains(b) ==> ((a.level == b.level && a.index == b.index) || (a.level > b.level
            && shr(b.index, (a.level - b.level) as nat) == a.index)),
{
    lemma_shr_zero(b.index);
}

/// Climbing `k` levels below the trailing ones leaves the rest of them.
proof fn lemma_trailing_ones_prefix(n: nat, k: nat)
    requires
        k <= trailing_ones(n),
    ensures
        trailing_ones(shr(n, k)) == trailing_ones(n) - k,
    decreases k,
{
    vstd::arithmetic::power2::lemma2_to64();
    if k > 0 {
        lemma_trailing_ones_prefix(n, (k - 1) as nat);
        lemma_shr_step(n, (k - 1) as nat);
    }
}

impl From<Position> for Address {
    fn from(p: Position) -> (r: Self)
        ensures
            r@ == (AddressView { level: 0, index: p@ }),
    {
        broadcast use lemma_level_view, lemma_position_view;

        Address { level: Level(0), index: p.0 }
    }
}

impl FromSpecImpl<Position> for Address {
    open spec fn obeys_from_spec() -> bool {
        true
    }

    closed spec fn from_spec(p: Position) -> Self {
        Address { level: Level(0), index: p.0 }
    }
}

impl<'a> From<&'a Position> for Address {
    fn from(p: &'a Position) -> (r: Self)
        ensures
            r@ == (AddressView { level: 0, index: p@ }),
    {
        broadcast use lemma_level_view, lemma_position_view;

        Address { level: Level(0), index: p.0 }
    }
}

impl<'a> FromSpecImpl<&'a Position> for Address {
    open spec fn obeys_from_spec() -> bool {
        true
    }

    closed spec fn from_spec(p: &'a Position) -> Self {
        Address { level: Level(0), index: p.0 }
    }
}

impl From<Address> for Option<Position> {
    fn from(addr: Address) -> (r: Self)
        ensures
            addr@.level == 0 ==> (r matches Some(p) && p@ == addr@.index),
            addr@.level != 0 ==> r is None,
    {
        broadcast use lemma_level_view, lemma_position_view;

        if addr.level == Level::from(0) {
            Some(Position::from(addr.index))
        } else {
            None
        }
    }
}

impl FromSpecImpl<Address> for Option<Position> {
    open spec fn obeys_from_spec() -> bool {
        true
    }

    closed spec fn from_spec(addr: Address) -> Self {
        if addr.level.0 == 0 {
            Some(Position(addr.index))
        } else {
            None
        }
    }
}

impl<'a> From<&'a Address> for Option<Position> {
    fn from(addr: &'a Address) -> (r: Self)
        ensures
            addr@.level == 0 ==> (r matches Some(p) && p@ == addr@.index),
            addr@.level != 0 ==> r is None,
    {
        broadcast use lemma_level_view, lemma_position_view;

        if addr.level == Level::from(0) {
            Some(Position::from(addr.index))
        } else {
            None
        }
    }
}

impl<'a> FromSpecImpl<&'a Address> for Option<Position> {
    open spec fn obeys_from_spec() -> bool {
        true
    }

    closed spec fn from_spec(addr: &'a Address) -> Self {
        if addr.level.0 == 0 {
            Some(Position(addr.index))
        } else {
            None
        }
    }
}

} // verus!
