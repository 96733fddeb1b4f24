//! Positions of leaves in a Merkle tree.
use vstd::prelude::*;

verus! {

use vstd::std_specs::convert::{FromSpecImpl, TryFromSpecImpl};
use vstd::std_specs::ops::{AddSpec, AddSpecImpl, SubSpec, SubSpecImpl};
use vstd::arithmetic::power2::{pow2, lemma_pow2_pos};
use crate::bits::{
    bit_len, ones, low_bits_set, shr,
    lemma_bit_len_bounds, lemma_bit_len_le, lemma_leading_zeros, lemma_ones_step,
    lemma_shr_step, lemma_usize_bit, lemma_usize_modulus, lemma_low_bits_set_step,
    lemma_low_bits_set_mono,
};
use crate::level::{Level, lemma_level_view};

/// A type representing the position of a leaf in a Merkle tree.
#[derive(Copy, Clone, Debug, PartialEq, Eq, PartialOrd, Ord, Hash, Structural)]
pub struct Position(pub(crate) usize);

impl View for Position {
    type V = nat;

    /// The index of the leaf, counted from the left.
    closed spec fn view(&self) -> nat {
        self.0 as nat
    }
}

/// Inside this crate a position is read through its field.
pub(crate) broadcast proof fn lemma_position_view(p: Position)
    ensures
        #[trigger] p@ == p.0 as nat,
{
}

/// Two positions with the same value are the same position.
pub proof fn lemma_position_view_injective(p: Position, q: Position)
    requires
        p@ == q@,
    ensures
        p == q,
{
}

/// Adding to a position and then subtracting the same amount gives it back.
pub proof fn lemma_position_add_sub(p: Position, v: usize)
    requires
        AddSpec::add_req(p, v),
    ensures
        SubSpec::sub_req(AddSpec::add_spec(p, v), v),
        SubSpec::sub_spec(AddSpec::add_spec(p, v), v) == p,
{
}

/// A position has no more set bits than binary digits: the ommers needed for
/// an authentication path are at most as many as the levels below the root.
pub proof fn lemma_ommer_count_bounded(n: nat)
    ensures
        ones(n) <= bit_len(n),
    decreases n,
{
    if n > 0 {
        lemma_ommer_count_bounded(n / 2);
    }
}

impl Position {
    /// Return whether the position is odd-valued.
    pub fn is_odd(&self) -> (r: bool)
        ensures
            r == (self@ % 2 == 1),
    {
        let x = self.0;
        assert((x & 1usize == 1) <==> (x % 2 == 1)) by (bit_vector);
        x & 0x1 == 1
    }

    /// Returns the minimum possible level of the root of a binary tree containing at least
    /// `self + 1` nodes.
    pub fn root_level(&self) -> (r: Level)
        ensures
            r@ == bit_len(self@),
            self@ < pow2(r@),
            self@ > 0 ==> pow2((r@ - 1) as nat) <= self@,
    {
        let x = self.0 as u64;
        let lz = x.leading_zeros();
        proof {
            lemma_leading_zeros(x);
            lemma_bit_len_bounds(self@);
        }
        let r = Level::from((64 - lz) as u8);
        r
    }

    /// Returns the number of cousins and/or ommers required to construct an authentication
    /// path to the root of a merkle tree that has `self + 1` nodes.
    pub fn past_ommer_count(&self) -> (r: usize)
        ensures
            r == ones(self@),
    {
        broadcast use lemma_level_view;
        let n: u8 = self.root_level().0;
        proof {
            lemma_usize_modulus();
            lemma_bit_len_le(self@, usize::BITS as nat);
            lemma_bit_len_bounds(self@);
            vstd::arithmetic::power2::lemma2_to64();
        }
        let mut count: usize = 0;
        let mut i: u8 = 0;
        while i < n
            invariant
                n == bit_len(self@),
                n <= usize::BITS,
                i <= n,
                count <= i,
                ones(self@) == count + ones(shr(self@, i as nat)),
                shr(self@, n as nat) == 0,
            decreases n - i,
        {
            proof {
                lemma_usize_bit(self.0, i as usize);
                lemma_ones_step(shr(self@, i as nat));
                lemma_shr_step(self@, i as nat);
            }
            if (self.0 >> (i as usize)) & 0x1 == 1 {
                count = count + 1;
            }
            i = i + 1;
        }
        count
    }

    /// Returns whether the binary tree having `self` as the position of the rightmost leaf
    /// contains a perfect balanced tree with a root at level `root_level` that contains the
    /// aforesaid leaf: that is, whether the `root_level` lowest bits of `self` are all set.
    pub fn is_complete_subtree(&self, root_level: Level) -> (r: bool)
        requires
            // the bit test shifts by each level below `root_level` until it finds a clear
            // bit; a position with every bit set runs it past the width of the word
            !(root_level@ > usize::BITS && self@ == usize::MAX),
        ensures
            r == low_bits_set(self@, root_level@),
    {
        broadcast use lemma_level_view;
        let n: u8 = root_level.0;
        let mut l: u8 = 0;
        proof {
            lemma_pow2_pos(0);
            vstd::arithmetic::power2::lemma2_to64();
        }
        while l < n
            invariant
                n == root_level@,
                !(n > usize::BITS && self@ == usize::MAX),
                l <= n,
                low_bits_set(self@, l as nat),
            decreases n - l,
        {
            proof {
                if l >= usize::BITS {
                    lemma_usize_modulus();
                    lemma_bit_len_le(self@, usize::BITS as nat);
                    // all of the word's bits are set, so the position is the largest
                    lemma_low_bits_set_mono(self@, usize::BITS as nat, l as nat);
                    vstd::arithmetic::div_mod::lemma_small_mod(self@, pow2(usize::BITS as nat));
                }
                lemma_usize_bit(self.0, l as usize);
                lemma_low_bits_set_step(self@, l as nat);
            }
            if self.0 & (1usize << (l as usize)) == 0 {
                proof {
                    if low_bits_set(self@, n as nat) {
                        lemma_low_bits_set_mono(self@, (l + 1) as nat, n as nat);
                    }
                }
                return false;
            }
            l = l + 1;
        }
        true
    }
}

impl From<Position> for usize {
    fn from(p: Position) -> (r: usize)
        ensures
            r as nat == p@,
    {
        p.0
    }
}

impl FromSpecImpl<Position> for usize {
    open spec fn obeys_from_spec() -> bool {
        true
    }

    open spec fn from_spec(p: Position) -> Self {
        p@ as usize
    }
}

impl From<Position> for u64 {
    fn from(p: Position) -> (r: u64)
        ensures
            r as nat == p@,
    {
        p.0 as u64
    }
}

impl FromSpecImpl<Position> for u64 {
    open spec fn obeys_from_spec() -> bool {
        true
    }

    open spec fn from_spec(p: Position) -> Self {
        p@ as u64
    }
}

impl From<usize> for Position {
    fn from(sz: usize) -> (r: Self)
        ensures
            r@ == sz as nat,
    {
        Position(sz)
    }
}

impl FromSpecImpl<usize> for Position {
    open spec fn obeys_from_spec() -> bool {
        true
    }

    closed spec fn from_spec(sz: usize) -> Self {
        Position(sz)
    }
}

impl TryFrom<u64> for Position {
    type Error = core::num::TryFromIntError;

    fn try_from(sz: u64) -> (r: Result<Self, Self::Error>)
        ensures
            sz <= usize::MAX ==> (r matches Ok(p) && p@ == sz as nat),
            sz > usize::MAX ==> r is Err,
    {
        match usize::try_from(sz) {
            Ok(v) => Ok(Position(v)),
            Err(e) => Err(e),
        }
    }
}

impl TryFromSpecImpl<u64> for Position {
    open spec fn obeys_try_from_spec() -> bool {
        true
    }

    closed spec fn try_from_spec(sz: u64) -> Result<Self, Self::Error> {
        match <usize as vstd::std_specs::convert::TryFromSpec<u64>>::try_from_spec(sz) {
            Ok(v) => Ok(Position(v)),
            Err(e) => Err(e),
        }
    }
}

impl core::ops::Add<usize> for Position {
    type Output = Position;

    fn add(self, other: usize) -> (r: Self)
        ensures
            r@ == self@ + other,
    {
        Position(self.0 + other)
    }
}

impl AddSpecImpl<usize> for Position {
    open spec fn obeys_add_spec() -> bool {
        true
    }

    /// The sum must still fit in a `usize`.
    open spec fn add_req(self, other: usize) -> bool {
        self@ + other <= usize::MAX
    }

    closed spec fn add_spec(self, other: usize) -> Self {
        Position((self.0 + other) as usize)
    }
}

impl core::ops::AddAssign<usize> for Position {
    fn add_assign(&mut self, other: usize)
        requires
            old(self)@ + other <= usize::MAX,
        ensures
            final(self)@ == old(self)@ + other,
    {
        self.0 += other
    }
}

impl core::ops::Sub<usize> for Position {
    type Output = Position;

    fn sub(self, other: usize) -> (r: Self)
        ensures
            r@ == self@ - other,
    {
        Position(self.0 - other)
    }
}

impl SubSpecImpl<usize> for Position {
    open spec fn obeys_sub_spec() -> bool {
        true
    }

    /// Positions do not go below zero.
    open spec fn sub_req(self, other: usize) -> bool {
        self@ >= other
    }

    closed spec fn sub_spec(self, other: usize) -> Self {
        Position((self.0 - other) as usize)
    }
}

} // verus!
