//! Levels of a binary tree.
use vstd::prelude::*;

verus! {

use vstd::std_specs::convert::FromSpecImpl;
use vstd::std_specs::ops::{AddSpec, AddSpecImpl, SubSpec, SubSpecImpl};

/// A type-safe wrapper for indexing into "levels" of a binary tree, such that
/// nodes at level `0` are leaves, nodes at level `1` are parents of nodes at
/// level `0`, and so forth. This type is capable of representing levels in
/// trees containing up to 2^255 leaves.
#[derive(Copy, Clone, Debug, PartialEq, Eq, PartialOrd, Ord, Hash, Structural)]
pub struct Level(pub(crate) u8);

impl View for Level {
    type V = nat;

    /// The height of the level above the leaves.
    closed spec fn view(&self) -> nat {
        self.0 as nat
    }
}

/// Inside this crate a level is read through its field.
pub(crate) broadcast proof fn lemma_level_view(l: Level)
    ensures
        #[trigger] l@ == l.0 as nat,
{
}

/// Two levels with the same height are the same level.
pub proof fn lemma_level_view_injective(a: Level, b: Level)
    requires
        a@ == b@,
    ensures
        a == b,
{
}

/// Adding to a level and then subtracting the same amount gives it back.
pub proof fn lemma_level_add_sub(l: Level, v: u8)
    requires
        AddSpec::add_req(l, v),
    ensures
        SubSpec::sub_req(AddSpec::add_spec(l, v), v),
        SubSpec::sub_spec(AddSpec::add_spec(l, v), v) == l,
{
}

impl Level {
    /// The levels from `self` (inclusive) up to `other` (exclusive), in
    /// increasing order; empty when `other` is not above `self`.
    pub fn iter_to(self, other: Level) -> (levels: Vec<Level>)
        ensures
            levels@.len() == if other@ > self@ { other@ - self@ } else { 0 },
            forall|i: int| 0 <= i < levels@.len() ==> #[trigger] levels@[i]@ == self@ + i,
    {
        let mut levels: Vec<Level> = Vec::new();
        let mut l: u8 = self.0;
        while l < other.0
            invariant
                self.0 <= l,
                self.0 < other.0 ==> l <= other.0,
                self.0 >= other.0 ==> l == self.0,
                levels@.len() == l - self.0,
                forall|i: int| 0 <= i < levels@.len() ==> #[trigger] levels@[i]@ == self@ + i,
            decreases other.0 - l,
        {
            levels.push(Level(l));
            l = l + 1;
        }
        levels
    }
}

impl From<u8> for Level {
    fn from(value: u8) -> (r: Self)
        ensures
            r@ == value as nat,
    {
        Level(value)
    }
}

impl FromSpecImpl<u8> for Level {
    open spec fn obeys_from_spec() -> bool {
        true
    }

    closed spec fn from_spec(v: u8) -> Self {
        Level(v)
    }
}

impl From<Level> for u8 {
    fn from(level: Level) -> (r: u8)
        ensures
            r as nat == level@,
    {
        level.0
    }
}

impl FromSpecImpl<Level> for u8 {
    open spec fn obeys_from_spec() -> bool {
        true
    }

    open spec fn from_spec(v: Level) -> Self {
        v@ as u8
    }
}

impl From<Level> for usize {
    fn from(level: Level) -> (r: usize)
        ensures
            r as nat == level@,
    {
        level.0 as usize
    }
}

impl FromSpecImpl<Level> for usize {
    open spec fn obeys_from_spec() -> bool {
        true
    }

    open spec fn from_spec(v: Level) -> Self {
        v@ as usize
    }
}

impl core::ops::Add<u8> for Level {
    type Output = Self;

    fn add(self, value: u8) -> (r: Self)
        ensures
            r@ == self@ + value,
    {
        Level(self.0 + value)
    }
}

impl AddSpecImpl<u8> for Level {
    open spec fn obeys_add_spec() -> bool {
        true
    }

    /// The sum must still be a level.
    open spec fn add_req(self, value: u8) -> bool {
        self@ + value <= u8::MAX
    }

    closed spec fn add_spec(self, value: u8) -> Self {
        Level((self.0 + value) as u8)
    }
}

impl core::ops::Sub<u8> for Level {
    type Output = Self;

    fn sub(self, value: u8) -> (r: Self)
        ensures
            r@ == self@ - value,
    {
        Level(self.0 - value)
    }
}

impl SubSpecImpl<u8> for Level {
    open spec fn obeys_sub_spec() -> bool {
        true
    }

    /// A level cannot go below the leaves.
    open spec fn sub_req(self, value: u8) -> bool {
        self@ >= value
    }

    closed spec fn sub_spec(self, value: u8) -> Self {
        Level((self.0 - value) as u8)
    }
}

} // verus!
