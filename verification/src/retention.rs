//! Retention metadata of the leaves of a Merkle tree.
use vstd::prelude::*;

verus! {

/// A type for metadata that is used to determine when and how a leaf can be pruned from a tree.
#[derive(Clone, Copy, Debug, PartialEq, Eq, PartialOrd, Ord)]
pub enum Retention<C> {
    Ephemeral,
    Checkpoint { id: C, is_marked: bool },
    Marked,
}

impl<C> Retention<C> {
    /// Whether the leaf is retained as a checkpoint.
    pub open spec fn spec_is_checkpoint(&self) -> bool {
        self is Checkpoint
    }

    /// Whether the leaf is retained because it is marked: always for `Marked`,
    /// never for `Ephemeral`, and as flagged for a checkpoint.
    pub open spec fn spec_is_marked(&self) -> bool {
        match self {
            Retention::Ephemeral => false,
            Retention::Checkpoint { is_marked, .. } => *is_marked,
            Retention::Marked => true,
        }
    }

    pub fn is_checkpoint(&self) -> (r: bool)
        ensures
            r == self.spec_is_checkpoint(),
    {
        match self {
            Retention::Checkpoint { .. } => true,
            _ => false,
        }
    }

    pub fn is_marked(&self) -> (r: bool)
        ensures
            r == self.spec_is_marked(),
    {
        match self {
            Retention::Ephemeral => false,
            Retention::Checkpoint { is_marked, .. } => *is_marked,
            Retention::Marked => true,
        }
    }

    /// Applies `f` to the checkpoint identifier, if any, keeping the kind of
    /// retention and the mark.
    pub fn map<'a, D, F: Fn(&'a C) -> D>(&'a self, f: F) -> (r: Retention<D>)
        requires
            self matches Retention::Checkpoint { id, .. } ==> f.requires((id,)),
        ensures
            r.spec_is_checkpoint() == self.spec_is_checkpoint(),
            r.spec_is_marked() == self.spec_is_marked(),
            self is Ephemeral ==> r is Ephemeral,
            self is Marked ==> r is Marked,
            self matches Retention::Checkpoint { id, is_marked } ==> (r matches Retention::Checkpoint {
                id: d,
                is_marked: m,
            } && m == is_marked && f.ensures((id,), d)),
    {
        match self {
            Retention::Ephemeral => Retention::Ephemeral,
            Retention::Checkpoint { id, is_marked } => Retention::Checkpoint {
                id: f(id),
                is_marked: *is_marked,
            },
            Retention::Marked => Retention::Marked,
        }
    }
}

} // verus!
