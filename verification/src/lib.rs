//! Common types and utilities used in incremental Merkle tree implementations:
//! leaf positions, tree levels, node addresses, retention metadata of leaves,
//! and the trait for the values hashed into a tree.

pub mod address;
pub mod bits;
pub mod context;
pub mod hashable;
pub mod level;
pub mod position;
pub mod retention;

pub use address::Address;
pub use hashable::Hashable;
pub use level::Level;
pub use position::Position;
pub use retention::Retention;
