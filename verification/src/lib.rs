//! Auditing of Merkle Patricia Trie update traces.
//!
//! A trace is an ordered sequence of rows, each claiming the hash state of one
//! trie node before and after one update. This crate decodes the textual
//! fields of such rows ([`record`]) and checks a whole trace for internal
//! consistency ([`audit`]): hashes chain from row to row, node roles change
//! legally, and path, depth and key agree. No hash is ever computed here.

pub mod audit;
pub mod bignat;
pub mod framing;
pub mod hash;
pub mod hash_type;
pub mod order;
pub mod record;
pub mod row;
pub mod text;

use vstd::prelude::*;

pub use crate::audit::violations;
pub use crate::audit::Check;
pub use crate::audit::Pass;
pub use crate::audit::Verify;
pub use crate::audit::Violation;
pub use crate::bignat::BigNat;
pub use crate::hash::HexDecodeError;
pub use crate::hash_type::HashType;
pub use crate::record::RowDe;
pub use crate::record::RowDeError;
pub use crate::row::Row;
pub use crate::row::RowView;

verus! {

/// An opaque 32-byte identifier of a trie node.
pub type Hash = crate::hash::Hash;

} // verus!
