//! One step of an update trace.

use crate::bignat::BigNat;
use crate::bignat::le_value;
use crate::hash_type::HashType;
use vstd::prelude::*;

verus! {

/// The claimed hash state of one trie node before (`old_*`) and after
/// (`new_*`) one update, at one depth along the path of one key.
#[derive(Debug, Clone, PartialEq, Eq, Hash)]
pub struct Row {
    /// Whether this row opens a new operation.
    pub is_first: bool,
    /// The sibling hash at this depth.
    pub sib: crate::hash::Hash,
    /// The depth of this node within its operation's path, from zero.
    pub depth: usize,
    /// The path bit chosen at this depth.
    pub path: BigNat,
    /// The path bits accumulated from the root down to this depth.
    pub path_acc: BigNat,
    /// The node's role before the update.
    pub old_hash_type: HashType,
    /// The node's hash before the update.
    pub old_hash: crate::hash::Hash,
    /// The hash that the node committed to before the update.
    pub old_value: crate::hash::Hash,
    /// The node's role after the update.
    pub new_hash_type: HashType,
    /// The node's hash after the update.
    pub new_hash: crate::hash::Hash,
    /// The hash that the node commits to after the update.
    pub new_value: crate::hash::Hash,
    /// The key that the operation addresses.
    pub key: crate::hash::Hash,
    /// The root of the trie after the update.
    pub new_root: crate::hash::Hash,
}

/// What a [`Row`] states, as plain mathematical values.
pub struct RowView {
    pub is_first: bool,
    pub sib: Seq<u8>,
    pub depth: nat,
    pub path: nat,
    pub path_acc: nat,
    pub old_hash_type: HashType,
    pub old_hash: Seq<u8>,
    pub old_value: Seq<u8>,
    pub new_hash_type: HashType,
    pub new_hash: Seq<u8>,
    pub new_value: Seq<u8>,
    pub key: Seq<u8>,
    pub new_root: Seq<u8>,
}

impl View for Row {
    type V = RowView;

    open spec fn view(&self) -> RowView {
        RowView {
            is_first: self.is_first,
            sib: self.sib@,
            depth: self.depth as nat,
            path: self.path@,
            path_acc: self.path_acc@,
            old_hash_type: self.old_hash_type,
            old_hash: self.old_hash@,
            old_value: self.old_value@,
            new_hash_type: self.new_hash_type,
            new_hash: self.new_hash@,
            new_value: self.new_value@,
            key: self.key@,
            new_root: self.new_root@,
        }
    }
}

/// The statements of a sequence of rows, in order.
pub open spec fn trace_view(rows: Seq<Row>) -> Seq<RowView> {
    Seq::new(rows.len(), |i: int| rows[i]@)
}

impl RowView {
    /// Whether this is what some [`Row`] states: every hash has thirty-two
    /// bytes and the depth is a machine number.
    pub open spec fn well_formed(self) -> bool {
        &&& self.sib.len() == 32
        &&& self.old_hash.len() == 32
        &&& self.old_value.len() == 32
        &&& self.new_hash.len() == 32
        &&& self.new_value.len() == 32
        &&& self.key.len() == 32
        &&& self.new_root.len() == 32
        &&& self.depth <= usize::MAX
    }

    /// The key of this row, read as a little-endian number.
    pub open spec fn key_number(self) -> nat {
        le_value(self.key)
    }
}

/// What a row states is well formed.
pub proof fn lemma_row_view_well_formed(row: Row)
    ensures
        row@.well_formed(),
{
}

} // verus!
