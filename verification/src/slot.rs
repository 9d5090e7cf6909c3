//! Type identity tokens and type-tagged slots.

use vstd::prelude::*;

verus! {

/// An opaque, comparable token standing for one concrete field type at
/// runtime.  Two fields have "the same type" exactly when their tokens
/// compare equal.  How tokens are assigned to real types is the caller's
/// business; the extraction logic only ever compares them.
#[derive(Clone, Copy, PartialEq, Eq, Structural, Debug)]
pub struct TypeToken {
    pub id: u64,
}

/// A type-tagged reference to one field of a record: the field's type
/// token together with the field's position in declaration order.  Slots
/// are transient: one array of them is produced per extraction call,
/// permuted, and consumed; they are never stored.
#[derive(Clone, Copy, PartialEq, Eq, Structural, Debug)]
pub struct Slot {
    /// Token of the field's declared type.
    pub token: TypeToken,
    /// Position of the field in the record, in declaration order.
    pub field: usize,
}

} // verus!
