//! Tuple descriptors.
//!
//! A tuple query names, in order, the field types a caller wants back as
//! a tuple.  It hands the reordering engine its wanted order and performs
//! the final, defensive reconstruction check on the ordered slots.

use vstd::prelude::*;

use crate::slot::Slot;
use crate::slot::TypeToken;

verus! {

/// Whether `slots` is exactly one slot per wanted token, in order.
pub open spec fn slots_match_order(slots: Seq<Slot>, wanted: Seq<TypeToken>) -> bool {
    slots.len() == wanted.len() && (forall|i: int|
        0 <= i < slots.len() ==> slots[i].token == wanted[i])
}

/// An ordered, fixed-length list of wanted type tokens.  The result of a
/// tuple extraction follows this order, not the record's field order.
pub struct TupleQuery {
    /// The wanted type tokens, in result order.
    pub wanted: Vec<TypeToken>,
}

impl TupleQuery {
    pub fn new(wanted: Vec<TypeToken>) -> (r: TupleQuery)
        ensures
            r.wanted@ == wanted@,
    {
        TupleQuery { wanted }
    }

    /// The target type identities, in the exact order the result tuple
    /// must follow; this is what the reordering engine is fed.
    pub fn wanted_type_order(&self) -> (r: &Vec<TypeToken>)
        ensures
            r@ == self.wanted@,
    {
        &self.wanted
    }

    /// Assemble the all-shared result from slots assumed to already be in
    /// this query's order.  The token check is defensive only: it cannot
    /// fail on slots the reordering engine matched against this query.
    pub fn try_build_shared(&self, slots: Vec<Slot>) -> (r: Option<Vec<Slot>>)
        ensures
            match r {
                Some(out) => out@ == slots@ && slots_match_order(slots@, self.wanted@),
                None => !slots_match_order(slots@, self.wanted@),
            },
    {
        self.check_order(slots)
    }

    /// Assemble the all-exclusive result from slots assumed to already be
    /// in this query's order.  The caller guarantees that no two slots
    /// reference the same field; the engine's removal discipline provides
    /// that structurally.
    pub fn try_build_exclusive(&self, slots: Vec<Slot>) -> (r: Option<Vec<Slot>>)
        ensures
            match r {
                Some(out) => out@ == slots@ && slots_match_order(slots@, self.wanted@),
                None => !slots_match_order(slots@, self.wanted@),
            },
    {
        self.check_order(slots)
    }

    fn check_order(&self, slots: Vec<Slot>) -> (r: Option<Vec<Slot>>)
        ensures
            match r {
                Some(out) => out@ == slots@ && slots_match_order(slots@, self.wanted@),
                None => !slots_match_order(slots@, self.wanted@),
            },
    {
        if slots.len() != self.wanted.len() {
            return None;
        }
        let mut i: usize = 0;
        while i < slots.len()
            invariant
                0 <= i <= slots@.len(),
                slots@.len() == self.wanted@.len(),
                forall|m: int| 0 <= m < i ==> slots@[m].token == self.wanted@[m],
            decreases slots@.len() - i,
        {
            if slots[i].token != self.wanted[i] {
                return None;
            }
            i = i + 1;
        }
        Some(slots)
    }
}

} // verus!
