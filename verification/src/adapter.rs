//! The record adapter contract and its model record.
//!
//! A record takes part in type-indexed lookup through the `HasComponent`
//! capability: single-type lookup over its armed fields, one slot per
//! field for tuple extraction, and the list of its field types.
//! `RecordAdapter` is the generated adapter's behaviour as a value: the
//! record's field type tokens in declaration order plus the arm mask the
//! naming convention produced.

use vstd::prelude::*;

use crate::descriptor::slots_match_order;
use crate::descriptor::TupleQuery;
use crate::naming::field_has_arm;
use crate::naming::plan_arm;
use crate::naming::FieldDecl;
use crate::reorder::first_match;
use crate::reorder::lemma_first_match_found;
use crate::reorder::lemma_first_match_props;
use crate::reorder::lemma_reorder_order_preserved;
use crate::reorder::reorder_components;
use crate::reorder::reorder_spec;
use crate::reorder::slot_matches;
use crate::slot::Slot;
use crate::slot::TypeToken;

verus! {

/// The slot each field contributes to tuple extraction: its type token
/// and its position, in declaration order.
pub open spec fn all_slots_spec(tokens: Seq<TypeToken>) -> Seq<Option<Slot>> {
    Seq::new(tokens.len(), |i: int| Some(Slot { token: tokens[i], field: i as usize }))
}

/// The slots single-type lookup scans: only armed fields take part.
pub open spec fn arm_slots_spec(tokens: Seq<TypeToken>, mask: Seq<bool>) -> Seq<Option<Slot>> {
    Seq::new(
        tokens.len(),
        |i: int|
            if mask[i] {
                Some(Slot { token: tokens[i], field: i as usize })
            } else {
                None
            },
    )
}

/// Single-type lookup: the first armed field, in declaration order, whose
/// token equals `t`; `None` when no armed field carries `t`.
pub open spec fn lookup_spec(tokens: Seq<TypeToken>, mask: Seq<bool>, t: TypeToken) -> Option<
    Slot,
> {
    match first_match(arm_slots_spec(tokens, mask), t) {
        None => None,
        Some(p) => arm_slots_spec(tokens, mask)[p],
    }
}

/// The capability a record exposes to be queried by type.
///
/// Lookups that find nothing return `None`, never a failure signal; the
/// `component`/`mut_component` accessors are the one escape hatch for
/// call sites that have established presence out of band.
pub trait HasComponent: Sized {
    /// Declared type token of each field, in declaration order.
    spec fn field_tokens(&self) -> Seq<TypeToken>;

    /// Which fields answer single-type lookup.
    spec fn arm_mask(&self) -> Seq<bool>;

    /// One mask bit per field.
    spec fn wf(&self) -> bool;

    /// Shared single-type lookup: the first armed field whose type is
    /// `t`, in declaration order, or `None` when the type is absent.
    fn get_component(&self, t: TypeToken) -> (r: Option<Slot>)
        requires
            self.wf(),
        ensures
            r == lookup_spec(self.field_tokens(), self.arm_mask(), t),
    ;

    /// Exclusive single-type lookup; same selection as `get_component`.
    fn get_mut_component(&mut self, t: TypeToken) -> (r: Option<Slot>)
        requires
            old(self).wf(),
        ensures
            *final(self) == *old(self),
            r == lookup_spec(old(self).field_tokens(), old(self).arm_mask(), t),
    ;

    /// The declared type of every field, in declaration order.
    fn component_types(&self) -> (r: Vec<TypeToken>)
        requires
            self.wf(),
        ensures
            r@ == self.field_tokens(),
    ;

    /// One slot per field, in declaration order; the input to the
    /// reordering engine.
    fn all_slots(&self) -> (r: Vec<Option<Slot>>)
        requires
            self.wf(),
        ensures
            r@ == all_slots_spec(self.field_tokens()),
    ;

    /// Shared lookup for a component the caller promises is present.
    /// Absence is a precondition violation here, not a recoverable case:
    /// recoverable call sites use `get_component` instead.
    fn component(&self, t: TypeToken) -> (r: Slot)
        requires
            self.wf(),
            lookup_spec(self.field_tokens(), self.arm_mask(), t) is Some,
        ensures
            Some(r) == lookup_spec(self.field_tokens(), self.arm_mask(), t),
    ;

    /// Exclusive lookup for a component the caller promises is present.
    fn mut_component(&mut self, t: TypeToken) -> (r: Slot)
        requires
            old(self).wf(),
            lookup_spec(old(self).field_tokens(), old(self).arm_mask(), t) is Some,
        ensures
            *final(self) == *old(self),
            Some(r) == lookup_spec(old(self).field_tokens(), old(self).arm_mask(), t),
    ;

    /// Shared multi-component extraction: one lookup per wanted type, in
    /// the query's order.  Succeeds exactly when every wanted type is
    /// present; a type wanted twice is served by the same field twice,
    /// which shared access permits.  Never a partial tuple.
    fn get_components(&self, query: &TupleQuery) -> (r: Option<Vec<Slot>>)
        requires
            self.wf(),
        ensures
            match r {
                Some(slots) => slots@.len() == query.wanted@.len() && (forall|j: int|
                    0 <= j < query.wanted@.len() ==> Some(slots@[j]) == lookup_spec(
                        self.field_tokens(),
                        self.arm_mask(),
                        query.wanted@[j],
                    )),
                None => exists|j: int|
                    0 <= j < query.wanted@.len() && lookup_spec(
                        self.field_tokens(),
                        self.arm_mask(),
                        query.wanted@[j],
                    ) is None,
            },
    ;

    /// Exclusive multi-component extraction: all slots are handed to the
    /// reordering engine against the query's wanted order, so a type
    /// wanted twice claims two distinct fields or the whole query fails.
    /// Never a partial tuple.
    fn get_mut_components(&mut self, query: &TupleQuery) -> (r: Option<Vec<Slot>>)
        requires
            old(self).wf(),
        ensures
            *final(self) == *old(self),
            match r {
                Some(slots) => reorder_spec(
                    all_slots_spec(old(self).field_tokens()),
                    query.wanted@,
                ) == Some(slots@),
                None => reorder_spec(
                    all_slots_spec(old(self).field_tokens()),
                    query.wanted@,
                ) is None,
            },
    ;
}

/// A field declaration paired with the runtime token of its type.
pub struct FieldBinding {
    /// The field as declared.
    pub decl: FieldDecl,
    /// Runtime token of the field's declared type.
    pub token: TypeToken,
}

/// A generated record adapter as a value: field type tokens in
/// declaration order, and the arm mask the naming convention produced.
pub struct RecordAdapter {
    tokens: Vec<TypeToken>,
    arms: Vec<bool>,
}

impl RecordAdapter {
    /// Adapter for a record with named fields: a field is armed exactly
    /// when its name equals the snake-cased simple name of its type.
    pub fn from_named(fields: &Vec<FieldBinding>) -> (r: RecordAdapter)
        ensures
            r.wf(),
            r.field_tokens().len() == fields@.len(),
            forall|i: int|
                0 <= i < fields@.len() ==> r.field_tokens()[i] == fields@[i].token,
            forall|i: int|
                0 <= i < fields@.len() ==> r.arm_mask()[i] == plan_arm(fields@[i].decl, true),
    {
        Self::from_fields(fields, true)
    }

    /// Adapter for a record with positional fields: every field whose
    /// type has a simple name is armed.
    pub fn from_positional(fields: &Vec<FieldBinding>) -> (r: RecordAdapter)
        ensures
            r.wf(),
            r.field_tokens().len() == fields@.len(),
            forall|i: int|
                0 <= i < fields@.len() ==> r.field_tokens()[i] == fields@[i].token,
            forall|i: int|
                0 <= i < fields@.len() ==> r.arm_mask()[i] == plan_arm(fields@[i].decl, false),
    {
        Self::from_fields(fields, false)
    }

    fn from_fields(fields: &Vec<FieldBinding>, named: bool) -> (r: RecordAdapter)
        ensures
            r.wf(),
            r.field_tokens().len() == fields@.len(),
            forall|i: int|
                0 <= i < fields@.len() ==> r.field_tokens()[i] == fields@[i].token,
            forall|i: int|
                0 <= i < fields@.len() ==> r.arm_mask()[i] == plan_arm(fields@[i].decl, named),
    {
        let mut tokens: Vec<TypeToken> = Vec::new();
        let mut arms: Vec<bool> = Vec::new();
        let mut i: usize = 0;
        while i < fields.len()
            invariant
                0 <= i <= fields@.len(),
                tokens@.len() == i,
                arms@.len() == i,
                forall|m: int| 0 <= m < i ==> tokens@[m] == fields@[m].token,
                forall|m: int| 0 <= m < i ==> arms@[m] == plan_arm(fields@[m].decl, named),
            decreases fields@.len() - i,
        {
            tokens.push(fields[i].token);
            arms.push(field_has_arm(&fields[i].decl, named));
            i = i + 1;
        }
        RecordAdapter { tokens, arms }
    }
}

impl HasComponent for RecordAdapter {
    closed spec fn field_tokens(&self) -> Seq<TypeToken> {
        self.tokens@
    }

    closed spec fn arm_mask(&self) -> Seq<bool> {
        self.arms@
    }

    closed spec fn wf(&self) -> bool {
        self.arms@.len() == self.tokens@.len()
    }

    fn get_component(&self, t: TypeToken) -> (r: Option<Slot>) {
        let ghost aslots = arm_slots_spec(self.tokens@, self.arms@);
        let mut i: usize = 0;
        while i < self.tokens.len()
            invariant
                self.arms@.len() == self.tokens@.len(),
                0 <= i <= self.tokens@.len(),
                forall|m: int|
                    0 <= m < i ==> !slot_matches(
                        arm_slots_spec(self.tokens@, self.arms@)[m],
                        t,
                    ),
            decreases self.tokens@.len() - i,
        {
            if self.arms[i] && self.tokens[i] == t {
                proof {
                    lemma_first_match_found(arm_slots_spec(self.tokens@, self.arms@), t, i as int);
                }
                return Some(Slot { token: t, field: i });
            }
            i = i + 1;
        }
        proof {
            lemma_first_match_props(arm_slots_spec(self.tokens@, self.arms@), t);
        }
        None
    }

    fn get_mut_component(&mut self, t: TypeToken) -> (r: Option<Slot>) {
        self.get_component(t)
    }

    fn component_types(&self) -> (r: Vec<TypeToken>) {
        let mut out: Vec<TypeToken> = Vec::new();
        let mut i: usize = 0;
        while i < self.tokens.len()
            invariant
                0 <= i <= self.tokens@.len(),
                out@.len() == i,
                forall|m: int| 0 <= m < i ==> out@[m] == self.tokens@[m],
            decreases self.tokens@.len() - i,
        {
            out.push(self.tokens[i]);
            i = i + 1;
        }
        proof {
            assert(out@ =~= self.tokens@);
        }
        out
    }

    fn all_slots(&self) -> (r: Vec<Option<Slot>>) {
        let mut out: Vec<Option<Slot>> = Vec::new();
        let mut i: usize = 0;
        while i < self.tokens.len()
            invariant
                0 <= i <= self.tokens@.len(),
                out@.len() == i,
                forall|m: int| 0 <= m < i ==> out@[m] == all_slots_spec(self.tokens@)[m],
            decreases self.tokens@.len() - i,
        {
            out.push(Some(Slot { token: self.tokens[i], field: i }));
            i = i + 1;
        }
        proof {
            assert(out@ =~= all_slots_spec(self.tokens@));
        }
        out
    }

    fn component(&self, t: TypeToken) -> (r: Slot) {
        match self.get_component(t) {
            Some(s) => s,
            None => vstd::pervasive::unreached(),
        }
    }

    fn mut_component(&mut self, t: TypeToken) -> (r: Slot) {
        match self.get_component(t) {
            Some(s) => s,
            None => vstd::pervasive::unreached(),
        }
    }

    fn get_components(&self, query: &TupleQuery) -> (r: Option<Vec<Slot>>) {
        let mut out: Vec<Slot> = Vec::new();
        let mut j: usize = 0;
        while j < query.wanted.len()
            invariant
                self.wf(),
                0 <= j <= query.wanted@.len(),
                out@.len() == j,
                forall|m: int|
                    0 <= m < j ==> Some(out@[m]) == lookup_spec(
                        self.field_tokens(),
                        self.arm_mask(),
                        query.wanted@[m],
                    ),
            decreases query.wanted@.len() - j,
        {
            match self.get_component(query.wanted[j]) {
                Some(s) => {
                    out.push(s);
                },
                None => {
                    return None;
                },
            }
            j = j + 1;
        }
        Some(out)
    }

    fn get_mut_components(&mut self, query: &TupleQuery) -> (r: Option<Vec<Slot>>) {
        let all = self.all_slots();
        let ordered = reorder_components(all, query.wanted_type_order());
        let ghost spec_result = reorder_spec(all_slots_spec(self.field_tokens()), query.wanted@);
        if ordered.len() == query.wanted.len() {
            proof {
                if spec_result is None {
                    assert(ordered@.len() == 0);
                    assert(query.wanted@.len() == 0);
                    assert(reorder_spec(
                        all_slots_spec(self.field_tokens()),
                        query.wanted@,
                    ) is Some);
                }
                lemma_reorder_order_preserved(all_slots_spec(self.field_tokens()), query.wanted@);
                assert(slots_match_order(ordered@, query.wanted@));
            }
            let built = query.try_build_exclusive(ordered);
            proof {
                assert(built matches Some(out) ==> out@ == spec_result->0);
            }
            built
        } else {
            proof {
                if spec_result is Some {
                    lemma_reorder_order_preserved(
                        all_slots_spec(self.field_tokens()),
                        query.wanted@,
                    );
                }
            }
            None
        }
    }
}

/// The slot array a record hands out references pairwise distinct
/// fields: each field contributes exactly one slot.  This is what lets
/// `lemma_reorder_distinct_fields` apply to every exclusive extraction.
pub proof fn lemma_all_slots_distinct_fields(tokens: Seq<TypeToken>)
    requires
        tokens.len() <= usize::MAX,
    ensures
        crate::reorder::distinct_fields(all_slots_spec(tokens)),
{
    assert forall|i: int, j: int|
        0 <= i < j < all_slots_spec(tokens).len() && all_slots_spec(tokens)[i] is Some
            && all_slots_spec(tokens)[j] is Some implies all_slots_spec(tokens)[i]->0.field
        != all_slots_spec(tokens)[j]->0.field by {
        assert(all_slots_spec(tokens)[i]->0.field == i as usize);
        assert(all_slots_spec(tokens)[j]->0.field == j as usize);
    }
}

/// A record's slot array carries exactly the record's field tokens:
/// token `t` appears among the slots as often as among the fields.
pub proof fn lemma_all_slots_token_count(tokens: Seq<TypeToken>, t: TypeToken)
    ensures
        crate::reorder::token_count(all_slots_spec(tokens), t) == crate::reorder::order_count(
            tokens,
            t,
        ),
    decreases tokens.len(),
{
    if tokens.len() == 0 {
    } else {
        lemma_all_slots_token_count(tokens.skip(1), t);
        lemma_token_count_same_tokens(
            all_slots_spec(tokens).skip(1),
            all_slots_spec(tokens.skip(1)),
            t,
        );
    }
}

proof fn lemma_token_count_same_tokens(
    a: Seq<Option<Slot>>,
    b: Seq<Option<Slot>>,
    t: TypeToken,
)
    requires
        a.len() == b.len(),
        forall|i: int| 0 <= i < a.len() ==> slot_matches(a[i], t) == slot_matches(b[i], t),
    ensures
        crate::reorder::token_count(a, t) == crate::reorder::token_count(b, t),
    decreases a.len(),
{
    if a.len() == 0 {
    } else {
        assert forall|i: int|
            0 <= i < a.skip(1).len() implies slot_matches(a.skip(1)[i], t) == slot_matches(
            b.skip(1)[i],
            t,
        ) by {
            assert(a.skip(1)[i] == a[i + 1]);
            assert(b.skip(1)[i] == b[i + 1]);
        }
        lemma_token_count_same_tokens(a.skip(1), b.skip(1), t);
    }
}

/// Law: an exclusive multi-component extraction succeeds exactly when no
/// wanted type is requested more often than the record's fields carry it.
/// A wanted type absent from the record fails the whole query, and a type
/// wanted twice needs two fields of that type.
pub proof fn lemma_mut_extraction_succeeds_iff(tokens: Seq<TypeToken>, wanted: Seq<TypeToken>)
    ensures
        reorder_spec(all_slots_spec(tokens), wanted) is Some <==> (forall|t: TypeToken|
            crate::reorder::order_count(wanted, t) <= crate::reorder::order_count(tokens, t)),
{
    crate::reorder::lemma_reorder_succeeds_iff(all_slots_spec(tokens), wanted);
    assert forall|t: TypeToken|
        crate::reorder::token_count(all_slots_spec(tokens), t) == crate::reorder::order_count(
        tokens,
        t,
    ) by {
        lemma_all_slots_token_count(tokens, t);
    }
}

/// Law: the slots of a successful exclusive extraction reference pairwise
/// distinct fields: a type wanted twice is served by two distinct fields,
/// never by one field aliased twice.
pub proof fn lemma_mut_extraction_never_aliases(tokens: Seq<TypeToken>, wanted: Seq<TypeToken>)
    requires
        tokens.len() <= usize::MAX,
        reorder_spec(all_slots_spec(tokens), wanted) is Some,
    ensures
        forall|i: int, j: int|
            0 <= i < j < reorder_spec(all_slots_spec(tokens), wanted)->0.len() ==> reorder_spec(
                all_slots_spec(tokens),
                wanted,
            )->0[i].field != reorder_spec(all_slots_spec(tokens), wanted)->0[j].field,
{
    lemma_all_slots_distinct_fields(tokens);
    crate::reorder::lemma_reorder_distinct_fields(all_slots_spec(tokens), wanted);
}

/// Law: a field with its arm off is never what single lookup returns,
/// whatever token is asked for.  Combined with the arm mask a named
/// record is built with, a field whose name does not follow the naming
/// convention is unreachable through get-by-type.
pub proof fn lemma_unarmed_field_not_found(
    tokens: Seq<TypeToken>,
    mask: Seq<bool>,
    t: TypeToken,
    i: int,
)
    requires
        mask.len() == tokens.len(),
        tokens.len() <= usize::MAX,
        0 <= i < tokens.len(),
        !mask[i],
    ensures
        lookup_spec(tokens, mask, t) matches Some(s) ==> s.field != i,
{
    lemma_first_match_props(arm_slots_spec(tokens, mask), t);
    if first_match(arm_slots_spec(tokens, mask), t) is Some {
        let p = first_match(arm_slots_spec(tokens, mask), t)->0;
        assert(arm_slots_spec(tokens, mask)[p] is Some);
        assert(mask[p]);
        assert(arm_slots_spec(tokens, mask)[p]->0.field == p as usize);
        assert(p != i);
    }
}

/// Law: what single lookup returns, spelled out.  On success the slot is
/// the *first-declared* armed field carrying the requested token: a
/// later-declared field of the same type is never selected.  Lookup
/// fails exactly when no armed field carries the token.
pub proof fn lemma_lookup_characterised(tokens: Seq<TypeToken>, mask: Seq<bool>, t: TypeToken)
    requires
        mask.len() == tokens.len(),
        tokens.len() <= usize::MAX,
    ensures
        match lookup_spec(tokens, mask, t) {
            Some(s) => {
                &&& s.token == t
                &&& 0 <= s.field < tokens.len()
                &&& mask[s.field as int]
                &&& tokens[s.field as int] == t
                &&& forall|m: int| 0 <= m < s.field ==> (mask[m] ==> tokens[m] != t)
            },
            None => forall|m: int| 0 <= m < tokens.len() ==> (mask[m] ==> tokens[m] != t),
        },
{
    let aslots = arm_slots_spec(tokens, mask);
    lemma_first_match_props(aslots, t);
    match first_match(aslots, t) {
        None => {
            assert forall|m: int| 0 <= m < tokens.len() && mask[m] implies tokens[m] != t by {
                assert(!slot_matches(aslots[m], t));
            }
        },
        Some(p) => {
            assert(aslots[p] is Some);
            assert(mask[p]);
            let s = aslots[p]->0;
            assert(s.field == p as usize);
            assert forall|m: int| 0 <= m < s.field && mask[m] implies tokens[m] != t by {
                assert(!slot_matches(aslots[m], t));
            }
        },
    }
}

/// Law: single lookup is idempotent.  Its result is a function of the
/// record's shape and the requested token alone, so repeated calls on an
/// unmodified record return the same slot (the same underlying field)
/// every time.
pub proof fn lemma_lookup_idempotent(
    r1: Option<Slot>,
    r2: Option<Slot>,
    tokens: Seq<TypeToken>,
    mask: Seq<bool>,
    t: TypeToken,
)
    requires
        r1 == lookup_spec(tokens, mask, t),
        r2 == lookup_spec(tokens, mask, t),
    ensures
        r1 == r2,
{
}

} // verus!
