//! Adapter generation decisions.
//!
//! A record takes part in type-indexed lookup through a generated
//! adapter.  For a record with named fields, a field answers single-type
//! lookup only when its name equals the snake-cased form of its type's
//! simple name; positional fields always answer.  This module holds those
//! decisions; turning them into source text is left to the generator.

use vstd::prelude::*;

verus! {

/// What `stringcase::snake_case` returns for a given character sequence.
/// The conversion depends on the input characters alone.
pub uninterp spec fn snake_of(s: Seq<char>) -> Seq<char>;

/// Relies on `stringcase::snake_case`: converts a string to snake case;
/// the result is a function of the input characters alone.
#[verifier::external_body]
fn to_snake(s: &str) -> (r: String)
    ensures
        r@ == snake_of(s@),
{
    stringcase::snake_case(s)
}

/// Whether a field named `field_name`, of a type whose simple name is
/// `ty_name`, follows the naming convention: the field's name equals
/// the snake-cased form of the type's name.
pub fn named_arm_matches(field_name: &String, ty_name: &String) -> (r: bool)
    ensures
        r == (field_name@ == snake_of(ty_name@)),
{
    let snake = to_snake(ty_name.as_str());
    *field_name == snake
}

/// One field of a record declaration, as the adapter generator sees it.
pub struct FieldDecl {
    /// The field's declared name; `None` for a positional field.
    pub name: Option<String>,
    /// Simple (last-segment) name of the field's declared type; `None`
    /// when the type is not a plain path, which keeps the field out of
    /// the lookup arms.
    pub ty_name: Option<String>,
}

/// The fields of a record declaration.
pub enum RecordFields {
    /// A struct with named fields.
    Named(Vec<FieldDecl>),
    /// A tuple struct.
    Unnamed(Vec<FieldDecl>),
    /// A unit struct; no adapter can be generated for it.
    Unit,
}

/// Whether a named field gets a single-lookup arm: it must have a name,
/// its type must have a simple name, and the two must agree under the
/// naming convention.
pub open spec fn named_arm(f: FieldDecl) -> bool {
    &&& f.name is Some
    &&& f.ty_name is Some
    &&& f.name->0@ == snake_of(f.ty_name->0@)
}

/// Whether a positional field gets a single-lookup arm: its type need
/// only have a simple name.
pub open spec fn positional_arm(f: FieldDecl) -> bool {
    f.ty_name is Some
}

/// Whether a field gets a lookup arm, by record flavour.
pub open spec fn plan_arm(f: FieldDecl, named: bool) -> bool {
    if named {
        named_arm(f)
    } else {
        positional_arm(f)
    }
}

/// Decide whether one field gets a lookup arm.
pub fn field_has_arm(f: &FieldDecl, named: bool) -> (r: bool)
    ensures
        r == plan_arm(*f, named),
{
    if named {
        match (&f.name, &f.ty_name) {
            (Some(n), Some(t)) => named_arm_matches(n, t),
            _ => false,
        }
    } else {
        f.ty_name.is_some()
    }
}

/// What the generated adapter for one record holds: which fields answer
/// single-type lookup, and how many fields tuple extraction hands out.
pub struct AdapterPlan {
    /// Indices of the fields with a lookup arm, in declaration order.
    pub arm_fields: Vec<usize>,
    /// Every field contributes one slot to tuple extraction.
    pub field_count: usize,
}

/// The plan lists exactly the fields that get an arm, in declaration
/// order, and extracts every field.
pub open spec fn plan_wf(plan: AdapterPlan, fields: Seq<FieldDecl>, named: bool) -> bool {
    &&& plan.field_count == fields.len()
    &&& forall|k: int, l: int|
        0 <= k < l < plan.arm_fields@.len() ==> plan.arm_fields@[k] < plan.arm_fields@[l]
    &&& forall|k: int|
        0 <= k < plan.arm_fields@.len() ==> plan.arm_fields@[k] < fields.len() && plan_arm(
            fields[plan.arm_fields@[k] as int],
            named,
        )
    &&& forall|i: int|
        0 <= i < fields.len() && plan_arm(fields[i], named) ==> plan.arm_fields@.contains(
            i as usize,
        )
}

/// Compute the adapter plan for a record declaration.  Mirrors what the
/// generator decides: named fields answer lookup only under the naming
/// convention, positional fields always; a unit record gets no adapter,
/// so callers must rule it out beforehand.
pub fn plan_adapter(kind: &RecordFields) -> (r: AdapterPlan)
    requires
        !(kind is Unit),
    ensures
        kind matches RecordFields::Named(fields) ==> plan_wf(r, fields@, true),
        kind matches RecordFields::Unnamed(fields) ==> plan_wf(r, fields@, false),
{
    match kind {
        RecordFields::Named(fields) => plan_fields(fields, true),
        RecordFields::Unnamed(fields) => plan_fields(fields, false),
        RecordFields::Unit => vstd::pervasive::unreached(),
    }
}

fn plan_fields(fields: &Vec<FieldDecl>, named: bool) -> (r: AdapterPlan)
    ensures
        plan_wf(r, fields@, named),
{
    let mut arm_fields: Vec<usize> = Vec::new();
    let mut i: usize = 0;
    while i < fields.len()
        invariant
            0 <= i <= fields@.len(),
            forall|k: int, l: int|
                0 <= k < l < arm_fields@.len() ==> arm_fields@[k] < arm_fields@[l],
            forall|k: int|
                0 <= k < arm_fields@.len() ==> arm_fields@[k] < i && plan_arm(
                    fields@[arm_fields@[k] as int],
                    named,
                ),
            forall|m: int|
                0 <= m < i && plan_arm(fields@[m], named) ==> arm_fields@.contains(m as usize),
        decreases fields@.len() - i,
    {
        let ghost prev = arm_fields@;
        if field_has_arm(&fields[i], named) {
            arm_fields.push(i);
        }
        proof {
            assert forall|m: int|
                0 <= m < i + 1 && plan_arm(fields@[m], named) implies arm_fields@.contains(
                m as usize,
            ) by {
                if m < i {
                    let idx = choose|idx: int|
                        0 <= idx < prev.len() && prev[idx] == m as usize;
                    assert(arm_fields@[idx] == m as usize);
                } else {
                    assert(arm_fields@[arm_fields@.len() - 1] == m as usize);
                }
            }
        }
        i = i + 1;
    }
    AdapterPlan { arm_fields, field_count: fields.len() }
}

/// Law: a named field whose name does not match the snake-cased simple
/// name of its declared type is excluded from the lookup arms, even
/// though tuple extraction still hands the field out.
pub proof fn lemma_mismatched_name_has_no_arm(
    plan: AdapterPlan,
    fields: Seq<FieldDecl>,
    i: int,
)
    requires
        plan_wf(plan, fields, true),
        fields.len() <= usize::MAX,
        0 <= i < fields.len(),
        fields[i].ty_name matches Some(ty) ==> (fields[i].name matches Some(n) ==> n@
            != snake_of(ty@)),
    ensures
        !plan.arm_fields@.contains(i as usize),
{
    if plan.arm_fields@.contains(i as usize) {
        let k = choose|k: int|
            0 <= k < plan.arm_fields@.len() && plan.arm_fields@[k] == i as usize;
        assert(plan_arm(fields[i], true));
    }
}

} // verus!
