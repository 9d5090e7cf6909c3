//! Type-indexed access to the fields of a fixed-shape record.
//!
//! A record (a plain struct) can be queried as if it were a container
//! indexed by *type*: "give me the field whose type is `T`", or "give me
//! the ordered tuple of fields whose types are `(A, B)`".  The record
//! itself stays a statically typed aggregate; this crate supplies the
//! capability layer on top: type-tagged slots, a reordering engine that
//! permutes an unordered slot array into a caller-chosen type order, and
//! the adapter contract a record must expose to take part.

mod adapter;
mod descriptor;
mod naming;
mod reorder;
mod slot;

pub use adapter::all_slots_spec;
pub use adapter::arm_slots_spec;
pub use adapter::lemma_all_slots_distinct_fields;
pub use adapter::lemma_all_slots_token_count;
pub use adapter::lemma_lookup_characterised;
pub use adapter::lemma_lookup_idempotent;
pub use adapter::lemma_mut_extraction_never_aliases;
pub use adapter::lemma_mut_extraction_succeeds_iff;
pub use adapter::lemma_unarmed_field_not_found;
pub use adapter::lookup_spec;
pub use adapter::FieldBinding;
pub use adapter::HasComponent;
pub use adapter::RecordAdapter;
pub use descriptor::slots_match_order;
pub use descriptor::TupleQuery;
pub use naming::lemma_mismatched_name_has_no_arm;
pub use naming::named_arm;
pub use naming::named_arm_matches;
pub use naming::plan_adapter;
pub use naming::plan_arm;
pub use naming::plan_wf;
pub use naming::positional_arm;
pub use naming::snake_of;
pub use naming::AdapterPlan;
pub use naming::FieldDecl;
pub use naming::RecordFields;
pub use reorder::distinct_fields;
pub use reorder::first_match;
pub use reorder::lemma_missing_type_fails;
pub use reorder::lemma_reorder_distinct_fields;
pub use reorder::lemma_reorder_order_preserved;
pub use reorder::lemma_reorder_slots_from_input;
pub use reorder::lemma_reorder_succeeds_iff;
pub use reorder::lemma_token_count_zero;
pub use reorder::order_count;
pub use reorder::reorder_components;
pub use reorder::reorder_spec;
pub use reorder::slot_matches;
pub use reorder::token_count;
pub use slot::Slot;
pub use slot::TypeToken;
