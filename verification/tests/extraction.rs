use has_component::FieldBinding;
use has_component::FieldDecl;
use has_component::HasComponent;
use has_component::RecordAdapter;
use has_component::Slot;
use has_component::TupleQuery;
use has_component::TypeToken;

const T_USIZE: TypeToken = TypeToken { id: 1 };
const T_F32: TypeToken = TypeToken { id: 2 };
const T_STRING: TypeToken = TypeToken { id: 3 };
const T_BOOL: TypeToken = TypeToken { id: 4 };
const T_U32: TypeToken = TypeToken { id: 5 };

fn positional(decls: &[(&str, TypeToken)]) -> RecordAdapter {
    let fields: Vec<FieldBinding> = decls
        .iter()
        .map(|(ty, token)| FieldBinding {
            decl: FieldDecl {
                name: None,
                ty_name: Some(ty.to_string()),
            },
            token: *token,
        })
        .collect();
    RecordAdapter::from_positional(&fields)
}

/// A record shaped like SampleBundle(usize, f32, String).
fn sample_bundle_adapter() -> RecordAdapter {
    positional(&[("usize", T_USIZE), ("f32", T_F32), ("String", T_STRING)])
}

#[allow(non_snake_case)]
#[test]
fn test_SampleBundle() {
    let sample = (123usize, 456.0f32, "Hallo".to_string());
    let mut adapter = sample_bundle_adapter();
    let query = TupleQuery::new(vec![T_USIZE, T_F32]);
    let mut_x = adapter.get_mut_components(&query);
    let slots = mut_x.expect("both wanted types are present");
    assert_eq!(slots.len(), 2);
    assert_eq!(slots[0], Slot { token: T_USIZE, field: 0 });
    assert_eq!(slots[1], Slot { token: T_F32, field: 1 });
    assert_eq!(sample.0, 123);
}

#[test]
fn single_lookup_finds_field_by_type() {
    let adapter = sample_bundle_adapter();
    let found = adapter.get_component(T_F32);
    assert_eq!(found, Some(Slot { token: T_F32, field: 1 }));
    let absent = adapter.get_component(T_BOOL);
    assert_eq!(absent, None);
}

#[test]
fn single_lookup_returns_first_declared_match() {
    let adapter = positional(&[("u32", T_U32), ("u32", T_U32)]);
    let found = adapter.get_component(T_U32);
    assert_eq!(found, Some(Slot { token: T_U32, field: 0 }));
}

#[test]
fn repeated_lookup_returns_same_field() {
    let adapter = sample_bundle_adapter();
    let first = adapter.get_component(T_STRING);
    let second = adapter.get_component(T_STRING);
    assert_eq!(first, second);
    assert_eq!(first, Some(Slot { token: T_STRING, field: 2 }));
}

#[test]
fn must_exist_accessors_return_the_slot() {
    let mut adapter = sample_bundle_adapter();
    let slot = adapter.component(T_USIZE);
    assert_eq!(slot, Slot { token: T_USIZE, field: 0 });
    let slot = adapter.mut_component(T_F32);
    assert_eq!(slot, Slot { token: T_F32, field: 1 });
}

#[test]
fn component_types_lists_fields_in_declaration_order() {
    let adapter = sample_bundle_adapter();
    assert_eq!(adapter.component_types(), vec![T_USIZE, T_F32, T_STRING]);
}

#[test]
fn tuple_result_follows_query_order() {
    let mut adapter = sample_bundle_adapter();
    let query = TupleQuery::new(vec![T_F32, T_USIZE]);

    let shared = adapter.get_components(&query).expect("present");
    assert_eq!(shared[0], Slot { token: T_F32, field: 1 });
    assert_eq!(shared[1], Slot { token: T_USIZE, field: 0 });

    let exclusive = adapter.get_mut_components(&query).expect("present");
    assert_eq!(exclusive[0], Slot { token: T_F32, field: 1 });
    assert_eq!(exclusive[1], Slot { token: T_USIZE, field: 0 });
}

#[test]
fn missing_type_fails_whole_query() {
    let mut adapter = sample_bundle_adapter();
    let query = TupleQuery::new(vec![T_F32, T_BOOL]);
    assert_eq!(adapter.get_components(&query), None);
    assert_eq!(adapter.get_mut_components(&query), None);
}

#[test]
fn duplicate_exclusive_request_takes_two_distinct_fields() {
    let mut adapter = positional(&[("u32", T_U32), ("u32", T_U32)]);
    let query = TupleQuery::new(vec![T_U32, T_U32]);
    let slots = adapter.get_mut_components(&query).expect("two fields carry the type");
    assert_eq!(slots.len(), 2);
    assert_ne!(slots[0].field, slots[1].field);
    assert_eq!(slots[0], Slot { token: T_U32, field: 0 });
    assert_eq!(slots[1], Slot { token: T_U32, field: 1 });
}

#[test]
fn duplicate_exclusive_request_fails_on_single_field() {
    let mut adapter = positional(&[("u32", T_U32), ("f32", T_F32)]);
    let query = TupleQuery::new(vec![T_U32, T_U32]);
    assert_eq!(adapter.get_mut_components(&query), None);
}

#[test]
fn duplicate_shared_request_reuses_the_same_field() {
    let adapter = positional(&[("u32", T_U32), ("f32", T_F32)]);
    let query = TupleQuery::new(vec![T_U32, T_U32]);
    let slots = adapter.get_components(&query).expect("shared access may reuse a field");
    assert_eq!(slots[0], Slot { token: T_U32, field: 0 });
    assert_eq!(slots[1], Slot { token: T_U32, field: 0 });
}

#[test]
fn empty_query_yields_empty_tuple() {
    let mut adapter = sample_bundle_adapter();
    let query = TupleQuery::new(vec![]);
    assert_eq!(adapter.get_components(&query), Some(vec![]));
    assert_eq!(adapter.get_mut_components(&query), Some(vec![]));
}

#[test]
fn reorder_permutes_into_target_order() {
    let a = Slot { token: T_USIZE, field: 0 };
    let b = Slot { token: T_F32, field: 1 };
    let c = Slot { token: T_STRING, field: 2 };
    let result = has_component::reorder_components(
        vec![Some(a), Some(b), Some(c)],
        &vec![T_STRING, T_USIZE],
    );
    assert_eq!(result, vec![c, a]);
}

#[test]
fn reorder_fails_empty_on_unmatched_target() {
    let a = Slot { token: T_USIZE, field: 0 };
    let result = has_component::reorder_components(vec![Some(a)], &vec![T_USIZE, T_BOOL]);
    assert_eq!(result, Vec::new());
}

#[test]
fn reorder_skips_consumed_slots() {
    let a = Slot { token: T_U32, field: 0 };
    let b = Slot { token: T_U32, field: 1 };
    let result =
        has_component::reorder_components(vec![None, Some(b)], &vec![T_U32]);
    assert_eq!(result, vec![b]);
    let result =
        has_component::reorder_components(vec![Some(a), Some(b)], &vec![T_U32, T_U32]);
    assert_eq!(result, vec![a, b]);
}

#[test]
fn try_build_checks_tokens_defensively() {
    let query = TupleQuery::new(vec![T_USIZE, T_F32]);
    let good = vec![
        Slot { token: T_USIZE, field: 0 },
        Slot { token: T_F32, field: 1 },
    ];
    assert_eq!(query.try_build_shared(good.clone()), Some(good.clone()));
    assert_eq!(query.try_build_exclusive(good.clone()), Some(good));

    let wrong_token = vec![
        Slot { token: T_F32, field: 1 },
        Slot { token: T_USIZE, field: 0 },
    ];
    assert_eq!(query.try_build_shared(wrong_token), None);
    let wrong_len = vec![Slot { token: T_USIZE, field: 0 }];
    assert_eq!(query.try_build_exclusive(wrong_len), None);
}

#[test]
fn wanted_type_order_reports_the_query() {
    let query = TupleQuery::new(vec![T_F32, T_USIZE]);
    assert_eq!(query.wanted_type_order(), &vec![T_F32, T_USIZE]);
}
