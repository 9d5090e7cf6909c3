use has_component::named_arm_matches;
use has_component::plan_adapter;
use has_component::FieldBinding;
use has_component::FieldDecl;
use has_component::HasComponent;
use has_component::RecordAdapter;
use has_component::RecordFields;
use has_component::Slot;
use has_component::TypeToken;

const T_TRANSFORM: TypeToken = TypeToken { id: 10 };
const T_VELOCITY: TypeToken = TypeToken { id: 11 };

fn named_field(name: &str, ty: &str) -> FieldDecl {
    FieldDecl {
        name: Some(name.to_string()),
        ty_name: Some(ty.to_string()),
    }
}

#[test]
fn naming_convention_snake_cases_the_type_name() {
    assert!(named_arm_matches(&"transform".to_string(), &"Transform".to_string()));
    assert!(named_arm_matches(&"attack_damage".to_string(), &"AttackDamage".to_string()));
    assert!(!named_arm_matches(&"Transform".to_string(), &"Transform".to_string()));
    assert!(!named_arm_matches(&"position".to_string(), &"Transform".to_string()));
}

#[test]
fn named_plan_keeps_only_convention_fields() {
    let fields = vec![
        named_field("transform", "Transform"),
        named_field("position", "Transform"),
        named_field("velocity", "Velocity"),
    ];
    let plan = plan_adapter(&RecordFields::Named(fields));
    assert_eq!(plan.arm_fields, vec![0, 2]);
    assert_eq!(plan.field_count, 3);
}

#[test]
fn named_plan_skips_fields_without_a_simple_type_name() {
    let fields = vec![
        named_field("transform", "Transform"),
        FieldDecl { name: Some("other".to_string()), ty_name: None },
    ];
    let plan = plan_adapter(&RecordFields::Named(fields));
    assert_eq!(plan.arm_fields, vec![0]);
    assert_eq!(plan.field_count, 2);
}

#[test]
fn unnamed_plan_arms_every_path_typed_field() {
    let fields = vec![
        FieldDecl { name: None, ty_name: Some("usize".to_string()) },
        FieldDecl { name: None, ty_name: None },
        FieldDecl { name: None, ty_name: Some("String".to_string()) },
    ];
    let plan = plan_adapter(&RecordFields::Unnamed(fields));
    assert_eq!(plan.arm_fields, vec![0, 2]);
    assert_eq!(plan.field_count, 3);
}

#[test]
fn mismatched_named_field_is_unreachable_by_type() {
    // Both fields have the same type, but only the first follows the
    // naming convention; the second is excluded from the lookup arms.
    let fields = vec![
        FieldBinding {
            decl: named_field("transform", "Transform"),
            token: T_TRANSFORM,
        },
        FieldBinding {
            decl: named_field("spawn_point", "Transform"),
            token: T_TRANSFORM,
        },
    ];
    let adapter = RecordAdapter::from_named(&fields);
    let found = adapter.get_component(T_TRANSFORM);
    assert_eq!(found, Some(Slot { token: T_TRANSFORM, field: 0 }));
}

#[test]
fn record_of_only_mismatched_names_answers_nothing() {
    let fields = vec![FieldBinding {
        decl: named_field("position", "Transform"),
        token: T_TRANSFORM,
    }];
    let adapter = RecordAdapter::from_named(&fields);
    assert_eq!(adapter.get_component(T_TRANSFORM), None);
    // Tuple extraction still hands the field out: arms only gate single
    // lookup, not the slot array.
    let mut adapter = adapter;
    let query = has_component::TupleQuery::new(vec![T_TRANSFORM]);
    let slots = adapter.get_mut_components(&query).expect("the field is still extractable");
    assert_eq!(slots, vec![Slot { token: T_TRANSFORM, field: 0 }]);
}

#[test]
fn named_adapter_lists_all_field_types() {
    let fields = vec![
        FieldBinding {
            decl: named_field("transform", "Transform"),
            token: T_TRANSFORM,
        },
        FieldBinding {
            decl: named_field("oddly_named", "Velocity"),
            token: T_VELOCITY,
        },
    ];
    let adapter = RecordAdapter::from_named(&fields);
    assert_eq!(adapter.component_types(), vec![T_TRANSFORM, T_VELOCITY]);
}
