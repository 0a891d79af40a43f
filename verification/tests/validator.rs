//! Conformance and diagnostic edge cases: the optional-field rule, the
//! built-in number domains, reserved names, empty batches, duplicates and
//! cycle detection.

use production_system::validate::check_data;
use production_system::{
    check_cycle, contract_logic, count_options, find_duplicate, has_cycle,
    ChangeProductionSystem, DynamicType, Error, Events, Fields, JsonNumber, JsonValue,
    ProductionSystem, Properties, Schema,
};

fn s(x: &str) -> String {
    x.to_owned()
}

fn jstr(x: &str) -> JsonValue {
    JsonValue::Text(x.to_owned())
}

fn jobj(entries: Vec<(&str, JsonValue)>) -> JsonValue {
    JsonValue::Object(entries.into_iter().map(|(k, v)| (k.to_owned(), v)).collect())
}

fn ju(n: u64) -> JsonValue {
    JsonValue::Number(JsonNumber::PosInt(n))
}

fn empty_state(name: &str, version: u32) -> ProductionSystem {
    ProductionSystem {
        name: s(name),
        version,
        unit_process: vec![],
        custom_types: vec![],
        properties: vec![],
    }
}

fn user_schema() -> Schema {
    vec![(
        s("User"),
        Fields::Object(vec![
            (s("name"), DynamicType::String),
            (s("age"), DynamicType::Optional(Box::new(DynamicType::U64))),
        ]),
    )]
}

#[test]
fn optional_field_may_be_omitted() {
    let schema = user_schema();
    let value = jobj(vec![("name", jstr("Ana"))]);
    assert!(check_data(&s("User"), &value, &schema).is_ok());

    let value = jobj(vec![("name", jstr("Ana")), ("age", ju(30))]);
    assert!(check_data(&s("User"), &value, &schema).is_ok());

    let value = jobj(vec![("name", jstr("Ana")), ("age", JsonValue::Null)]);
    assert!(check_data(&s("User"), &value, &schema).is_ok());
}

#[test]
fn unknown_field_rejected() {
    let schema = user_schema();
    let value = jobj(vec![("name", jstr("Ana")), ("age", ju(30)), ("extra", ju(1))]);
    assert_eq!(check_data(&s("User"), &value, &schema), Err(Error::TypeMismatch));
}

#[test]
fn required_field_may_not_be_omitted() {
    let schema = user_schema();
    let value = jobj(vec![("age", ju(30))]);
    assert_eq!(check_data(&s("User"), &value, &schema), Err(Error::TypeMismatch));

    let value = jobj(vec![]);
    assert_eq!(check_data(&s("User"), &value, &schema), Err(Error::TypeMismatch));
}

#[test]
fn builtin_number_domains() {
    let schema: Schema = vec![];
    let max_i64 = i64::MAX as u64;

    assert!(check_data(&s("u64"), &ju(0), &schema).is_ok());
    assert_eq!(
        check_data(&s("u64"), &JsonValue::Number(JsonNumber::NegInt(-1)), &schema),
        Err(Error::TypeMismatch)
    );
    assert_eq!(
        check_data(&s("u64"), &JsonValue::Number(JsonNumber::Float(2.5f64.to_bits())), &schema),
        Err(Error::TypeMismatch)
    );

    assert!(check_data(&s("i64"), &ju(max_i64), &schema).is_ok());
    assert_eq!(check_data(&s("i64"), &ju(max_i64 + 1), &schema), Err(Error::TypeMismatch));
    assert!(check_data(&s("i64"), &JsonValue::Number(JsonNumber::NegInt(i64::MIN)), &schema)
        .is_ok());
    assert_eq!(
        check_data(&s("i64"), &JsonValue::Number(JsonNumber::Float(2.5f64.to_bits())), &schema),
        Err(Error::TypeMismatch)
    );

    assert!(check_data(&s("f64"), &ju(7), &schema).is_ok());
    assert!(check_data(
        &s("f64"),
        &JsonValue::Number(JsonNumber::Float(2.5f64.to_bits())),
        &schema
    )
        .is_ok());
    assert_eq!(check_data(&s("f64"), &jstr("2.5"), &schema), Err(Error::TypeMismatch));

    assert!(check_data(&s("bool"), &JsonValue::Bool(false), &schema).is_ok());
    assert!(check_data(&s("String"), &jstr("x"), &schema).is_ok());
    assert_eq!(check_data(&s("String"), &ju(1), &schema), Err(Error::TypeMismatch));
}

#[test]
fn unknown_and_empty_type_names() {
    let schema: Schema = vec![];
    assert_eq!(
        check_data(&s("Mystery"), &ju(1), &schema),
        Err(Error::UnknownName(s("Mystery")))
    );
    assert_eq!(check_data(&s(""), &ju(1), &schema), Err(Error::EmptyName));
}

#[test]
fn mutual_reference_cycle_rejected() {
    let init_state = empty_state("doc", 1);
    let event = Events::ChangeProductionSystem(ChangeProductionSystem::ModifyTypes {
        delete: None,
        add: Some(vec![
            (s("A"), Fields::Object(vec![(s("b"), DynamicType::Reference(s("B")))])),
            (s("B"), Fields::Object(vec![(s("a"), DynamicType::Reference(s("A")))])),
        ]),
    });
    let result = contract_logic(&init_state, &event, false);
    assert!(!result.success);
    match result.error {
        Some(Error::SchemaCycle(name)) => {
            assert!(name == "A" || name == "B");
        },
        other => panic!("expected a cycle diagnostic, got {:?}", other),
    }
    assert_eq!(result.state, init_state);
}

#[test]
fn self_reference_cycle_rejected() {
    let init_state = empty_state("doc", 1);
    let event = Events::ChangeProductionSystem(ChangeProductionSystem::ModifyTypes {
        delete: None,
        add: Some(vec![(
            s("Loop"),
            Fields::Object(vec![(s("next"), DynamicType::Reference(s("Loop")))]),
        )]),
    });
    let result = contract_logic(&init_state, &event, false);
    assert!(!result.success);
    assert!(matches!(result.error, Some(Error::SchemaCycle(_))));
}

#[test]
fn acyclic_forward_reference_accepted() {
    let init_state = empty_state("doc", 1);
    let event = Events::ChangeProductionSystem(ChangeProductionSystem::ModifyTypes {
        delete: None,
        add: Some(vec![
            (s("A"), Fields::Object(vec![(s("b"), DynamicType::Reference(s("B")))])),
            (s("B"), Fields::Basic(DynamicType::String)),
        ]),
    });
    let result = contract_logic(&init_state, &event, false);
    assert!(result.success);
    assert_eq!(result.state.custom_types.len(), 2);
}

#[test]
fn check_cycle_detects_and_clears() {
    let cyclic = vec![
        (s("x"), vec![s("y")]),
        (s("y"), vec![s("x")]),
    ];
    assert!(matches!(check_cycle(&cyclic), Err(Error::SchemaCycle(_))));

    let acyclic = vec![
        (s("x"), vec![s("y"), s("z")]),
        (s("y"), vec![s("z")]),
        (s("z"), vec![]),
    ];
    assert!(check_cycle(&acyclic).is_ok());

    let self_loop = vec![(s("x"), vec![s("x")])];
    assert!(matches!(check_cycle(&self_loop), Err(Error::SchemaCycle(_))));
}

#[test]
fn has_cycle_walks_the_graph() {
    let graph = vec![
        (s("a"), vec![s("b")]),
        (s("b"), vec![s("c")]),
        (s("c"), vec![s("a")]),
    ];
    let mut visited: Vec<String> = Vec::new();
    let mut stack: Vec<String> = Vec::new();
    assert!(has_cycle(&s("a"), &graph, &mut visited, &mut stack));

    let dag = vec![(s("a"), vec![s("b")]), (s("b"), vec![])];
    let mut visited: Vec<String> = Vec::new();
    let mut stack: Vec<String> = Vec::new();
    assert!(!has_cycle(&s("a"), &dag, &mut visited, &mut stack));
    assert!(visited.contains(&s("a")));
    assert!(visited.contains(&s("b")));
    assert!(stack.is_empty());
}

#[test]
fn count_options_counts_optionals() {
    let fields = vec![
        (s("a"), DynamicType::String),
        (s("b"), DynamicType::Optional(Box::new(DynamicType::U64))),
        (s("c"), DynamicType::Optional(Box::new(DynamicType::Bool))),
        (s("d"), DynamicType::U64),
    ];
    assert_eq!(count_options(&fields), (4, 2));
    assert_eq!(count_options(&vec![]), (0, 0));
}

#[test]
fn find_duplicate_finds_first_repeat() {
    assert_eq!(find_duplicate(&vec![s("a"), s("b"), s("c")]), None);
    assert_eq!(find_duplicate(&vec![s("a"), s("b"), s("a")]), Some(2));
    assert_eq!(find_duplicate(&vec![]), None);
}

#[test]
fn reserved_type_name_rejected() {
    let init_state = empty_state("doc", 1);
    for reserved in ["String", "bool", "i64", "f64", "u64", "Dummy", "Option", "Enum", "Type",
        "Vec"] {
        let event = Events::ChangeProductionSystem(ChangeProductionSystem::ModifyTypes {
            delete: None,
            add: Some(vec![(s(reserved), Fields::Basic(DynamicType::String))]),
        });
        let result = contract_logic(&init_state, &event, false);
        assert!(!result.success);
        assert_eq!(result.error, Some(Error::ReservedName(s(reserved))));
    }
}

#[test]
fn empty_batches_rejected() {
    let init_state = empty_state("doc", 1);

    let event = Events::ChangeProductionSystem(ChangeProductionSystem::ModifyTypes {
        delete: None,
        add: Some(vec![]),
    });
    let result = contract_logic(&init_state, &event, false);
    assert_eq!(result.error, Some(Error::EmptyBatch));

    let event = Events::ChangeProductionSystem(ChangeProductionSystem::ModifyTypes {
        delete: None,
        add: None,
    });
    let result = contract_logic(&init_state, &event, false);
    assert_eq!(result.error, Some(Error::EmptyBatch));

    let event = Events::RegisterData(vec![]);
    let result = contract_logic(&init_state, &event, false);
    assert_eq!(result.error, Some(Error::EmptyBatch));
}

#[test]
fn duplicate_property_names_rejected() {
    let init_state = empty_state("doc", 1);
    let event = Events::ChangeProductionSystem(ChangeProductionSystem::ModifyProductionSystem {
        name: None,
        delete_properties: None,
        modify_properties: None,
        add_properties: Some(vec![
            Properties { name: s("p"), typename: s("u64"), content: ju(1) },
            Properties { name: s("p"), typename: s("u64"), content: ju(2) },
        ]),
    });
    let result = contract_logic(&init_state, &event, false);
    assert!(!result.success);
    assert_eq!(result.error, Some(Error::DuplicateName(s("p"))));
    assert_eq!(result.state, init_state);
}

#[test]
fn init_with_empty_name_rejected() {
    let init_state = empty_state("", 0);
    let event = Events::ChangeProductionSystem(ChangeProductionSystem::Init {
        name: s(""),
        unit_process: None,
        types: None,
        properties: None,
    });
    let result = contract_logic(&init_state, &event, false);
    assert!(!result.success);
    assert_eq!(result.error, Some(Error::EmptyName));
}

#[test]
fn union_rejects_unknown_and_multi_key_values() {
    let schema: Schema = vec![(
        s("Choice"),
        Fields::Basic(DynamicType::Union(vec![
            (s("On"), DynamicType::Invalid),
            (s("Level"), DynamicType::U64),
        ])),
    )];

    assert!(check_data(&s("Choice"), &jstr("On"), &schema).is_ok());
    assert!(check_data(&s("Choice"), &jobj(vec![("Level", ju(3))]), &schema).is_ok());

    assert_eq!(check_data(&s("Choice"), &jstr("Off"), &schema), Err(Error::TypeMismatch));
    assert_eq!(check_data(&s("Choice"), &jstr("Level"), &schema), Err(Error::TypeMismatch));
    assert_eq!(
        check_data(
            &s("Choice"),
            &jobj(vec![("Level", ju(3)), ("On", JsonValue::Null)]),
            &schema
        ),
        Err(Error::TypeMismatch)
    );
    assert_eq!(check_data(&s("Choice"), &ju(3), &schema), Err(Error::TypeMismatch));
}

#[test]
fn type_deletion_is_unconditional() {
    let init_state = empty_state("doc", 1);
    let result = contract_logic(
        &init_state,
        &Events::ChangeProductionSystem(ChangeProductionSystem::ModifyTypes {
            delete: None,
            add: Some(vec![
                (s("A"), Fields::Object(vec![(s("b"), DynamicType::Reference(s("B")))])),
                (s("B"), Fields::Basic(DynamicType::String)),
            ]),
        }),
        false,
    );
    assert!(result.success);

    let result = contract_logic(
        &result.state,
        &Events::ChangeProductionSystem(ChangeProductionSystem::ModifyTypes {
            delete: Some(vec![s("B")]),
            add: None,
        }),
        false,
    );
    assert!(result.success);
    assert_eq!(result.state.custom_types.len(), 1);
    assert_eq!(result.state.custom_types[0].0, "A");

    let result = contract_logic(
        &result.state,
        &Events::ChangeProductionSystem(ChangeProductionSystem::ModifyTypes {
            delete: Some(vec![s("B")]),
            add: None,
        }),
        false,
    );
    assert!(!result.success);
    assert_eq!(result.error, Some(Error::NotFound(s("B"))));
}

#[test]
fn empty_object_type_rejected() {
    let init_state = empty_state("doc", 1);
    let event = Events::ChangeProductionSystem(ChangeProductionSystem::ModifyTypes {
        delete: None,
        add: Some(vec![(s("Empty"), Fields::Object(vec![]))]),
    });
    let result = contract_logic(&init_state, &event, false);
    assert!(!result.success);
    assert_eq!(result.error, Some(Error::TypeMismatch));
}

#[test]
fn duplicate_object_field_names_rejected() {
    let init_state = empty_state("doc", 1);
    let event = Events::ChangeProductionSystem(ChangeProductionSystem::ModifyTypes {
        delete: None,
        add: Some(vec![(
            s("Twice"),
            Fields::Object(vec![
                (s("f"), DynamicType::String),
                (s("f"), DynamicType::U64),
            ]),
        )]),
    });
    let result = contract_logic(&init_state, &event, false);
    assert!(!result.success);
    assert_eq!(result.error, Some(Error::DuplicateName(s("f"))));
}

#[test]
fn doc_wf_exec_accepts_engine_output() {
    let init_state = empty_state("doc", 1);
    assert!(production_system::doc_wf_exec(&init_state));

    let result = contract_logic(
        &init_state,
        &Events::ChangeProductionSystem(ChangeProductionSystem::ModifyTypes {
            delete: None,
            add: Some(vec![(s("T"), Fields::Basic(DynamicType::String))]),
        }),
        false,
    );
    assert!(result.success);
    assert!(production_system::doc_wf_exec(&result.state));

    let mut broken = empty_state("doc", 1);
    broken.custom_types.push((s("T"), Fields::Basic(DynamicType::String)));
    broken.custom_types.push((s("T"), Fields::Basic(DynamicType::Bool)));
    assert!(!production_system::doc_wf_exec(&broken));

    let mut broken2 = empty_state("doc", 1);
    broken2.custom_types.push((s("Bad"), Fields::Basic(DynamicType::Invalid)));
    assert!(!production_system::doc_wf_exec(&broken2));
}
