//! Document-lifecycle scenarios: initialization, renames, property and
//! unit-process edits, event ordering, versioning and atomicity.

use production_system::{
    contract_logic, ChangeProductionSystem, Data, DynamicType, Events, Fields, JsonNumber,
    JsonValue, ProductionSystem, Properties, RegisterData, UnitData, UnitProcess,
};

fn s(x: &str) -> String {
    x.to_owned()
}

fn jstr(x: &str) -> JsonValue {
    JsonValue::Text(x.to_owned())
}

fn jobj(entries: Vec<(&str, JsonValue)>) -> JsonValue {
    JsonValue::Object(entries.into_iter().map(|(k, v)| (k.to_owned(), v)).collect())
}

fn ju(n: u64) -> JsonValue {
    JsonValue::Number(JsonNumber::PosInt(n))
}

fn empty_state(name: &str, version: u32) -> ProductionSystem {
    ProductionSystem {
        name: s(name),
        version,
        unit_process: vec![],
        custom_types: vec![],
        properties: vec![],
    }
}

fn data(name: &str, typename: &str, content: JsonValue) -> Data {
    Data { name: s(name), typename: s(typename), content, targets: None, metadata: None }
}

#[test]
fn change_operation_name() {
    let init_state = empty_state("wine process", 1);

    let event = Events::ChangeProductionSystem(ChangeProductionSystem::ModifyProductionSystem {
        name: Some(s("wine process 2")),
        delete_properties: None,
        modify_properties: None,
        add_properties: None,
    });
    let result = contract_logic(&init_state, &event, false);

    assert_eq!(result.state.version, 2);
    assert_eq!(result.state.name, "wine process 2");
    assert!(result.success);
}

#[test]
fn test_change_operation_init() {
    let init_state = empty_state("", 0);

    let event = Events::ChangeProductionSystem(ChangeProductionSystem::Init {
        name: s("wine process"),
        unit_process: Some(vec![UnitProcess {
            name: s("Unit example"),
            outputs: vec![data(
                "Example Object",
                "UserObject",
                jobj(vec![("name", jstr("ExampleName"))]),
            )],
            inputs: vec![data("Example Basic", "UserBasic", jstr("ExampleBasic"))],
            properties: vec![Properties {
                name: s("Example String"),
                typename: s("String"),
                content: jstr("ExampleString"),
            }],
        }]),
        properties: Some(vec![Properties {
            name: s("Example Object"),
            typename: s("UserObject"),
            content: jobj(vec![("name", jstr("ExampleName"))]),
        }]),
        types: Some(vec![
            (s("UserObject"), Fields::Object(vec![(s("name"), DynamicType::String)])),
            (s("UserBasic"), Fields::Basic(DynamicType::String)),
        ]),
    });
    let result = contract_logic(&init_state, &event, false);

    assert_eq!(result.state.name, "wine process");
    assert_eq!(result.state.version, 1);
    assert_eq!(result.state.properties.len(), 1);
    assert_eq!(
        result.state.properties[0],
        Properties {
            name: s("Example Object"),
            typename: s("UserObject"),
            content: jobj(vec![("name", jstr("ExampleName"))]),
        }
    );
    assert_eq!(result.state.unit_process.len(), 1);
    assert_eq!(
        result.state.unit_process[0],
        UnitProcess {
            name: s("Unit example"),
            outputs: vec![data(
                "Example Object",
                "UserObject",
                jobj(vec![("name", jstr("ExampleName"))]),
            )],
            inputs: vec![data("Example Basic", "UserBasic", jstr("ExampleBasic"))],
            properties: vec![Properties {
                name: s("Example String"),
                typename: s("String"),
                content: jstr("ExampleString"),
            }],
        }
    );
    assert_eq!(
        production_system::schema_get(&result.state.custom_types, &s("UserObject")).unwrap(),
        &Fields::Object(vec![(s("name"), DynamicType::String)])
    );
    assert_eq!(
        production_system::schema_get(&result.state.custom_types, &s("UserBasic")).unwrap(),
        &Fields::Basic(DynamicType::String)
    );
    assert!(result.success);
}

#[test]
fn test_add_change_delete() {
    let init_state = empty_state("example", 1);

    let event = Events::ChangeProductionSystem(ChangeProductionSystem::ModifyTypes {
        delete: None,
        add: Some(vec![
            (s("UserObject"), Fields::Object(vec![(s("name"), DynamicType::String)])),
            (s("UserBasic"), Fields::Basic(DynamicType::String)),
        ]),
    });
    let result = contract_logic(&init_state, &event, false);

    assert!(result.error.is_none());
    assert_eq!(
        production_system::schema_get(&result.state.custom_types, &s("UserObject")).unwrap(),
        &Fields::Object(vec![(s("name"), DynamicType::String)])
    );
    assert_eq!(
        production_system::schema_get(&result.state.custom_types, &s("UserBasic")).unwrap(),
        &Fields::Basic(DynamicType::String)
    );
    assert_eq!(result.state.custom_types.len(), 2);

    let unit_process = UnitProcess {
        name: s("Unit example"),
        outputs: vec![
            data("Example Object", "UserObject", jobj(vec![("name", jstr("ExampleName"))])),
            data("Example String", "String", jstr("ExampleString")),
        ],
        inputs: vec![data("Example Basic", "UserBasic", jstr("ExampleBasic"))],
        properties: vec![],
    };
    let event = Events::ChangeProductionSystem(ChangeProductionSystem::ModifyUnitProcess {
        delete: None,
        modify: None,
        add: Some(vec![unit_process]),
    });
    let result = contract_logic(&result.state, &event, false);
    assert!(result.error.is_none());

    assert_eq!(result.state.unit_process.len(), 1);
    assert_eq!(result.state.unit_process[0].name, "Unit example");
    assert_eq!(result.state.unit_process[0].outputs.len(), 2);

    let d = &result.state.unit_process[0].outputs[0];
    assert_eq!(d.name, "Example Object");
    assert_eq!(d.typename, "UserObject");
    assert_eq!(d.content, jobj(vec![("name", jstr("ExampleName"))]));
    let d = &result.state.unit_process[0].outputs[1];
    assert_eq!(d.name, "Example String");
    assert_eq!(d.typename, "String");
    assert_eq!(d.content, jstr("ExampleString"));

    let d = &result.state.unit_process[0].inputs[0];
    assert_eq!(d.name, "Example Basic");
    assert_eq!(d.typename, "UserBasic");
    assert_eq!(d.content, jstr("ExampleBasic"));

    assert!(result.success);

    let replacement = UnitProcess {
        name: s("Unit example modify"),
        outputs: vec![data("Example Basic modify", "UserBasic", jstr("ExampleBasic"))],
        inputs: vec![data(
            "Example Object modify",
            "UserObject",
            jobj(vec![("name", jstr("ExampleName"))]),
        )],
        properties: vec![],
    };
    let event = Events::ChangeProductionSystem(ChangeProductionSystem::ModifyUnitProcess {
        delete: None,
        modify: Some(vec![(s("Unit example"), replacement)]),
        add: None,
    });
    let result = contract_logic(&result.state, &event, false);
    assert!(result.error.is_none());

    assert_eq!(result.state.unit_process.len(), 1);
    assert_eq!(result.state.unit_process[0].name, "Unit example modify");
    assert_eq!(result.state.unit_process[0].outputs.len(), 1);

    let d = &result.state.unit_process[0].outputs[0];
    assert_eq!(d.name, "Example Basic modify");
    assert_eq!(d.typename, "UserBasic");
    assert_eq!(d.content, jstr("ExampleBasic"));

    let d = &result.state.unit_process[0].inputs[0];
    assert_eq!(d.name, "Example Object modify");
    assert_eq!(d.typename, "UserObject");
    assert_eq!(d.content, jobj(vec![("name", jstr("ExampleName"))]));

    let event = Events::ChangeProductionSystem(ChangeProductionSystem::ModifyUnitProcess {
        delete: Some(vec![s("Unit example modify")]),
        modify: None,
        add: None,
    });
    let result = contract_logic(&result.state, &event, false);

    assert!(result.error.is_none());
    assert_eq!(result.state.unit_process.len(), 0);
    assert!(result.success);
}

#[test]
fn init_on_initialized_document_rejected() {
    let init_state = empty_state("already", 3);
    let event = Events::ChangeProductionSystem(ChangeProductionSystem::Init {
        name: s("again"),
        unit_process: None,
        types: None,
        properties: None,
    });
    let result = contract_logic(&init_state, &event, false);
    assert!(!result.success);
    assert_eq!(result.error, Some(production_system::Error::Ordering));
    assert_eq!(result.state, init_state);
}

#[test]
fn event_before_init_rejected() {
    let init_state = empty_state("", 0);
    let event = Events::ChangeProductionSystem(ChangeProductionSystem::ModifyTypes {
        delete: None,
        add: Some(vec![(s("T"), Fields::Basic(DynamicType::String))]),
    });
    let result = contract_logic(&init_state, &event, false);
    assert!(!result.success);
    assert_eq!(result.error, Some(production_system::Error::Ordering));
    assert_eq!(result.state, init_state);

    let event = Events::RegisterData(vec![]);
    let result = contract_logic(&init_state, &event, false);
    assert!(!result.success);
    assert_eq!(result.error, Some(production_system::Error::Ordering));
}

#[test]
fn version_counts_structural_events_only() {
    let state0 = empty_state("", 0);
    let result = contract_logic(
        &state0,
        &Events::ChangeProductionSystem(ChangeProductionSystem::Init {
            name: s("doc"),
            unit_process: Some(vec![UnitProcess {
                name: s("step"),
                inputs: vec![data("in", "u64", ju(1))],
                outputs: vec![],
                properties: vec![],
            }]),
            types: None,
            properties: None,
        }),
        false,
    );
    assert!(result.success);
    assert_eq!(result.state.version, 1);

    let result = contract_logic(
        &result.state,
        &Events::ChangeProductionSystem(ChangeProductionSystem::ModifyProductionSystem {
            name: Some(s("doc 2")),
            delete_properties: None,
            modify_properties: None,
            add_properties: None,
        }),
        false,
    );
    assert!(result.success);
    assert_eq!(result.state.version, 2);

    let result = contract_logic(
        &result.state,
        &Events::RegisterData(vec![UnitData {
            name: s("step"),
            inputs: Some(vec![RegisterData {
                name: s("in"),
                typename: s("u64"),
                content: ju(9),
                targets: None,
            }]),
            outputs: None,
            properties: None,
        }]),
        false,
    );
    assert!(result.success);
    assert_eq!(result.state.version, 2);
    assert_eq!(result.state.unit_process[0].inputs[0].content, ju(9));
}

#[test]
fn property_edit_lifecycle() {
    let init_state = empty_state("doc", 1);

    let result = contract_logic(
        &init_state,
        &Events::ChangeProductionSystem(ChangeProductionSystem::ModifyProductionSystem {
            name: None,
            delete_properties: None,
            modify_properties: None,
            add_properties: Some(vec![
                Properties { name: s("speed"), typename: s("u64"), content: ju(5) },
                Properties { name: s("label"), typename: s("String"), content: jstr("a") },
            ]),
        }),
        false,
    );
    assert!(result.success);
    assert_eq!(result.state.properties.len(), 2);

    let result = contract_logic(
        &result.state,
        &Events::ChangeProductionSystem(ChangeProductionSystem::ModifyProductionSystem {
            name: None,
            delete_properties: None,
            modify_properties: Some(vec![(
                s("speed"),
                Properties { name: s("speed"), typename: s("u64"), content: ju(7) },
            )]),
            add_properties: None,
        }),
        false,
    );
    assert!(result.success);
    assert_eq!(result.state.properties[0].content, ju(7));
    assert_eq!(result.state.properties[1].content, jstr("a"));

    let result = contract_logic(
        &result.state,
        &Events::ChangeProductionSystem(ChangeProductionSystem::ModifyProductionSystem {
            name: None,
            delete_properties: Some(vec![s("speed")]),
            modify_properties: None,
            add_properties: None,
        }),
        false,
    );
    assert!(result.success);
    assert_eq!(result.state.properties.len(), 1);
    assert_eq!(result.state.properties[0].name, "label");

    let result = contract_logic(
        &result.state,
        &Events::ChangeProductionSystem(ChangeProductionSystem::ModifyProductionSystem {
            name: None,
            delete_properties: Some(vec![s("speed")]),
            modify_properties: None,
            add_properties: None,
        }),
        false,
    );
    assert!(!result.success);
    assert!(matches!(result.error, Some(production_system::Error::NotFound(_))));
}

#[test]
fn failed_event_leaves_document_identical() {
    let mut state = empty_state("doc", 1);
    state.properties.push(Properties { name: s("p"), typename: s("u64"), content: ju(1) });

    let event = Events::ChangeProductionSystem(ChangeProductionSystem::ModifyProductionSystem {
        name: None,
        delete_properties: Some(vec![s("p"), s("missing")]),
        modify_properties: None,
        add_properties: None,
    });
    let result = contract_logic(&state, &event, false);
    assert!(!result.success);
    assert!(result.error.is_some());
    assert_eq!(result.state, state);
}

#[test]
fn register_unknown_process_rejects_whole_batch() {
    let state0 = empty_state("", 0);
    let result = contract_logic(
        &state0,
        &Events::ChangeProductionSystem(ChangeProductionSystem::Init {
            name: s("doc"),
            unit_process: Some(vec![UnitProcess {
                name: s("step"),
                inputs: vec![data("in", "u64", ju(1))],
                outputs: vec![],
                properties: vec![],
            }]),
            types: None,
            properties: None,
        }),
        false,
    );
    assert!(result.success);
    let before = result.state;

    let event = Events::RegisterData(vec![
        UnitData {
            name: s("step"),
            inputs: Some(vec![RegisterData {
                name: s("in"),
                typename: s("u64"),
                content: ju(2),
                targets: None,
            }]),
            outputs: None,
            properties: None,
        },
        UnitData {
            name: s("missing step"),
            inputs: Some(vec![RegisterData {
                name: s("in"),
                typename: s("u64"),
                content: ju(3),
                targets: None,
            }]),
            outputs: None,
            properties: None,
        },
    ]);
    let result = contract_logic(&before, &event, false);
    assert!(!result.success);
    assert!(matches!(result.error, Some(production_system::Error::NotFound(_))));
    assert_eq!(result.state, before);
    assert_eq!(result.state.unit_process[0].inputs[0].content, ju(1));
}

#[test]
fn registration_updates_only_addressed_slot() {
    let state0 = empty_state("", 0);
    let result = contract_logic(
        &state0,
        &Events::ChangeProductionSystem(ChangeProductionSystem::Init {
            name: s("doc"),
            unit_process: Some(vec![UnitProcess {
                name: s("step"),
                inputs: vec![data("a", "u64", ju(1)), data("b", "String", jstr("x"))],
                outputs: vec![data("c", "bool", JsonValue::Bool(true))],
                properties: vec![Properties {
                    name: s("q"),
                    typename: s("u64"),
                    content: ju(4),
                }],
            }]),
            types: None,
            properties: None,
        }),
        false,
    );
    assert!(result.success);

    let event = Events::RegisterData(vec![UnitData {
        name: s("step"),
        inputs: Some(vec![RegisterData {
            name: s("a"),
            typename: s("u64"),
            content: ju(2),
            targets: None,
        }]),
        outputs: None,
        properties: None,
    }]);
    let result = contract_logic(&result.state, &event, false);
    assert!(result.success);

    let up = &result.state.unit_process[0];
    assert_eq!(up.inputs[0].content, ju(2));
    assert_eq!(up.inputs[1].content, jstr("x"));
    assert_eq!(up.outputs[0].content, JsonValue::Bool(true));
    assert_eq!(up.properties[0].content, ju(4));
    assert_eq!(up.inputs[0].name, "a");
    assert_eq!(up.inputs[0].typename, "u64");
}

#[test]
fn registration_type_change_rejected() {
    let state0 = empty_state("doc", 1);
    let result = contract_logic(
        &state0,
        &Events::ChangeProductionSystem(ChangeProductionSystem::ModifyUnitProcess {
            delete: None,
            modify: None,
            add: Some(vec![UnitProcess {
                name: s("step"),
                inputs: vec![data("a", "u64", ju(1))],
                outputs: vec![],
                properties: vec![],
            }]),
        }),
        false,
    );
    assert!(result.success);
    let before = result.state;

    let event = Events::RegisterData(vec![UnitData {
        name: s("step"),
        inputs: Some(vec![RegisterData {
            name: s("a"),
            typename: s("String"),
            content: jstr("nope"),
            targets: None,
        }]),
        outputs: None,
        properties: None,
    }]);
    let result = contract_logic(&before, &event, false);
    assert!(!result.success);
    assert_eq!(result.error, Some(production_system::Error::TypeMismatch));
    assert_eq!(result.state, before);
}

#[test]
fn registration_stores_targets() {
    let state0 = empty_state("doc", 1);
    let result = contract_logic(
        &state0,
        &Events::ChangeProductionSystem(ChangeProductionSystem::ModifyUnitProcess {
            delete: None,
            modify: None,
            add: Some(vec![UnitProcess {
                name: s("step"),
                inputs: vec![data("a", "u64", ju(1))],
                outputs: vec![],
                properties: vec![],
            }]),
        }),
        false,
    );
    assert!(result.success);

    let good = Events::RegisterData(vec![UnitData {
        name: s("step"),
        inputs: Some(vec![RegisterData {
            name: s("a"),
            typename: s("u64"),
            content: ju(2),
            targets: Some(vec![production_system::Target {
                governance_id: s("gov"),
                subject_id: s("subj"),
                unit_process: s("step"),
            }]),
        }]),
        outputs: None,
        properties: None,
    }]);
    let after = contract_logic(&result.state, &good, false);
    assert!(after.success);
    let stored = after.state.unit_process[0].inputs[0].targets.as_ref().unwrap();
    assert_eq!(stored.len(), 1);
    assert_eq!(stored[0].governance_id, "gov");

    let bad = Events::RegisterData(vec![UnitData {
        name: s("step"),
        inputs: Some(vec![RegisterData {
            name: s("a"),
            typename: s("u64"),
            content: ju(2),
            targets: Some(vec![production_system::Target {
                governance_id: s(""),
                subject_id: s("subj"),
                unit_process: s("step"),
            }]),
        }]),
        outputs: None,
        properties: None,
    }]);
    let rejected = contract_logic(&result.state, &bad, false);
    assert!(!rejected.success);
    assert_eq!(rejected.error, Some(production_system::Error::EmptyName));
}
