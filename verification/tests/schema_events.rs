//! Event-driven schema and unit-process scenarios over the engine.

use production_system::{
    contract_logic, schema_get, ChangeProductionSystem, Data, DynamicType, Events, Fields,
    JsonNumber, JsonValue, Metadata, ProductionSystem, UnitProcess,
};

fn s(x: &str) -> String {
    x.to_owned()
}

fn jstr(x: &str) -> JsonValue {
    JsonValue::Text(x.to_owned())
}

fn jobj(entries: Vec<(&str, JsonValue)>) -> JsonValue {
    JsonValue::Object(entries.into_iter().map(|(k, v)| (k.to_owned(), v)).collect())
}

fn ju(n: u64) -> JsonValue {
    JsonValue::Number(JsonNumber::PosInt(n))
}

fn ji(n: i64) -> JsonValue {
    JsonValue::Number(JsonNumber::NegInt(n))
}

fn jf(x: f64) -> JsonValue {
    JsonValue::Number(JsonNumber::Float(x.to_bits()))
}

fn empty_state(name: &str, version: u32) -> ProductionSystem {
    ProductionSystem {
        name: s(name),
        version,
        unit_process: vec![],
        custom_types: vec![],
        properties: vec![],
    }
}

fn data(name: &str, typename: &str, content: JsonValue) -> Data {
    Data { name: s(name), typename: s(typename), content, targets: None, metadata: None }
}

fn add_types_event(types: Vec<(String, Fields)>) -> Events {
    Events::ChangeProductionSystem(ChangeProductionSystem::ModifyTypes {
        delete: None,
        add: Some(types),
    })
}

fn add_up_event(up: UnitProcess) -> Events {
    Events::ChangeProductionSystem(ChangeProductionSystem::ModifyUnitProcess {
        delete: None,
        modify: None,
        add: Some(vec![up]),
    })
}

#[test]
fn register_types_type_cycle() {
    let init_state = ProductionSystem {
        name: s("wine process"),
        version: 1,
        unit_process: vec![],
        custom_types: vec![(
            s("User"),
            Fields::Object(vec![
                (s("name"), DynamicType::String),
                (s("value"), DynamicType::Reference(s("Another User"))),
            ]),
        )],
        properties: vec![],
    };

    let event = add_types_event(vec![
        (
            s("Another User"),
            Fields::Object(vec![
                (s("user_data"), DynamicType::Reference(s("Fake User"))),
                (s("value"), DynamicType::String),
            ]),
        ),
        (
            s("Fake User"),
            Fields::Object(vec![
                (s("user_data"), DynamicType::Reference(s("User"))),
                (s("value"), DynamicType::String),
            ]),
        ),
    ]);

    let result = contract_logic(&init_state, &event, false);
    assert!(result.error.is_some());
    assert!(!result.success);
}

#[test]
fn test_metadata_field() {
    let init_state = empty_state("example", 1);

    let event = add_types_event(vec![
        (s("UserObject"), Fields::Object(vec![(s("name"), DynamicType::String)])),
        (s("UserBasic"), Fields::Basic(DynamicType::String)),
    ]);
    let result = contract_logic(&init_state, &event, false);

    assert!(result.error.is_none());
    assert_eq!(
        schema_get(&result.state.custom_types, &s("UserObject")).unwrap(),
        &Fields::Object(vec![(s("name"), DynamicType::String)])
    );
    assert_eq!(
        schema_get(&result.state.custom_types, &s("UserBasic")).unwrap(),
        &Fields::Basic(DynamicType::String)
    );
    assert_eq!(result.state.custom_types.len(), 2);

    let unit_process = UnitProcess {
        name: s("Unit example"),
        outputs: vec![
            data("Example Object", "UserObject", jobj(vec![("name", jstr("ExampleName"))])),
            data("Example String", "String", jstr("ExampleString")),
        ],
        inputs: vec![Data {
            name: s("Example Basic"),
            typename: s("UserBasic"),
            content: jstr("ExampleBasic"),
            targets: None,
            metadata: Some(Metadata {
                typename: s("UserObject"),
                content: jobj(vec![("name", jstr("Metadata"))]),
            }),
        }],
        properties: vec![],
    };

    let result = contract_logic(&result.state, &add_up_event(unit_process), false);
    assert!(result.error.is_none());

    assert_eq!(result.state.unit_process.len(), 1);
    assert_eq!(result.state.unit_process[0].name, "Unit example");
    assert_eq!(result.state.unit_process[0].outputs.len(), 2);

    let d = &result.state.unit_process[0].outputs[0];
    assert_eq!(d.name, "Example Object");
    assert_eq!(d.typename, "UserObject");
    assert_eq!(d.content, jobj(vec![("name", jstr("ExampleName"))]));
    let d = &result.state.unit_process[0].outputs[1];
    assert_eq!(d.name, "Example String");
    assert_eq!(d.typename, "String");
    assert_eq!(d.content, jstr("ExampleString"));

    let d = &result.state.unit_process[0].inputs[0];
    assert_eq!(d.name, "Example Basic");
    assert_eq!(d.typename, "UserBasic");
    assert_eq!(d.content, jstr("ExampleBasic"));
    assert_eq!(
        d.metadata.as_ref().unwrap(),
        &Metadata { typename: s("UserObject"), content: jobj(vec![("name", jstr("Metadata"))]) }
    );

    assert!(result.success);
}

#[test]
fn test_string() {
    let init_state = empty_state("example", 1);

    let event = add_types_event(vec![
        (s("UserObject"), Fields::Object(vec![(s("name"), DynamicType::String)])),
        (s("UserBasic"), Fields::Basic(DynamicType::String)),
    ]);
    let result = contract_logic(&init_state, &event, false);

    assert!(result.error.is_none());
    assert_eq!(
        schema_get(&result.state.custom_types, &s("UserObject")).unwrap(),
        &Fields::Object(vec![(s("name"), DynamicType::String)])
    );
    assert_eq!(
        schema_get(&result.state.custom_types, &s("UserBasic")).unwrap(),
        &Fields::Basic(DynamicType::String)
    );
    assert_eq!(result.state.custom_types.len(), 2);

    let unit_process = UnitProcess {
        name: s("Unit example"),
        outputs: vec![
            data("Example Object", "UserObject", jobj(vec![("name", jstr("ExampleName"))])),
            data("Example String", "String", jstr("ExampleString")),
        ],
        inputs: vec![data("Example Basic", "UserBasic", jstr("ExampleBasic"))],
        properties: vec![],
    };

    let result = contract_logic(&result.state, &add_up_event(unit_process), false);
    assert!(result.error.is_none());

    assert_eq!(result.state.unit_process.len(), 1);
    assert_eq!(result.state.unit_process[0].name, "Unit example");
    assert_eq!(result.state.unit_process[0].outputs.len(), 2);

    let d = &result.state.unit_process[0].outputs[0];
    assert_eq!(d.name, "Example Object");
    assert_eq!(d.typename, "UserObject");
    assert_eq!(d.content, jobj(vec![("name", jstr("ExampleName"))]));
    let d = &result.state.unit_process[0].outputs[1];
    assert_eq!(d.name, "Example String");
    assert_eq!(d.typename, "String");
    assert_eq!(d.content, jstr("ExampleString"));

    let d = &result.state.unit_process[0].inputs[0];
    assert_eq!(d.name, "Example Basic");
    assert_eq!(d.typename, "UserBasic");
    assert_eq!(d.content, jstr("ExampleBasic"));

    assert!(result.success);
}

#[test]
fn test_i64() {
    let init_state = empty_state("example", 1);

    let event = add_types_event(vec![
        (s("UserObject"), Fields::Object(vec![(s("value"), DynamicType::I64)])),
        (s("UserBasic"), Fields::Basic(DynamicType::I64)),
    ]);
    let result = contract_logic(&init_state, &event, false);

    assert!(result.error.is_none());
    assert_eq!(
        schema_get(&result.state.custom_types, &s("UserObject")).unwrap(),
        &Fields::Object(vec![(s("value"), DynamicType::I64)])
    );
    assert_eq!(
        schema_get(&result.state.custom_types, &s("UserBasic")).unwrap(),
        &Fields::Basic(DynamicType::I64)
    );
    assert_eq!(result.state.custom_types.len(), 2);

    let unit_process = UnitProcess {
        name: s("Unit example"),
        outputs: vec![
            data("Example Object", "UserObject", jobj(vec![("value", ji(-5))])),
            data("Example i64", "i64", ju(21412)),
        ],
        inputs: vec![data("Example Basic", "UserBasic", ji(-132))],
        properties: vec![],
    };

    let result = contract_logic(&result.state, &add_up_event(unit_process), false);
    assert!(result.error.is_none());

    assert_eq!(result.state.unit_process.len(), 1);
    assert_eq!(result.state.unit_process[0].name, "Unit example");
    assert_eq!(result.state.unit_process[0].outputs.len(), 2);

    let d = &result.state.unit_process[0].outputs[0];
    assert_eq!(d.name, "Example Object");
    assert_eq!(d.typename, "UserObject");
    assert_eq!(d.content, jobj(vec![("value", ji(-5))]));
    let d = &result.state.unit_process[0].outputs[1];
    assert_eq!(d.name, "Example i64");
    assert_eq!(d.typename, "i64");
    assert_eq!(d.content, ju(21412));

    let d = &result.state.unit_process[0].inputs[0];
    assert_eq!(d.name, "Example Basic");
    assert_eq!(d.typename, "UserBasic");
    assert_eq!(d.content, ji(-132));

    assert!(result.success);
}

#[test]
fn test_u64() {
    let init_state = empty_state("example", 1);

    let event = add_types_event(vec![
        (s("UserObject"), Fields::Object(vec![(s("value"), DynamicType::U64)])),
        (s("UserBasic"), Fields::Basic(DynamicType::U64)),
    ]);
    let result = contract_logic(&init_state, &event, false);

    assert!(result.error.is_none());
    assert_eq!(
        schema_get(&result.state.custom_types, &s("UserObject")).unwrap(),
        &Fields::Object(vec![(s("value"), DynamicType::U64)])
    );
    assert_eq!(
        schema_get(&result.state.custom_types, &s("UserBasic")).unwrap(),
        &Fields::Basic(DynamicType::U64)
    );
    assert_eq!(result.state.custom_types.len(), 2);

    let unit_process = UnitProcess {
        name: s("Unit example"),
        outputs: vec![
            data("Example Object", "UserObject", jobj(vec![("value", ju(0))])),
            data("Example u64", "u64", ju(21412)),
        ],
        inputs: vec![data("Example Basic", "UserBasic", ju(132))],
        properties: vec![],
    };

    let result = contract_logic(&result.state, &add_up_event(unit_process), false);
    assert!(result.error.is_none());

    assert_eq!(result.state.unit_process.len(), 1);
    assert_eq!(result.state.unit_process[0].name, "Unit example");
    assert_eq!(result.state.unit_process[0].outputs.len(), 2);

    let d = &result.state.unit_process[0].outputs[0];
    assert_eq!(d.name, "Example Object");
    assert_eq!(d.typename, "UserObject");
    assert_eq!(d.content, jobj(vec![("value", ju(0))]));
    let d = &result.state.unit_process[0].outputs[1];
    assert_eq!(d.name, "Example u64");
    assert_eq!(d.typename, "u64");
    assert_eq!(d.content, ju(21412));

    let d = &result.state.unit_process[0].inputs[0];
    assert_eq!(d.name, "Example Basic");
    assert_eq!(d.typename, "UserBasic");
    assert_eq!(d.content, ju(132));

    assert!(result.success);
}

#[test]
fn test_f64() {
    let init_state = empty_state("example", 1);

    let event = add_types_event(vec![
        (s("UserObject"), Fields::Object(vec![(s("value"), DynamicType::F64)])),
        (s("UserBasic"), Fields::Basic(DynamicType::F64)),
    ]);
    let result = contract_logic(&init_state, &event, false);

    assert!(result.error.is_none());
    assert_eq!(
        schema_get(&result.state.custom_types, &s("UserObject")).unwrap(),
        &Fields::Object(vec![(s("value"), DynamicType::F64)])
    );
    assert_eq!(
        schema_get(&result.state.custom_types, &s("UserBasic")).unwrap(),
        &Fields::Basic(DynamicType::F64)
    );
    assert_eq!(result.state.custom_types.len(), 2);

    let unit_process = UnitProcess {
        name: s("Unit example"),
        outputs: vec![
            data("Example Object", "UserObject", jobj(vec![("value", ju(0))])),
            data("Example f64", "f64", jf(21412.0)),
        ],
        inputs: vec![data("Example Basic", "UserBasic", jf(-132.55))],
        properties: vec![],
    };

    let result = contract_logic(&result.state, &add_up_event(unit_process), false);
    assert!(result.error.is_none());

    assert_eq!(result.state.unit_process.len(), 1);
    assert_eq!(result.state.unit_process[0].name, "Unit example");
    assert_eq!(result.state.unit_process[0].outputs.len(), 2);

    let d = &result.state.unit_process[0].outputs[0];
    assert_eq!(d.name, "Example Object");
    assert_eq!(d.typename, "UserObject");
    assert_eq!(d.content, jobj(vec![("value", ju(0))]));
    let d = &result.state.unit_process[0].outputs[1];
    assert_eq!(d.name, "Example f64");
    assert_eq!(d.typename, "f64");
    assert_eq!(d.content, jf(21412.0));

    let d = &result.state.unit_process[0].inputs[0];
    assert_eq!(d.name, "Example Basic");
    assert_eq!(d.typename, "UserBasic");
    assert_eq!(d.content, jf(-132.55));

    assert!(result.success);
}

#[test]
fn test_bool() {
    let init_state = empty_state("example", 1);

    let event = add_types_event(vec![
        (s("UserObject"), Fields::Object(vec![(s("value"), DynamicType::Bool)])),
        (s("UserBasic"), Fields::Basic(DynamicType::Bool)),
    ]);
    let result = contract_logic(&init_state, &event, false);

    assert!(result.error.is_none());
    assert_eq!(
        schema_get(&result.state.custom_types, &s("UserObject")).unwrap(),
        &Fields::Object(vec![(s("value"), DynamicType::Bool)])
    );
    assert_eq!(
        schema_get(&result.state.custom_types, &s("UserBasic")).unwrap(),
        &Fields::Basic(DynamicType::Bool)
    );
    assert_eq!(result.state.custom_types.len(), 2);

    let unit_process = UnitProcess {
        name: s("Unit example"),
        outputs: vec![
            data("Example Object", "UserObject", jobj(vec![("value", JsonValue::Bool(false))])),
            data("Example bool", "bool", JsonValue::Bool(true)),
        ],
        inputs: vec![data("Example Basic", "UserBasic", JsonValue::Bool(false))],
        properties: vec![],
    };

    let result = contract_logic(&result.state, &add_up_event(unit_process), false);
    assert!(result.error.is_none());

    assert_eq!(result.state.unit_process.len(), 1);
    assert_eq!(result.state.unit_process[0].name, "Unit example");
    assert_eq!(result.state.unit_process[0].outputs.len(), 2);

    let d = &result.state.unit_process[0].outputs[0];
    assert_eq!(d.name, "Example Object");
    assert_eq!(d.typename, "UserObject");
    assert_eq!(d.content, jobj(vec![("value", JsonValue::Bool(false))]));
    let d = &result.state.unit_process[0].outputs[1];
    assert_eq!(d.name, "Example bool");
    assert_eq!(d.typename, "bool");
    assert_eq!(d.content, JsonValue::Bool(true));

    let d = &result.state.unit_process[0].inputs[0];
    assert_eq!(d.name, "Example Basic");
    assert_eq!(d.typename, "UserBasic");
    assert_eq!(d.content, JsonValue::Bool(false));

    assert!(result.success);
}
