//! Rejection scenarios for malformed type definitions, together with the
//! union, array and reference type scenarios.

use production_system::{
    contract_logic, schema_get, ChangeProductionSystem, Data, DynamicType, Events, Fields,
    JsonNumber, JsonValue, ProductionSystem, RegisterData, UnitData, UnitProcess,
};

fn s(x: &str) -> String {
    x.to_owned()
}

fn jstr(x: &str) -> JsonValue {
    JsonValue::Text(x.to_owned())
}

fn jobj(entries: Vec<(&str, JsonValue)>) -> JsonValue {
    JsonValue::Object(entries.into_iter().map(|(k, v)| (k.to_owned(), v)).collect())
}

fn ju(n: u64) -> JsonValue {
    JsonValue::Number(JsonNumber::PosInt(n))
}

fn empty_state(name: &str, version: u32) -> ProductionSystem {
    ProductionSystem {
        name: s(name),
        version,
        unit_process: vec![],
        custom_types: vec![],
        properties: vec![],
    }
}

fn data(name: &str, typename: &str, content: JsonValue) -> Data {
    Data { name: s(name), typename: s(typename), content, targets: None, metadata: None }
}

fn add_types_event(types: Vec<(String, Fields)>) -> Events {
    Events::ChangeProductionSystem(ChangeProductionSystem::ModifyTypes {
        delete: None,
        add: Some(types),
    })
}

fn add_up_event(up: UnitProcess) -> Events {
    Events::ChangeProductionSystem(ChangeProductionSystem::ModifyUnitProcess {
        delete: None,
        modify: None,
        add: Some(vec![up]),
    })
}

#[test]
fn test_dummy_fail() {
    let init_state = empty_state("example", 1);

    let event = add_types_event(vec![(
        s("UserObject"),
        Fields::Object(vec![(s("value"), DynamicType::Invalid)]),
    )]);
    let result = contract_logic(&init_state, &event, false);
    assert!(result.error.is_some());
    assert!(!result.success);

    let event = add_types_event(vec![(s("UserBasic"), Fields::Basic(DynamicType::Invalid))]);
    let result = contract_logic(&init_state, &event, false);
    assert!(result.error.is_some());
    assert!(!result.success);

    let unit_process = UnitProcess {
        name: s("Unit example"),
        outputs: vec![data("Example Dummy", "Dummy", jobj(vec![]))],
        inputs: vec![],
        properties: vec![],
    };
    let result = contract_logic(&init_state, &add_up_event(unit_process), false);
    assert!(result.error.is_some());
    assert!(!result.success);
}

#[test]
fn test_option_fail() {
    let init_state = empty_state("example", 1);

    let event = add_types_event(vec![(
        s("UserObject"),
        Fields::Object(vec![(
            s("value"),
            DynamicType::Optional(Box::new(DynamicType::Invalid)),
        )]),
    )]);
    let result = contract_logic(&init_state, &event, false);
    assert!(result.error.is_some());
    assert!(!result.success);

    let event = add_types_event(vec![(
        s("UserBasic"),
        Fields::Basic(DynamicType::Optional(Box::new(DynamicType::String))),
    )]);
    let result = contract_logic(&init_state, &event, false);
    assert!(result.error.is_some());
    assert!(!result.success);

    let unit_process = UnitProcess {
        name: s("Unit example"),
        outputs: vec![data("Example Dummy", "Option", jobj(vec![]))],
        inputs: vec![],
        properties: vec![],
    };
    let result = contract_logic(&init_state, &add_up_event(unit_process), false);
    assert!(result.error.is_some());
    assert!(!result.success);
}

#[test]
fn test_enum() {
    let init_state = empty_state("example", 1);

    let union_members = vec![
        (s("Name"), DynamicType::Invalid),
        (s("Data"), DynamicType::String),
    ];
    let event = add_types_event(vec![
        (
            s("UserObject"),
            Fields::Object(vec![(s("value"), DynamicType::Union(union_members.clone()))]),
        ),
        (s("UserBasic"), Fields::Basic(DynamicType::Union(union_members.clone()))),
    ]);
    let result = contract_logic(&init_state, &event, false);

    assert!(result.error.is_none());
    assert_eq!(
        schema_get(&result.state.custom_types, &s("UserObject")).unwrap(),
        &Fields::Object(vec![(s("value"), DynamicType::Union(union_members.clone()))])
    );
    assert_eq!(
        schema_get(&result.state.custom_types, &s("UserBasic")).unwrap(),
        &Fields::Basic(DynamicType::Union(union_members))
    );
    assert_eq!(result.state.custom_types.len(), 2);

    let unit_process = UnitProcess {
        name: s("Unit example"),
        outputs: vec![data(
            "Example Object",
            "UserObject",
            jobj(vec![("value", jobj(vec![("Data", jstr("info"))]))]),
        )],
        inputs: vec![data("Example Basic", "UserBasic", jstr("Name"))],
        properties: vec![],
    };
    let result = contract_logic(&result.state, &add_up_event(unit_process), false);
    assert!(result.error.is_none());

    assert_eq!(result.state.unit_process.len(), 1);
    assert_eq!(result.state.unit_process[0].name, "Unit example");
    assert_eq!(result.state.unit_process[0].outputs.len(), 1);

    let d = &result.state.unit_process[0].outputs[0];
    assert_eq!(d.name, "Example Object");
    assert_eq!(d.typename, "UserObject");
    assert_eq!(d.content, jobj(vec![("value", jobj(vec![("Data", jstr("info"))]))]));

    let d = &result.state.unit_process[0].inputs[0];
    assert_eq!(d.name, "Example Basic");
    assert_eq!(d.typename, "UserBasic");
    assert_eq!(d.content, jstr("Name"));

    assert!(result.success);

    let event = Events::RegisterData(vec![UnitData {
        name: s("Unit example"),
        outputs: Some(vec![RegisterData {
            name: s("Example Object"),
            typename: s("UserObject"),
            content: jobj(vec![("value", jstr("Name"))]),
            targets: None,
        }]),
        inputs: Some(vec![RegisterData {
            name: s("Example Basic"),
            typename: s("UserBasic"),
            content: jobj(vec![("Data", jstr("info"))]),
            targets: None,
        }]),
        properties: None,
    }]);
    let result = contract_logic(&result.state, &event, false);
    assert!(result.error.is_none());

    assert_eq!(result.state.unit_process.len(), 1);
    assert_eq!(result.state.unit_process[0].name, "Unit example");
    assert_eq!(result.state.unit_process[0].outputs.len(), 1);

    let d = &result.state.unit_process[0].outputs[0];
    assert_eq!(d.name, "Example Object");
    assert_eq!(d.typename, "UserObject");
    assert_eq!(d.content, jobj(vec![("value", jstr("Name"))]));

    let d = &result.state.unit_process[0].inputs[0];
    assert_eq!(d.name, "Example Basic");
    assert_eq!(d.typename, "UserBasic");
    assert_eq!(d.content, jobj(vec![("Data", jstr("info"))]));

    assert!(result.success);
}

#[test]
fn test_enum_fail() {
    let init_state = empty_state("example", 1);

    let bad_members = vec![
        (s("Name"), DynamicType::Invalid),
        (s("Data"), DynamicType::Optional(Box::new(DynamicType::String))),
    ];
    let event = add_types_event(vec![(
        s("UserObject"),
        Fields::Object(vec![(s("value"), DynamicType::Union(bad_members.clone()))]),
    )]);
    let result = contract_logic(&init_state, &event, false);
    assert!(result.error.is_some());
    assert!(!result.success);

    let event = add_types_event(vec![(
        s("UserBasic"),
        Fields::Basic(DynamicType::Union(bad_members)),
    )]);
    let result = contract_logic(&init_state, &event, false);
    assert!(result.error.is_some());
    assert!(!result.success);

    let unit_process = UnitProcess {
        name: s("Unit example"),
        outputs: vec![data("Example Dummy", "Enum", jobj(vec![]))],
        inputs: vec![],
        properties: vec![],
    };
    let result = contract_logic(&init_state, &add_up_event(unit_process), false);
    assert!(result.error.is_some());
    assert!(!result.success);
}

#[test]
fn test_vec() {
    let init_state = empty_state("example", 1);

    let event = add_types_event(vec![
        (
            s("UserObject"),
            Fields::Object(vec![(
                s("value"),
                DynamicType::Array(Box::new(DynamicType::String)),
            )]),
        ),
        (s("UserBasic"), Fields::Basic(DynamicType::Array(Box::new(DynamicType::U64)))),
    ]);
    let result = contract_logic(&init_state, &event, false);

    assert!(result.error.is_none());
    assert_eq!(
        schema_get(&result.state.custom_types, &s("UserObject")).unwrap(),
        &Fields::Object(vec![(s("value"), DynamicType::Array(Box::new(DynamicType::String)))])
    );
    assert_eq!(
        schema_get(&result.state.custom_types, &s("UserBasic")).unwrap(),
        &Fields::Basic(DynamicType::Array(Box::new(DynamicType::U64)))
    );
    assert_eq!(result.state.custom_types.len(), 2);

    let unit_process = UnitProcess {
        name: s("Unit example"),
        outputs: vec![data(
            "Example Object",
            "UserObject",
            jobj(vec![("value", JsonValue::Array(vec![jstr("one"), jstr("two")]))]),
        )],
        inputs: vec![data(
            "Example Basic",
            "UserBasic",
            JsonValue::Array(vec![ju(0), ju(1), ju(2), ju(3), ju(4), ju(5)]),
        )],
        properties: vec![],
    };
    let result = contract_logic(&result.state, &add_up_event(unit_process), false);
    assert!(result.error.is_none());

    assert_eq!(result.state.unit_process.len(), 1);
    assert_eq!(result.state.unit_process[0].name, "Unit example");
    assert_eq!(result.state.unit_process[0].outputs.len(), 1);

    let d = &result.state.unit_process[0].outputs[0];
    assert_eq!(d.name, "Example Object");
    assert_eq!(d.typename, "UserObject");
    assert_eq!(
        d.content,
        jobj(vec![("value", JsonValue::Array(vec![jstr("one"), jstr("two")]))])
    );

    let d = &result.state.unit_process[0].inputs[0];
    assert_eq!(d.name, "Example Basic");
    assert_eq!(d.typename, "UserBasic");
    assert_eq!(d.content, JsonValue::Array(vec![ju(0), ju(1), ju(2), ju(3), ju(4), ju(5)]));

    assert!(result.success);
}

#[test]
fn test_vec_fail() {
    let init_state = empty_state("example", 1);

    let event = add_types_event(vec![(
        s("UserObject"),
        Fields::Object(vec![(
            s("value"),
            DynamicType::Array(Box::new(DynamicType::Invalid)),
        )]),
    )]);
    let result = contract_logic(&init_state, &event, false);
    assert!(result.error.is_some());
    assert!(!result.success);

    let event = add_types_event(vec![(
        s("UserBasic"),
        Fields::Basic(DynamicType::Array(Box::new(DynamicType::Invalid))),
    )]);
    let result = contract_logic(&init_state, &event, false);
    assert!(result.error.is_some());
    assert!(!result.success);

    let event = add_types_event(vec![(
        s("UserObject"),
        Fields::Object(vec![(
            s("value"),
            DynamicType::Array(Box::new(DynamicType::Optional(Box::new(DynamicType::String)))),
        )]),
    )]);
    let result = contract_logic(&init_state, &event, false);
    assert!(result.error.is_some());
    assert!(!result.success);

    let event = add_types_event(vec![(
        s("UserBasic"),
        Fields::Basic(DynamicType::Array(Box::new(DynamicType::Optional(Box::new(
            DynamicType::String,
        ))))),
    )]);
    let result = contract_logic(&init_state, &event, false);
    assert!(result.error.is_some());
    assert!(!result.success);

    let unit_process = UnitProcess {
        name: s("Unit example"),
        outputs: vec![data("Example Dummy", "Vec", JsonValue::Array(vec![]))],
        inputs: vec![],
        properties: vec![],
    };
    let result = contract_logic(&init_state, &add_up_event(unit_process), false);
    assert!(result.error.is_some());
    assert!(!result.success);
}

#[test]
fn test_type() {
    let init_state = empty_state("example", 1);

    let event = add_types_event(vec![
        (
            s("DataType"),
            Fields::Object(vec![
                (s("text"), DynamicType::String),
                (s("value"), DynamicType::U64),
            ]),
        ),
        (s("VecType"), Fields::Basic(DynamicType::Array(Box::new(DynamicType::String)))),
        (
            s("UserObject"),
            Fields::Object(vec![(s("value"), DynamicType::Reference(s("DataType")))]),
        ),
        (
            s("UserVec"),
            Fields::Object(vec![(s("value"), DynamicType::Reference(s("VecType")))]),
        ),
    ]);
    let result = contract_logic(&init_state, &event, false);

    assert!(result.error.is_none());
    assert_eq!(
        schema_get(&result.state.custom_types, &s("VecType")).unwrap(),
        &Fields::Basic(DynamicType::Array(Box::new(DynamicType::String)))
    );
    assert_eq!(
        schema_get(&result.state.custom_types, &s("UserVec")).unwrap(),
        &Fields::Object(vec![(s("value"), DynamicType::Reference(s("VecType")))])
    );
    assert_eq!(
        schema_get(&result.state.custom_types, &s("UserObject")).unwrap(),
        &Fields::Object(vec![(s("value"), DynamicType::Reference(s("DataType")))])
    );
    assert_eq!(
        schema_get(&result.state.custom_types, &s("DataType")).unwrap(),
        &Fields::Object(vec![
            (s("text"), DynamicType::String),
            (s("value"), DynamicType::U64),
        ])
    );
    assert_eq!(result.state.custom_types.len(), 4);

    let unit_process = UnitProcess {
        name: s("Unit example"),
        outputs: vec![data(
            "Example Object",
            "UserObject",
            jobj(vec![("value", jobj(vec![("text", jstr("info")), ("value", ju(30))]))]),
        )],
        inputs: vec![data(
            "Example Vec",
            "UserVec",
            jobj(vec![("value", JsonValue::Array(vec![jstr("one"), jstr("two")]))]),
        )],
        properties: vec![],
    };
    let result = contract_logic(&result.state, &add_up_event(unit_process), false);
    assert!(result.error.is_none());

    assert_eq!(result.state.unit_process.len(), 1);
    assert_eq!(result.state.unit_process[0].name, "Unit example");
    assert_eq!(result.state.unit_process[0].outputs.len(), 1);

    let d = &result.state.unit_process[0].outputs[0];
    assert_eq!(d.name, "Example Object");
    assert_eq!(d.typename, "UserObject");
    assert_eq!(
        d.content,
        jobj(vec![("value", jobj(vec![("text", jstr("info")), ("value", ju(30))]))])
    );

    assert_eq!(result.state.unit_process[0].inputs.len(), 1);

    let d = &result.state.unit_process[0].inputs[0];
    assert_eq!(d.name, "Example Vec");
    assert_eq!(d.typename, "UserVec");
    assert_eq!(
        d.content,
        jobj(vec![("value", JsonValue::Array(vec![jstr("one"), jstr("two")]))])
    );

    assert!(result.success);
}

#[test]
fn test_type_fail() {
    let init_state = empty_state("example", 1);

    let unit_process = UnitProcess {
        name: s("Unit example"),
        outputs: vec![data("Example Dummy", "Type", jobj(vec![]))],
        inputs: vec![],
        properties: vec![],
    };
    let result = contract_logic(&init_state, &add_up_event(unit_process), false);
    assert!(result.error.is_some());
    assert!(!result.success);
}
