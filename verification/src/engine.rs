//! The mutation engine: the event language and the state-transition
//! function over one document.
//!
//! [`transition`] is the specification: a partial function from prior
//! document and event to successor document, undefined exactly on the
//! events the engine rejects. [`apply_event`] is the executable engine,
//! proved to accept exactly the events `transition` accepts and to return
//! exactly the document it prescribes; [`contract_logic`] wraps it in the
//! host's result shape, returning the prior document untouched on
//! rejection.

use vstd::prelude::*;

use crate::cycle::{graph_view, has_cycle_in, GraphV};
use crate::document::{
    prop_names, prop_ok, props_view, up_ok, up_register_spec, ups_view, DocV, ProductionSystem,
    Properties, PropertiesV, UnitData, UnitDataV, UnitProcess, UnitProcessV,
};
use crate::errors::Error;
use crate::types::{
    fields_refs, fields_view, fields_wf, keys_distinct, schema_contains, schema_dom, schema_view,
    seq_distinct, DynamicType, Fields, FieldsV, Schema, SchemaV,
};
use crate::validate::schema_sane;

verus! {

/// A discrete event driving one mutation of the document.
pub enum Events {
    /// A structural change: initialize, or modify the document's name,
    /// properties, schema or unit processes.
    ChangeProductionSystem(ChangeProductionSystem),
    /// A data registration into existing unit-process slots.
    RegisterData(Vec<UnitData>),
}

/// The structural operations.
pub enum ChangeProductionSystem {
    Init {
        name: String,
        unit_process: Option<Vec<UnitProcess>>,
        types: Option<Vec<(String, Fields)>>,
        properties: Option<Vec<Properties>>,
    },
    ModifyProductionSystem {
        name: Option<String>,
        delete_properties: Option<Vec<String>>,
        modify_properties: Option<Vec<(String, Properties)>>,
        add_properties: Option<Vec<Properties>>,
    },
    ModifyTypes { delete: Option<Vec<String>>, add: Option<Vec<(String, Fields)>> },
    ModifyUnitProcess {
        delete: Option<Vec<String>>,
        modify: Option<Vec<(String, UnitProcess)>>,
        add: Option<Vec<UnitProcess>>,
    },
}

/// The model of an [`Events`] value.
pub enum EventsV {
    ChangeProductionSystem(ChangeV),
    RegisterData(Seq<UnitDataV>),
}

/// The model of a [`ChangeProductionSystem`] value.
pub enum ChangeV {
    Init {
        name: Seq<char>,
        unit_process: Option<Seq<UnitProcessV>>,
        types: Option<SchemaV>,
        properties: Option<Seq<PropertiesV>>,
    },
    ModifyProductionSystem {
        name: Option<Seq<char>>,
        delete_properties: Option<Seq<Seq<char>>>,
        modify_properties: Option<Seq<(Seq<char>, PropertiesV)>>,
        add_properties: Option<Seq<PropertiesV>>,
    },
    ModifyTypes { delete: Option<Seq<Seq<char>>>, add: Option<SchemaV> },
    ModifyUnitProcess {
        delete: Option<Seq<Seq<char>>>,
        modify: Option<Seq<(Seq<char>, UnitProcessV)>>,
        add: Option<Seq<UnitProcessV>>,
    },
}

/// The models of a list of named replacement properties.
pub open spec fn named_props_view(s: Seq<(String, Properties)>) -> Seq<(Seq<char>, PropertiesV)> {
    s.map_values(|p: (String, Properties)| (p.0@, p.1@))
}

/// The models of a list of named replacement unit processes.
pub open spec fn named_ups_view(s: Seq<(String, UnitProcess)>) -> Seq<(Seq<char>, UnitProcessV)> {
    s.map_values(|p: (String, UnitProcess)| (p.0@, p.1@))
}

/// The models of a list of unit-data batches.
pub open spec fn unit_datas_view(s: Seq<UnitData>) -> Seq<UnitDataV> {
    s.map_values(|d: UnitData| d@)
}

impl View for ChangeProductionSystem {
    type V = ChangeV;

    open spec fn view(&self) -> ChangeV {
        match self {
            ChangeProductionSystem::Init { name, unit_process, types, properties } => ChangeV::Init {
                name: name@,
                unit_process: match unit_process {
                    Some(v) => Some(ups_view(v@)),
                    None => None,
                },
                types: match types {
                    Some(v) => Some(schema_view(v@)),
                    None => None,
                },
                properties: match properties {
                    Some(v) => Some(props_view(v@)),
                    None => None,
                },
            },
            ChangeProductionSystem::ModifyProductionSystem {
                name,
                delete_properties,
                modify_properties,
                add_properties,
            } => ChangeV::ModifyProductionSystem {
                name: match name {
                    Some(n) => Some(n@),
                    None => None,
                },
                delete_properties: match delete_properties {
                    Some(v) => Some(v.deep_view()),
                    None => None,
                },
                modify_properties: match modify_properties {
                    Some(v) => Some(named_props_view(v@)),
                    None => None,
                },
                add_properties: match add_properties {
                    Some(v) => Some(props_view(v@)),
                    None => None,
                },
            },
            ChangeProductionSystem::ModifyTypes { delete, add } => ChangeV::ModifyTypes {
                delete: match delete {
                    Some(v) => Some(v.deep_view()),
                    None => None,
                },
                add: match add {
                    Some(v) => Some(schema_view(v@)),
                    None => None,
                },
            },
            ChangeProductionSystem::ModifyUnitProcess { delete, modify, add } => ChangeV::ModifyUnitProcess {
                delete: match delete {
                    Some(v) => Some(v.deep_view()),
                    None => None,
                },
                modify: match modify {
                    Some(v) => Some(named_ups_view(v@)),
                    None => None,
                },
                add: match add {
                    Some(v) => Some(ups_view(v@)),
                    None => None,
                },
            },
        }
    }
}

impl View for Events {
    type V = EventsV;

    open spec fn view(&self) -> EventsV {
        match self {
            Events::ChangeProductionSystem(op) => EventsV::ChangeProductionSystem(op@),
            Events::RegisterData(batch) => EventsV::RegisterData(unit_datas_view(batch@)),
        }
    }
}

/// The names the built-in type vocabulary reserves: no user type may
/// carry one of them.
pub open spec fn reserved_name(n: Seq<char>) -> bool {
    ||| n == "String"@
    ||| n == "bool"@
    ||| n == "i64"@
    ||| n == "f64"@
    ||| n == "u64"@
    ||| n == "Dummy"@
    ||| n == "Option"@
    ||| n == "Enum"@
    ||| n == "Type"@
    ||| n == "Vec"@
}

/// The schema with one definition bound to `n`: replacing the first entry
/// so named, or appended at the end.
pub open spec fn schema_insert_spec(s: SchemaV, n: Seq<char>, f: FieldsV) -> SchemaV
    decreases s.len(),
{
    if s.len() == 0 {
        seq![(n, f)]
    } else if s[0].0 == n {
        seq![(n, f)] + s.drop_first()
    } else {
        seq![s[0]] + schema_insert_spec(s.drop_first(), n, f)
    }
}

/// The schema with a batch of definitions merged in, first to last.
pub open spec fn schema_merge(s: SchemaV, adds: SchemaV) -> SchemaV
    decreases adds.len(),
{
    if adds.len() == 0 {
        s
    } else {
        schema_merge(schema_insert_spec(s, adds[0].0, adds[0].1), adds.drop_first())
    }
}

/// The dependency graph of a schema: each type name with the names its
/// definition references.
pub open spec fn refs_graph(s: SchemaV) -> GraphV {
    s.map_values(|e: (Seq<char>, FieldsV)| (e.0, fields_refs(e.1)))
}

/// A batch of type definitions is accepted: the batch is non-empty and,
/// over the whole merged schema, every name is non-empty and unreserved,
/// every definition well-formed against the merged names, and the
/// reference graph acyclic.
pub open spec fn types_batch_ok(s: SchemaV, types: SchemaV) -> bool {
    let merged = schema_merge(s, types);
    &&& types.len() > 0
    &&& forall|i: int|
        0 <= i < merged.len() ==> ((#[trigger] merged[i]).0.len() > 0 && !reserved_name(
            merged[i].0,
        ) && fields_wf(merged[i].1, schema_dom(merged)))
    &&& !has_cycle_in(refs_graph(merged))
}

/// The names of a list of unit processes, in order.
pub open spec fn up_names(ups: Seq<UnitProcessV>) -> Seq<Seq<char>> {
    ups.map_values(|u: UnitProcessV| u.name)
}

/// A batch of unit processes is accepted: non-empty, every process valid,
/// and the names of old and new processes together pairwise distinct.
pub open spec fn ups_batch_ok(s: SchemaV, existing: Seq<UnitProcessV>, add: Seq<UnitProcessV>) -> bool {
    &&& add.len() > 0
    &&& forall|i: int| 0 <= i < add.len() ==> up_ok(s, #[trigger] add[i])
    &&& seq_distinct(up_names(existing + add))
}

/// A batch of top-level properties is accepted: non-empty, every property
/// valid, and the names of old and new properties together distinct.
pub open spec fn props_batch_ok(s: SchemaV, existing: Seq<PropertiesV>, add: Seq<PropertiesV>) -> bool {
    &&& add.len() > 0
    &&& forall|i: int| 0 <= i < add.len() ==> prop_ok(s, #[trigger] add[i])
    &&& seq_distinct(prop_names(existing + add))
}

/// The first property carrying this name, if any.
pub open spec fn find_prop(props: Seq<PropertiesV>, n: Seq<char>) -> Option<int>
    decreases props.len(),
{
    if props.len() == 0 {
        None
    } else if props[0].name == n {
        Some(0)
    } else {
        match find_prop(props.drop_first(), n) {
            Some(i) => Some(i + 1),
            None => None,
        }
    }
}

/// The first unit process carrying this name, if any.
pub open spec fn find_up(ups: Seq<UnitProcessV>, n: Seq<char>) -> Option<int>
    decreases ups.len(),
{
    if ups.len() == 0 {
        None
    } else if ups[0].name == n {
        Some(0)
    } else {
        match find_up(ups.drop_first(), n) {
            Some(i) => Some(i + 1),
            None => None,
        }
    }
}

/// Deletes named properties in order; each must exist when its turn
/// comes.
pub open spec fn delete_props_spec(props: Seq<PropertiesV>, names: Seq<Seq<char>>) -> Option<
    Seq<PropertiesV>,
>
    decreases names.len(),
{
    if names.len() == 0 {
        Some(props)
    } else {
        match find_prop(props, names[0]) {
            Some(i) => delete_props_spec(props.remove(i), names.drop_first()),
            None => None,
        }
    }
}

/// Replaces named properties in order; each replacement must be valid and
/// each name must exist when its turn comes.
pub open spec fn modify_props_spec(
    s: SchemaV,
    props: Seq<PropertiesV>,
    mods: Seq<(Seq<char>, PropertiesV)>,
) -> Option<Seq<PropertiesV>>
    decreases mods.len(),
{
    if mods.len() == 0 {
        Some(props)
    } else if !prop_ok(s, mods[0].1) {
        None
    } else {
        match find_prop(props, mods[0].0) {
            Some(i) => modify_props_spec(s, props.update(i, mods[0].1), mods.drop_first()),
            None => None,
        }
    }
}

/// The schema without the first entry bound to `n`; unchanged if none is.
pub open spec fn schema_remove_spec(s: SchemaV, n: Seq<char>) -> SchemaV
    decreases s.len(),
{
    if s.len() == 0 {
        s
    } else if s[0].0 == n {
        s.drop_first()
    } else {
        seq![s[0]] + schema_remove_spec(s.drop_first(), n)
    }
}

/// Deletes named types in order; each must exist when its turn comes.
/// Deletion is unconditional: definitions that still reference a deleted
/// name stay as they are.
pub open spec fn delete_types_spec(s: SchemaV, names: Seq<Seq<char>>) -> Option<SchemaV>
    decreases names.len(),
{
    if names.len() == 0 {
        Some(s)
    } else if schema_contains(s, names[0]) {
        delete_types_spec(schema_remove_spec(s, names[0]), names.drop_first())
    } else {
        None
    }
}

/// Deletes named unit processes in order; each must exist when its turn
/// comes.
pub open spec fn delete_ups_spec(ups: Seq<UnitProcessV>, names: Seq<Seq<char>>) -> Option<
    Seq<UnitProcessV>,
>
    decreases names.len(),
{
    if names.len() == 0 {
        Some(ups)
    } else {
        match find_up(ups, names[0]) {
            Some(i) => delete_ups_spec(ups.remove(i), names.drop_first()),
            None => None,
        }
    }
}

/// Replaces named unit processes in order; each replacement must be valid
/// and each name must exist when its turn comes.
pub open spec fn modify_ups_spec(
    s: SchemaV,
    ups: Seq<UnitProcessV>,
    mods: Seq<(Seq<char>, UnitProcessV)>,
) -> Option<Seq<UnitProcessV>>
    decreases mods.len(),
{
    if mods.len() == 0 {
        Some(ups)
    } else if !up_ok(s, mods[0].1) {
        None
    } else {
        match find_up(ups, mods[0].0) {
            Some(i) => modify_ups_spec(s, ups.update(i, mods[0].1), mods.drop_first()),
            None => None,
        }
    }
}

/// Registers the batches in order, each into the first unit process
/// carrying its name; a batch naming no process, or one its process
/// rejects, rejects the whole event.
pub open spec fn register_spec(
    s: SchemaV,
    ups: Seq<UnitProcessV>,
    batch: Seq<UnitDataV>,
) -> Option<Seq<UnitProcessV>>
    decreases batch.len(),
{
    if batch.len() == 0 {
        Some(ups)
    } else {
        match find_up(ups, batch[0].name) {
            Some(i) => match up_register_spec(s, ups[i], batch[0]) {
                Some(u) => register_spec(s, ups.update(i, u), batch.drop_first()),
                None => None,
            },
            None => None,
        }
    }
}

/// The state-transition function: the successor document an event
/// produces, or nothing where the engine rejects the event.
///
/// Initialization is legal exactly once (version 0); every other
/// structural event requires an initialized document and increments the
/// version by exactly 1; data registration requires an initialized
/// document and leaves the version unchanged.
pub open spec fn transition(doc: DocV, ev: EventsV) -> Option<DocV> {
    match ev {
        EventsV::ChangeProductionSystem(op) => {
            if (op is Init) != (doc.version == 0) {
                None
            } else {
                let vdoc = DocV { version: doc.version + 1, ..doc };
                match op {
                    ChangeV::Init { name, unit_process, types, properties } => {
                        if name.len() == 0 {
                            None
                        } else {
                            let d0 = DocV { name: name, ..vdoc };
                            let d1 = match types {
                                None => Some(d0),
                                Some(ts) => if types_batch_ok(d0.custom_types, ts) {
                                    Some(
                                        DocV {
                                            custom_types: schema_merge(d0.custom_types, ts),
                                            ..d0
                                        },
                                    )
                                } else {
                                    None
                                },
                            };
                            match d1 {
                                None => None,
                                Some(d1) => {
                                    let d2 = match unit_process {
                                        None => Some(d1),
                                        Some(ups) => if ups_batch_ok(
                                            d1.custom_types,
                                            d1.unit_process,
                                            ups,
                                        ) {
                                            Some(
                                                DocV {
                                                    unit_process: d1.unit_process + ups,
                                                    ..d1
                                                },
                                            )
                                        } else {
                                            None
                                        },
                                    };
                                    match d2 {
                                        None => None,
                                        Some(d2) => match properties {
                                            None => Some(d2),
                                            Some(ps) => if props_batch_ok(
                                                d2.custom_types,
                                                d2.properties,
                                                ps,
                                            ) {
                                                Some(
                                                    DocV {
                                                        properties: d2.properties + ps,
                                                        ..d2
                                                    },
                                                )
                                            } else {
                                                None
                                            },
                                        },
                                    }
                                },
                            }
                        }
                    },
                    ChangeV::ModifyProductionSystem {
                        name,
                        delete_properties,
                        modify_properties,
                        add_properties,
                    } => {
                        if name is None && delete_properties is None && modify_properties is None
                            && add_properties is None {
                            None
                        } else {
                            let d0 = match name {
                                None => Some(vdoc),
                                Some(n) => if n.len() == 0 {
                                    None
                                } else {
                                    Some(DocV { name: n, ..vdoc })
                                },
                            };
                            match d0 {
                                None => None,
                                Some(d0) => {
                                    let d1 = match delete_properties {
                                        None => Some(d0),
                                        Some(names) => if names.len() == 0 {
                                            None
                                        } else {
                                            match delete_props_spec(d0.properties, names) {
                                                Some(ps) => Some(
                                                    DocV { properties: ps, ..d0 },
                                                ),
                                                None => None,
                                            }
                                        },
                                    };
                                    match d1 {
                                        None => None,
                                        Some(d1) => {
                                            let d2 = match modify_properties {
                                                None => Some(d1),
                                                Some(mods) => if mods.len() == 0 {
                                                    None
                                                } else {
                                                    match modify_props_spec(
                                                        d1.custom_types,
                                                        d1.properties,
                                                        mods,
                                                    ) {
                                                        Some(ps) => Some(
                                                            DocV { properties: ps, ..d1 },
                                                        ),
                                                        None => None,
                                                    }
                                                },
                                            };
                                            match d2 {
                                                None => None,
                                                Some(d2) => match add_properties {
                                                    None => Some(d2),
                                                    Some(ps) => if props_batch_ok(
                                                        d2.custom_types,
                                                        d2.properties,
                                                        ps,
                                                    ) {
                                                        Some(
                                                            DocV {
                                                                properties: d2.properties + ps,
                                                                ..d2
                                                            },
                                                        )
                                                    } else {
                                                        None
                                                    },
                                                },
                                            }
                                        },
                                    }
                                },
                            }
                        }
                    },
                    ChangeV::ModifyTypes { delete, add } => {
                        if delete is None && add is None {
                            None
                        } else {
                            let d0 = match delete {
                                None => Some(vdoc),
                                Some(names) => match delete_types_spec(vdoc.custom_types, names) {
                                    Some(s) => Some(DocV { custom_types: s, ..vdoc }),
                                    None => None,
                                },
                            };
                            match d0 {
                                None => None,
                                Some(d0) => match add {
                                    None => Some(d0),
                                    Some(ts) => if types_batch_ok(d0.custom_types, ts) {
                                        Some(
                                            DocV {
                                                custom_types: schema_merge(d0.custom_types, ts),
                                                ..d0
                                            },
                                        )
                                    } else {
                                        None
                                    },
                                },
                            }
                        }
                    },
                    ChangeV::ModifyUnitProcess { delete, modify, add } => {
                        if delete is None && modify is None && add is None {
                            None
                        } else {
                            let d0 = match delete {
                                None => Some(vdoc),
                                Some(names) => if names.len() == 0 {
                                    None
                                } else {
                                    match delete_ups_spec(vdoc.unit_process, names) {
                                        Some(us) => Some(DocV { unit_process: us, ..vdoc }),
                                        None => None,
                                    }
                                },
                            };
                            match d0 {
                                None => None,
                                Some(d0) => {
                                    let d1 = match modify {
                                        None => Some(d0),
                                        Some(mods) => if mods.len() == 0 {
                                            None
                                        } else {
                                            match modify_ups_spec(
                                                d0.custom_types,
                                                d0.unit_process,
                                                mods,
                                            ) {
                                                Some(us) => Some(
                                                    DocV { unit_process: us, ..d0 },
                                                ),
                                                None => None,
                                            }
                                        },
                                    };
                                    match d1 {
                                        None => None,
                                        Some(d1) => match add {
                                            None => Some(d1),
                                            Some(ups) => if ups_batch_ok(
                                                d1.custom_types,
                                                d1.unit_process,
                                                ups,
                                            ) {
                                                Some(
                                                    DocV {
                                                        unit_process: d1.unit_process + ups,
                                                        ..d1
                                                    },
                                                )
                                            } else {
                                                None
                                            },
                                        },
                                    }
                                },
                            }
                        }
                    },
                }
            }
        },
        EventsV::RegisterData(batch) => {
            if doc.version == 0 {
                None
            } else if batch.len() == 0 {
                None
            } else {
                match register_spec(doc.custom_types, doc.unit_process, batch) {
                    Some(us) => Some(DocV { unit_process: us, ..doc }),
                    None => None,
                }
            }
        },
    }
}

/// The structural invariant the engine maintains on documents: the schema
/// is a genuine mapping (keys distinct) of definitions each well-formed in
/// itself.
pub open spec fn doc_wf(d: DocV) -> bool {
    keys_distinct(d.custom_types) && schema_sane(d.custom_types)
}

/// Every entry after an insert is an old entry or the inserted one; an
/// insert under a fresh name appends; keys stay distinct.
proof fn lemma_insert_spec(s: SchemaV, n: Seq<char>, f: FieldsV)
    ensures
        forall|i: int| 0 <= i < schema_insert_spec(s, n, f).len() ==> ((
        #[trigger] schema_insert_spec(s, n, f)[i]) == (n, f) || exists|j: int|
            0 <= j < s.len() && s[j] == schema_insert_spec(s, n, f)[i]),
        !schema_contains(s, n) ==> schema_insert_spec(s, n, f) == s.push((n, f)),
        keys_distinct(s) ==> keys_distinct(schema_insert_spec(s, n, f)),
    decreases s.len(),
{
    let r = schema_insert_spec(s, n, f);
    if s.len() == 0 {
        assert(r =~= s.push((n, f)));
    } else if s[0].0 == n {
        assert(schema_contains(s, n));
        assert(r =~= s.update(0, (n, f)));
        assert forall|i: int| 0 <= i < r.len() implies ((#[trigger] r[i]) == (n, f) || exists|
            j: int,
        | 0 <= j < s.len() && s[j] == r[i]) by {
            if i > 0 {
                assert(s[i] == r[i]);
            }
        }
        if keys_distinct(s) {
            assert forall|i: int, j: int| 0 <= i < j < r.len() implies r[i].0 != r[j].0 by {
                if i > 0 {
                    assert(r[i] == s[i]);
                }
                assert(r[j] == s[j]);
                assert(r[i].0 == s[i].0);
            }
        }
    } else {
        lemma_insert_spec(s.drop_first(), n, f);
        let d = s.drop_first();
        let rr = schema_insert_spec(d, n, f);
        assert(r =~= seq![s[0]] + rr);
        assert forall|i: int| 0 <= i < s.len() && s[i].0 == n implies schema_contains(d, n) by {
            assert(d[i - 1] == s[i]);
        }
        assert forall|i: int| 0 <= i < r.len() implies ((#[trigger] r[i]) == (n, f) || exists|
            j: int,
        | 0 <= j < s.len() && s[j] == r[i]) by {
            if i == 0 {
                assert(s[0] == r[0]);
            } else {
                assert(r[i] == rr[i - 1]);
                if rr[i - 1] != (n, f) {
                    let j = choose|j: int| 0 <= j < d.len() && d[j] == rr[i - 1];
                    assert(s[j + 1] == rr[i - 1]);
                }
            }
        }
        if !schema_contains(s, n) {
            assert(!schema_contains(d, n)) by {
                if schema_contains(d, n) {
                    let j = choose|j: int| 0 <= j < d.len() && d[j].0 == n;
                    assert(s[j + 1].0 == n);
                }
            }
            assert(r =~= s.push((n, f)));
        }
        if keys_distinct(s) {
            assert(keys_distinct(d)) by {
                assert forall|i: int, j: int| 0 <= i < j < d.len() implies d[i].0 != d[j].0 by {
                    assert(d[i] == s[i + 1]);
                    assert(d[j] == s[j + 1]);
                }
            }
            assert forall|i: int, j: int| 0 <= i < j < r.len() implies r[i].0 != r[j].0 by {
                if i == 0 {
                    assert(r[j] == rr[j - 1]);
                    if rr[j - 1] == (n, f) {
                        assert(r[j].0 == n);
                    } else {
                        let k = choose|k: int| 0 <= k < d.len() && d[k] == rr[j - 1];
                        assert(s[k + 1] == rr[j - 1]);
                        assert(s[0].0 != s[k + 1].0);
                    }
                } else {
                    assert(r[i] == rr[i - 1]);
                    assert(r[j] == rr[j - 1]);
                }
            }
        }
    }
}

/// Merging a batch keeps the keys distinct, and every merged entry is an
/// old entry or one of the batch.
proof fn lemma_merge_entries(s: SchemaV, adds: SchemaV)
    ensures
        forall|i: int| 0 <= i < schema_merge(s, adds).len() ==> {
            let e = #[trigger] schema_merge(s, adds)[i];
            (exists|j: int| 0 <= j < s.len() && s[j] == e) || (exists|j: int|
                0 <= j < adds.len() && adds[j] == e)
        },
        keys_distinct(s) ==> keys_distinct(schema_merge(s, adds)),
    decreases adds.len(),
{
    if adds.len() == 0 {
        assert forall|i: int| 0 <= i < schema_merge(s, adds).len() implies {
            let e = #[trigger] schema_merge(s, adds)[i];
            (exists|j: int| 0 <= j < s.len() && s[j] == e) || (exists|j: int|
                0 <= j < adds.len() && adds[j] == e)
        } by {
            assert(s[i] == schema_merge(s, adds)[i]);
        }
    } else {
        let s1 = schema_insert_spec(s, adds[0].0, adds[0].1);
        lemma_insert_spec(s, adds[0].0, adds[0].1);
        lemma_merge_entries(s1, adds.drop_first());
        assert forall|i: int| 0 <= i < schema_merge(s, adds).len() implies {
            let e = #[trigger] schema_merge(s, adds)[i];
            (exists|j: int| 0 <= j < s.len() && s[j] == e) || (exists|j: int|
                0 <= j < adds.len() && adds[j] == e)
        } by {
            let e = schema_merge(s, adds)[i];
            assert(schema_merge(s1, adds.drop_first())[i] == e);
            if exists|j: int| 0 <= j < s1.len() && s1[j] == e {
                let j = choose|j: int| 0 <= j < s1.len() && s1[j] == e;
                if s1[j] == (adds[0].0, adds[0].1) {
                    assert(adds[0].0 == e.0 && adds[0].1 == e.1);
                    assert(adds[0] == e);
                }
            } else {
                let j = choose|j: int|
                    0 <= j < adds.drop_first().len() && adds.drop_first()[j] == e;
                assert(adds[j + 1] == e);
            }
        }
    }
}

/// Appending one more definition to the batch merges it last.
proof fn lemma_merge_snoc(s: SchemaV, adds: SchemaV, n: Seq<char>, f: FieldsV)
    ensures
        schema_merge(s, adds.push((n, f))) == schema_insert_spec(schema_merge(s, adds), n, f),
    decreases adds.len(),
{
    let ext = adds.push((n, f));
    if adds.len() == 0 {
        assert(ext[0] == (n, f));
        assert(ext[0].0 == n && ext[0].1 == f);
        assert(ext.drop_first() =~= Seq::<(Seq<char>, FieldsV)>::empty());
        assert(schema_merge(s, ext) == schema_merge(
            schema_insert_spec(s, n, f),
            ext.drop_first(),
        ));
        assert(schema_merge(schema_insert_spec(s, n, f), ext.drop_first())
            == schema_insert_spec(s, n, f));
        assert(schema_merge(s, adds) == s);
    } else {
        assert(ext[0] == adds[0]);
        assert(ext[0].0 == adds[0].0 && ext[0].1 == adds[0].1);
        assert(ext.drop_first() =~= adds.drop_first().push((n, f)));
        assert(schema_merge(s, ext) == schema_merge(
            schema_insert_spec(s, adds[0].0, adds[0].1),
            ext.drop_first(),
        ));
        lemma_merge_snoc(schema_insert_spec(s, adds[0].0, adds[0].1), adds.drop_first(), n, f);
    }
}

/// A well-formed type expression stays well-formed when more names become
/// available.
proof fn lemma_type_wf_full(t: crate::types::TypeV, dom: Set<Seq<char>>)
    requires
        crate::types::type_wf(t, dom),
    ensures
        crate::types::type_wf(t, Set::full()),
    decreases t,
{
    match t {
        crate::types::TypeV::Array(inner) => lemma_type_wf_full(*inner, dom),
        crate::types::TypeV::Optional(inner) => lemma_type_wf_full(*inner, dom),
        crate::types::TypeV::Union(vs) => {
            assert forall|i: int|
                0 <= i < vs.len() implies ((#[trigger] vs[i]).0.len() > 0 && !(vs[i].1
                is Optional) && crate::types::type_wf(vs[i].1, Set::full())) by {
                lemma_type_wf_full(vs[i].1, dom);
            }
            assert(crate::types::TypeV::Union(vs)->Union_0 == vs);
        },
        _ => {},
    }
}

/// A well-formed definition body is well-formed in itself.
proof fn lemma_fields_wf_full(f: FieldsV, dom: Set<Seq<char>>)
    requires
        fields_wf(f, dom),
    ensures
        fields_wf(f, Set::full()),
{
    match f {
        FieldsV::Basic(t) => lemma_type_wf_full(t, dom),
        FieldsV::Object(fs) => {
            assert forall|i: int|
                0 <= i < fs.len() implies ((#[trigger] fs[i]).0.len() > 0 && !(fs[i].1
                is Invalid) && crate::types::type_wf(fs[i].1, Set::full())) by {
                lemma_type_wf_full(fs[i].1, dom);
            }
            assert(FieldsV::Object(fs)->Object_0 == fs);
        },
    }
}

/// Binds one definition in the schema, replacing the first entry so named
/// or appending a new one.
#[verifier::loop_isolation(false)]
fn schema_insert(schema: &mut Schema, name: String, f: Fields)
    ensures
        schema_view(final(schema)@) == schema_insert_spec(schema_view(old(schema)@), name@, f@),
{
    broadcast use crate::types::lemma_schema_view;

    let ghost sv = schema_view(schema@);
    let mut i: usize = 0;
    while i < schema.len()
        invariant
            i <= schema.len(),
            schema@ == old(schema)@,
            forall|j: int| 0 <= j < i as int ==> sv[j].0 != name@,
        decreases schema.len() - i,
    {
        if schema[i].0 == name {
            proof {
                assert(sv[i as int].0 == name@);
            }
            schema.set(i, (name, f));
            proof {
                assert(schema_view(schema@) =~= sv.update(i as int, (name@, fields_view(f))));
                lemma_insert_at(sv, name@, fields_view(f), i as int);
            }
            return ;
        }
        i = i + 1;
    }
    schema.push((name, f));
    proof {
        assert(schema_view(schema@) =~= sv.push((name@, fields_view(f))));
        lemma_insert_spec(sv, name@, fields_view(f));
        assert(!schema_contains(sv, name@));
    }
}

/// Whether a user type name collides with the built-in vocabulary.
fn is_reserved(name: &String) -> (r: bool)
    ensures
        r == reserved_name(name@),
{
    crate::validate::str_is(name, "String") || crate::validate::str_is(name, "bool")
        || crate::validate::str_is(name, "i64") || crate::validate::str_is(name, "f64")
        || crate::validate::str_is(name, "u64") || crate::validate::str_is(name, "Dummy")
        || crate::validate::str_is(name, "Option") || crate::validate::str_is(name, "Enum")
        || crate::validate::str_is(name, "Type") || crate::validate::str_is(name, "Vec")
}

/// Merges a batch of type definitions into the document's schema:
/// accepted exactly when the whole merged schema has non-empty,
/// unreserved names, well-formed definitions and an acyclic reference
/// graph; a rejected batch leaves the document untouched.
#[verifier::loop_isolation(false)]
pub fn add_types(state: &mut ProductionSystem, types: Vec<(String, Fields)>) -> (r: Result<
    (),
    Error,
>)
    ensures
        r is Ok <==> types_batch_ok(
            schema_view(old(state).custom_types@),
            schema_view(types@),
        ),
        r is Ok ==> final(state)@ == (DocV {
            custom_types: schema_merge(
                schema_view(old(state).custom_types@),
                schema_view(types@),
            ),
            ..old(state)@
        }),
        r is Err ==> *final(state) == *old(state),
        r is Ok && keys_distinct(schema_view(old(state).custom_types@)) ==> (keys_distinct(
            schema_view(final(state).custom_types@),
        ) && schema_sane(schema_view(final(state).custom_types@))),
        r matches Err(e) ==> (e is EmptyBatch || e is EmptyName || e is ReservedName
            || e is TypeMismatch || e is UnknownName || e is DuplicateName || e is SchemaCycle),
{
    broadcast use {crate::types::lemma_schema_view, crate::cycle::lemma_graph_view};

    let ghost sv0 = schema_view(state.custom_types@);
    let ghost tv = schema_view(types@);
    let ghost merged = schema_merge(sv0, tv);

    if types.len() == 0 {
        return Err(Error::EmptyBatch);
    }

    let mut temporal = crate::types::clone_schema(&state.custom_types);
    let mut idx: usize = 0;
    while idx < types.len()
        invariant
            idx <= types.len(),
            schema_view(temporal@) == schema_merge(sv0, tv.subrange(0, idx as int)),
        decreases types.len() - idx,
    {
        let n = types[idx].0.clone();
        let f = types[idx].1.clone();
        proof {
            assert(tv.subrange(0, idx as int + 1) =~= tv.subrange(0, idx as int).push(
                tv[idx as int],
            ));
            assert(tv[idx as int] == (tv[idx as int].0, tv[idx as int].1));
            lemma_merge_snoc(sv0, tv.subrange(0, idx as int), tv[idx as int].0, tv[idx as int].1);
            assert(n@ == tv[idx as int].0);
            assert(f@ == tv[idx as int].1);
        }
        schema_insert(&mut temporal, n, f);
        idx = idx + 1;
    }
    proof {
        assert(tv.subrange(0, types@.len() as int) =~= tv);
        assert(schema_view(temporal@) == merged);
    }

    let mut graph: crate::cycle::Graph = Vec::new();
    let ghost mv = schema_view(temporal@);
    let mut i: usize = 0;
    while i < temporal.len()
        invariant
            i <= temporal.len(),
            schema_view(temporal@) == merged,
            graph@.len() == i as int,
            forall|j: int| 0 <= j < i as int ==> graph_view(graph@)[j] == (
                merged[j].0,
                fields_refs(merged[j].1),
            ),
            forall|j: int| 0 <= j < i as int ==> ((#[trigger] merged[j]).0.len() > 0
                && !reserved_name(merged[j].0) && fields_wf(merged[j].1, schema_dom(merged))),
        decreases temporal.len() - i,
    {
        if temporal[i].0.as_str().is_empty() {
            proof {
                assert(merged[i as int].0.len() == 0);
            }
            return Err(Error::EmptyName);
        }
        if is_reserved(&temporal[i].0) {
            proof {
                assert(reserved_name(merged[i as int].0));
            }
            return Err(Error::ReservedName(temporal[i].0.clone()));
        }
        let refs = match temporal[i].1.check_data(&temporal) {
            Ok(refs) => refs,
            Err(e) => {
                proof {
                    assert(!fields_wf(merged[i as int].1, schema_dom(merged)));
                }
                return Err(e);
            },
        };
        let nm = temporal[i].0.clone();
        let ghost gpre = graph@;
        graph.push((nm, refs));
        proof {
            assert forall|j: int| 0 <= j < i as int + 1 implies graph_view(graph@)[j] == (
                merged[j].0,
                fields_refs(merged[j].1),
            ) by {
                assert(graph_view(graph@)[j] == (graph@[j].0@, graph@[j].1.deep_view()));
                if j < i as int {
                    assert(graph@[j] == gpre[j]);
                    assert(graph_view(gpre)[j] == (gpre[j].0@, gpre[j].1.deep_view()));
                }
            }
        }
        i = i + 1;
    }
    proof {
        assert(graph_view(graph@) =~= refs_graph(merged));
    }
    match crate::cycle::check_cycle(&graph) {
        Ok(()) => {},
        Err(e) => {
            return Err(e);
        },
    }
    state.custom_types = temporal;
    proof {
        if keys_distinct(sv0) {
            lemma_merge_entries(sv0, tv);
            assert forall|i2: int| 0 <= i2 < merged.len() implies fields_wf(
                (#[trigger] merged[i2]).1,
                Set::full(),
            ) by {
                lemma_fields_wf_full(merged[i2].1, schema_dom(merged));
            }
        }
    }
    Ok(())
}

/// Appends a batch of unit processes: accepted exactly when the batch is
/// non-empty, every process is valid, and the names of old and new
/// processes together stay pairwise distinct; a rejected batch leaves the
/// document untouched.
#[verifier::loop_isolation(false)]
pub fn add_unit_process(state: &mut ProductionSystem, add: Vec<UnitProcess>) -> (r: Result<
    (),
    Error,
>)
    requires
        schema_sane(schema_view(old(state).custom_types@)),
    ensures
        r is Ok <==> ups_batch_ok(
            schema_view(old(state).custom_types@),
            ups_view(old(state).unit_process@),
            ups_view(add@),
        ),
        r is Ok ==> final(state)@ == (DocV {
            unit_process: ups_view(old(state).unit_process@) + ups_view(add@),
            ..old(state)@
        }),
        r is Err ==> *final(state) == *old(state),
        r matches Err(e) ==> (e is EmptyBatch || e is EmptyName || e is TypeMismatch
            || e is UnknownName || e is DuplicateName),
{
    let ghost s = schema_view(state.custom_types@);
    let ghost ev = ups_view(state.unit_process@);
    let ghost av = ups_view(add@);
    let ghost allnames = up_names(ev + av);

    if add.len() == 0 {
        return Err(Error::EmptyBatch);
    }

    let mut i: usize = 0;
    while i < add.len()
        invariant
            i <= add.len(),
            forall|j: int| 0 <= j < i as int ==> up_ok(s, #[trigger] av[j]),
        decreases add.len() - i,
    {
        match add[i].check_data(&state.custom_types) {
            Ok(()) => {},
            Err(e) => {
                proof {
                    assert(!up_ok(s, av[i as int]));
                }
                return Err(e);
            },
        }
        i = i + 1;
    }

    let mut names: Vec<String> = Vec::new();
    let mut k: usize = 0;
    while k < state.unit_process.len()
        invariant
            k <= state.unit_process.len(),
            names@.len() == k as int,
            forall|j: int| 0 <= j < k as int ==> (#[trigger] names@[j])@ == allnames[j],
        decreases state.unit_process.len() - k,
    {
        names.push(state.unit_process[k].name.clone());
        proof {
            assert(allnames[k as int] == ev[k as int].name);
        }
        k = k + 1;
    }
    let mut k2: usize = 0;
    while k2 < add.len()
        invariant
            k2 <= add.len(),
            names@.len() == state.unit_process@.len() + k2 as int,
            forall|j: int| 0 <= j < names@.len() ==> (#[trigger] names@[j])@ == allnames[j],
        decreases add.len() - k2,
    {
        names.push(add[k2].name.clone());
        proof {
            assert(allnames[names@.len() - 1] == av[k2 as int].name);
        }
        k2 = k2 + 1;
    }
    proof {
        assert forall|j: int| 0 <= j < names@.len() implies names.deep_view()[j]
            == allnames[j] by {
            assert(names.deep_view()[j] == names@[j]@);
        }
        assert(names.deep_view() =~= allnames);
    }
    match crate::types::find_duplicate(&names) {
        Some(d) => {
            proof {
                let di = d as int;
                let j = choose|j: int|
                    0 <= j < di && names.deep_view()[j] == names.deep_view()[di];
                assert(allnames[j] == allnames[di]);
                assert(!seq_distinct(allnames));
            }
            return Err(Error::DuplicateName(names[d].clone()));
        },
        None => {},
    }

    let mut p: usize = 0;
    while p < add.len()
        invariant
            p <= add.len(),
            state.unit_process@.len() == old(state).unit_process@.len() + p as int,
            ups_view(state.unit_process@) =~= ev + av.subrange(0, p as int),
            state.name == old(state).name,
            state.custom_types == old(state).custom_types,
            state.version == old(state).version,
            state.properties == old(state).properties,
        decreases add.len() - p,
    {
        let ghost upre = state.unit_process@;
        state.unit_process.push(add[p].clone());
        proof {
            assert forall|j: int|
                0 <= j < state.unit_process@.len() implies ups_view(state.unit_process@)[j] == (
            ev + av.subrange(0, p as int + 1))[j] by {
                assert(ups_view(state.unit_process@)[j] == state.unit_process@[j]@);
                if j < upre.len() {
                    assert(state.unit_process@[j] == upre[j]);
                    assert(ups_view(upre)[j] == upre[j]@);
                }
            }
            assert(ups_view(state.unit_process@) =~= ev + av.subrange(0, p as int + 1));
        }
        p = p + 1;
    }
    proof {
        assert(av.subrange(0, add@.len() as int) =~= av);
        assert(ups_view(state.unit_process@) == ev + av);
    }
    Ok(())
}

/// Appends a batch of top-level properties: accepted exactly when the
/// batch is non-empty, every property is valid, and the names of old and
/// new properties together stay pairwise distinct; a rejected batch
/// leaves the document untouched.
#[verifier::loop_isolation(false)]
pub fn add_new_properties(state: &mut ProductionSystem, properties: Vec<Properties>) -> (r: Result<
    (),
    Error,
>)
    requires
        schema_sane(schema_view(old(state).custom_types@)),
    ensures
        r is Ok <==> props_batch_ok(
            schema_view(old(state).custom_types@),
            props_view(old(state).properties@),
            props_view(properties@),
        ),
        r is Ok ==> final(state)@ == (DocV {
            properties: props_view(old(state).properties@) + props_view(properties@),
            ..old(state)@
        }),
        r is Err ==> *final(state) == *old(state),
        r matches Err(e) ==> (e is EmptyBatch || e is EmptyName || e is TypeMismatch
            || e is UnknownName || e is DuplicateName),
{
    let ghost s = schema_view(state.custom_types@);
    let ghost ev = props_view(state.properties@);
    let ghost av = props_view(properties@);
    let ghost allnames = prop_names(ev + av);

    if properties.len() == 0 {
        return Err(Error::EmptyBatch);
    }

    let mut i: usize = 0;
    while i < properties.len()
        invariant
            i <= properties.len(),
            forall|j: int| 0 <= j < i as int ==> prop_ok(s, #[trigger] av[j]),
        decreases properties.len() - i,
    {
        match properties[i].check_data(&state.custom_types) {
            Ok(()) => {},
            Err(e) => {
                proof {
                    assert(!prop_ok(s, av[i as int]));
                }
                return Err(e);
            },
        }
        i = i + 1;
    }

    let mut names: Vec<String> = Vec::new();
    let mut k: usize = 0;
    while k < state.properties.len()
        invariant
            k <= state.properties.len(),
            names@.len() == k as int,
            forall|j: int| 0 <= j < k as int ==> (#[trigger] names@[j])@ == allnames[j],
        decreases state.properties.len() - k,
    {
        names.push(state.properties[k].name.clone());
        proof {
            assert(allnames[k as int] == ev[k as int].name);
        }
        k = k + 1;
    }
    let mut k2: usize = 0;
    while k2 < properties.len()
        invariant
            k2 <= properties.len(),
            names@.len() == state.properties@.len() + k2 as int,
            forall|j: int| 0 <= j < names@.len() ==> (#[trigger] names@[j])@ == allnames[j],
        decreases properties.len() - k2,
    {
        names.push(properties[k2].name.clone());
        proof {
            assert(allnames[names@.len() - 1] == av[k2 as int].name);
        }
        k2 = k2 + 1;
    }
    proof {
        assert forall|j: int| 0 <= j < names@.len() implies names.deep_view()[j]
            == allnames[j] by {
            assert(names.deep_view()[j] == names@[j]@);
        }
        assert(names.deep_view() =~= allnames);
    }
    match crate::types::find_duplicate(&names) {
        Some(d) => {
            proof {
                let di = d as int;
                let j = choose|j: int|
                    0 <= j < di && names.deep_view()[j] == names.deep_view()[di];
                assert(allnames[j] == allnames[di]);
                assert(!seq_distinct(allnames));
            }
            return Err(Error::DuplicateName(names[d].clone()));
        },
        None => {},
    }

    let mut p: usize = 0;
    while p < properties.len()
        invariant
            p <= properties.len(),
            state.properties@.len() == old(state).properties@.len() + p as int,
            props_view(state.properties@) =~= ev + av.subrange(0, p as int),
            state.name == old(state).name,
            state.custom_types == old(state).custom_types,
            state.version == old(state).version,
            state.unit_process == old(state).unit_process,
        decreases properties.len() - p,
    {
        let ghost ppre = state.properties@;
        state.properties.push(properties[p].clone());
        proof {
            assert forall|j: int|
                0 <= j < state.properties@.len() implies props_view(state.properties@)[j] == (
            ev + av.subrange(0, p as int + 1))[j] by {
                assert(props_view(state.properties@)[j] == state.properties@[j]@);
                if j < ppre.len() {
                    assert(state.properties@[j] == ppre[j]);
                    assert(props_view(ppre)[j] == ppre[j]@);
                }
            }
            assert(props_view(state.properties@) =~= ev + av.subrange(0, p as int + 1));
        }
        p = p + 1;
    }
    proof {
        assert(av.subrange(0, properties@.len() as int) =~= av);
        assert(props_view(state.properties@) == ev + av);
    }
    Ok(())
}

/// A find at the first matching index is what the specification finds.
proof fn lemma_find_prop_at(props: Seq<PropertiesV>, n: Seq<char>, i: int)
    requires
        0 <= i < props.len(),
        props[i].name == n,
        forall|j: int| 0 <= j < i ==> (#[trigger] props[j]).name != n,
    ensures
        find_prop(props, n) == Some(i),
    decreases i,
{
    if i > 0 {
        assert forall|j: int| 0 <= j < i - 1 implies (#[trigger] props.drop_first()[j]).name
            != n by {
            assert(props.drop_first()[j] == props[j + 1]);
        }
        assert(props.drop_first()[i - 1] == props[i]);
        lemma_find_prop_at(props.drop_first(), n, i - 1);
    }
}

/// With no property so named, the specification finds nothing.
proof fn lemma_find_prop_none(props: Seq<PropertiesV>, n: Seq<char>)
    requires
        forall|j: int| 0 <= j < props.len() ==> (#[trigger] props[j]).name != n,
    ensures
        find_prop(props, n) is None,
    decreases props.len(),
{
    if props.len() > 0 {
        assert forall|j: int| 0 <= j < props.drop_first().len() implies (
        #[trigger] props.drop_first()[j]).name != n by {
            assert(props.drop_first()[j] == props[j + 1]);
        }
        lemma_find_prop_none(props.drop_first(), n);
    }
}

/// A find at the first matching index is what the specification finds.
proof fn lemma_find_up_at(ups: Seq<UnitProcessV>, n: Seq<char>, i: int)
    requires
        0 <= i < ups.len(),
        ups[i].name == n,
        forall|j: int| 0 <= j < i ==> (#[trigger] ups[j]).name != n,
    ensures
        find_up(ups, n) == Some(i),
    decreases i,
{
    if i > 0 {
        assert forall|j: int| 0 <= j < i - 1 implies (#[trigger] ups.drop_first()[j]).name
            != n by {
            assert(ups.drop_first()[j] == ups[j + 1]);
        }
        assert(ups.drop_first()[i - 1] == ups[i]);
        lemma_find_up_at(ups.drop_first(), n, i - 1);
    }
}

/// With no unit process so named, the specification finds nothing.
proof fn lemma_find_up_none(ups: Seq<UnitProcessV>, n: Seq<char>)
    requires
        forall|j: int| 0 <= j < ups.len() ==> (#[trigger] ups[j]).name != n,
    ensures
        find_up(ups, n) is None,
    decreases ups.len(),
{
    if ups.len() > 0 {
        assert forall|j: int| 0 <= j < ups.drop_first().len() implies (
        #[trigger] ups.drop_first()[j]).name != n by {
            assert(ups.drop_first()[j] == ups[j + 1]);
        }
        lemma_find_up_none(ups.drop_first(), n);
    }
}

/// Finds the first property carrying the name, if any.
#[verifier::loop_isolation(false)]
fn find_prop_exec(props: &Vec<Properties>, name: &String) -> (r: Option<usize>)
    ensures
        r matches Some(i) ==> i < props@.len() && find_prop(props_view(props@), name@) == Some(
            i as int,
        ),
        r is None ==> find_prop(props_view(props@), name@) is None,
{
    let ghost pv = props_view(props@);
    let mut i: usize = 0;
    while i < props.len()
        invariant
            i <= props.len(),
            forall|j: int| 0 <= j < i as int ==> (#[trigger] pv[j]).name != name@,
        decreases props.len() - i,
    {
        if props[i].name == *name {
            proof {
                lemma_find_prop_at(pv, name@, i as int);
            }
            return Some(i);
        }
        i = i + 1;
    }
    proof {
        lemma_find_prop_none(pv, name@);
    }
    None
}

/// Finds the first unit process carrying the name, if any.
#[verifier::loop_isolation(false)]
fn find_up_exec(ups: &Vec<UnitProcess>, name: &String) -> (r: Option<usize>)
    ensures
        r matches Some(i) ==> i < ups@.len() && find_up(ups_view(ups@), name@) == Some(i as int),
        r is None ==> find_up(ups_view(ups@), name@) is None,
{
    let ghost uv = ups_view(ups@);
    let mut i: usize = 0;
    while i < ups.len()
        invariant
            i <= ups.len(),
            forall|j: int| 0 <= j < i as int ==> (#[trigger] uv[j]).name != name@,
        decreases ups.len() - i,
    {
        if ups[i].name == *name {
            proof {
                lemma_find_up_at(uv, name@, i as int);
            }
            return Some(i);
        }
        i = i + 1;
    }
    proof {
        lemma_find_up_none(uv, name@);
    }
    None
}

/// Removing at the first entry carrying the name is the specified removal.
proof fn lemma_remove_at(s: SchemaV, n: Seq<char>, i: int)
    requires
        0 <= i < s.len(),
        s[i].0 == n,
        forall|j: int| 0 <= j < i ==> s[j].0 != n,
    ensures
        schema_remove_spec(s, n) == s.remove(i),
    decreases i,
{
    if i == 0 {
        assert(schema_remove_spec(s, n) =~= s.remove(0));
    } else {
        assert forall|j: int| 0 <= j < i - 1 implies s.drop_first()[j].0 != n by {
            assert(s.drop_first()[j] == s[j + 1]);
        }
        assert(s.drop_first()[i - 1] == s[i]);
        lemma_remove_at(s.drop_first(), n, i - 1);
        assert(schema_remove_spec(s, n) =~= s.remove(i));
    }
}

/// Deletes named top-level properties in order; rejection leaves the list
/// untouched.
#[verifier::loop_isolation(false)]
fn delete_properties_exec(props: &mut Vec<Properties>, names: &Vec<String>) -> (r: Result<
    (),
    Error,
>)
    ensures
        r is Ok <==> delete_props_spec(props_view(old(props)@), names.deep_view()) is Some,
        r is Ok ==> Some(props_view(final(props)@)) == delete_props_spec(
            props_view(old(props)@),
            names.deep_view(),
        ),
        r is Err ==> *final(props) == *old(props),
        r matches Err(e) ==> e is NotFound,
{
    let ghost pv0 = props_view(props@);
    let ghost nv = names.deep_view();
    proof {
        assert(nv.skip(0) =~= nv);
    }
    let mut work = crate::document::clone_props(props);
    let mut k: usize = 0;
    while k < names.len()
        invariant
            k <= names.len(),
            delete_props_spec(pv0, nv) == delete_props_spec(
                props_view(work@),
                nv.skip(k as int),
            ),
        decreases names.len() - k,
    {
        proof {
            assert(nv.skip(k as int)[0] == names@[k as int]@);
            assert(nv.skip(k as int).drop_first() =~= nv.skip(k as int + 1));
        }
        match find_prop_exec(&work, &names[k]) {
            Some(i) => {
                let ghost wpre = props_view(work@);
                work.remove(i);
                proof {
                    assert(props_view(work@) =~= wpre.remove(i as int));
                }
            },
            None => {
                return Err(Error::NotFound(names[k].clone()));
            },
        }
        k = k + 1;
    }
    proof {
        assert(nv.skip(names@.len() as int) =~= Seq::<Seq<char>>::empty());
    }
    *props = work;
    Ok(())
}

/// Replaces named top-level properties in order; rejection leaves the
/// list untouched.
#[verifier::loop_isolation(false)]
fn modify_properties_exec(
    props: &mut Vec<Properties>,
    mods: &Vec<(String, Properties)>,
    custom_types: &Schema,
) -> (r: Result<(), Error>)
    requires
        schema_sane(schema_view(custom_types@)),
    ensures
        r is Ok <==> modify_props_spec(
            schema_view(custom_types@),
            props_view(old(props)@),
            named_props_view(mods@),
        ) is Some,
        r is Ok ==> Some(props_view(final(props)@)) == modify_props_spec(
            schema_view(custom_types@),
            props_view(old(props)@),
            named_props_view(mods@),
        ),
        r is Err ==> *final(props) == *old(props),
        r matches Err(e) ==> (e is EmptyName || e is TypeMismatch || e is UnknownName
            || e is NotFound),
{
    let ghost s = schema_view(custom_types@);
    let ghost pv0 = props_view(props@);
    let ghost mv = named_props_view(mods@);
    proof {
        assert(mv.skip(0) =~= mv);
    }
    let mut work = crate::document::clone_props(props);
    let mut k: usize = 0;
    while k < mods.len()
        invariant
            k <= mods.len(),
            modify_props_spec(s, pv0, mv) == modify_props_spec(
                s,
                props_view(work@),
                mv.skip(k as int),
            ),
        decreases mods.len() - k,
    {
        proof {
            assert(mv.skip(k as int)[0] == (mods@[k as int].0@, mods@[k as int].1@));
            assert(mv.skip(k as int).drop_first() =~= mv.skip(k as int + 1));
        }
        match mods[k].1.check_data(custom_types) {
            Ok(()) => {},
            Err(e) => {
                return Err(e);
            },
        }
        match find_prop_exec(&work, &mods[k].0) {
            Some(i) => {
                let ghost wpre = props_view(work@);
                work.set(i, mods[k].1.clone());
                proof {
                    assert(props_view(work@) =~= wpre.update(i as int, mods@[k as int].1@));
                }
            },
            None => {
                return Err(Error::NotFound(mods[k].0.clone()));
            },
        }
        k = k + 1;
    }
    proof {
        assert(mv.skip(mods@.len() as int) =~= Seq::<(Seq<char>, PropertiesV)>::empty());
    }
    *props = work;
    Ok(())
}

/// Finds the first schema entry carrying the name, if any.
#[verifier::loop_isolation(false)]
fn schema_find(schema: &Schema, name: &String) -> (r: Option<usize>)
    ensures
        r matches Some(i) ==> i < schema@.len() && schema_view(schema@)[i as int].0 == name@
            && (forall|j: int| 0 <= j < i as int ==> schema_view(schema@)[j].0 != name@),
        r is None ==> !schema_contains(schema_view(schema@), name@),
{
    broadcast use crate::types::lemma_schema_view;

    let ghost sv = schema_view(schema@);
    let mut i: usize = 0;
    while i < schema.len()
        invariant
            i <= schema.len(),
            forall|j: int| 0 <= j < i as int ==> sv[j].0 != name@,
        decreases schema.len() - i,
    {
        if schema[i].0 == *name {
            return Some(i);
        }
        i = i + 1;
    }
    proof {
        if schema_contains(sv, name@) {
            let j = choose|j: int| 0 <= j < sv.len() && sv[j].0 == name@;
            assert(false);
        }
    }
    None
}

/// Deletes named types from the schema in order; a deleted type may still
/// be referenced by others — deletion is unconditional. Rejection leaves
/// the schema untouched.
#[verifier::loop_isolation(false)]
fn delete_types_exec(schema: &mut Schema, names: &Vec<String>) -> (r: Result<(), Error>)
    ensures
        r is Ok <==> delete_types_spec(schema_view(old(schema)@), names.deep_view()) is Some,
        r is Ok ==> Some(schema_view(final(schema)@)) == delete_types_spec(
            schema_view(old(schema)@),
            names.deep_view(),
        ),
        r is Ok && keys_distinct(schema_view(old(schema)@)) ==> keys_distinct(
            schema_view(final(schema)@),
        ),
        r is Ok && schema_sane(schema_view(old(schema)@)) ==> schema_sane(
            schema_view(final(schema)@),
        ),
        r is Err ==> *final(schema) == *old(schema),
        r matches Err(e) ==> e is NotFound,
{
    broadcast use crate::types::lemma_schema_view;

    let ghost sv0 = schema_view(schema@);
    let ghost nv = names.deep_view();
    proof {
        assert(nv.skip(0) =~= nv);
    }
    let mut work = crate::types::clone_schema(schema);
    let mut k: usize = 0;
    while k < names.len()
        invariant
            k <= names.len(),
            delete_types_spec(sv0, nv) == delete_types_spec(
                schema_view(work@),
                nv.skip(k as int),
            ),
            keys_distinct(sv0) ==> keys_distinct(schema_view(work@)),
            schema_sane(sv0) ==> schema_sane(schema_view(work@)),
        decreases names.len() - k,
    {
        proof {
            assert(nv.skip(k as int)[0] == names@[k as int]@);
            assert(nv.skip(k as int).drop_first() =~= nv.skip(k as int + 1));
        }
        let ghost wv = schema_view(work@);
        let i = match schema_find(&work, &names[k]) {
            Some(i) => i,
            None => {
                return Err(Error::NotFound(names[k].clone()));
            },
        };
        proof {
            assert(schema_contains(wv, names@[k as int]@));
            lemma_remove_at(wv, names@[k as int]@, i as int);
        }
        work.remove(i);
        proof {
            assert(schema_view(work@) =~= wv.remove(i as int));
            if keys_distinct(wv) {
                assert forall|a: int, b: int|
                    0 <= a < b < schema_view(work@).len() implies schema_view(work@)[a].0
                    != schema_view(work@)[b].0 by {
                    let w2 = wv.remove(i as int);
                    assert(w2[a] == (if a < i as int {
                        wv[a]
                    } else {
                        wv[a + 1]
                    }));
                    assert(w2[b] == (if b < i as int {
                        wv[b]
                    } else {
                        wv[b + 1]
                    }));
                }
            }
            if schema_sane(wv) {
                assert forall|a: int|
                    0 <= a < schema_view(work@).len() implies fields_wf(
                    (#[trigger] schema_view(work@)[a]).1,
                    Set::full(),
                ) by {
                    let w2 = wv.remove(i as int);
                    assert(w2[a] == (if a < i as int {
                        wv[a]
                    } else {
                        wv[a + 1]
                    }));
                }
            }
        }
        k = k + 1;
    }
    proof {
        assert(nv.skip(names@.len() as int) =~= Seq::<Seq<char>>::empty());
    }
    *schema = work;
    Ok(())
}

/// Deletes named unit processes in order; rejection leaves the list
/// untouched.
#[verifier::loop_isolation(false)]
fn delete_ups_exec(ups: &mut Vec<UnitProcess>, names: &Vec<String>) -> (r: Result<(), Error>)
    ensures
        r is Ok <==> delete_ups_spec(ups_view(old(ups)@), names.deep_view()) is Some,
        r is Ok ==> Some(ups_view(final(ups)@)) == delete_ups_spec(
            ups_view(old(ups)@),
            names.deep_view(),
        ),
        r is Err ==> *final(ups) == *old(ups),
        r matches Err(e) ==> e is NotFound,
{
    let ghost uv0 = ups_view(ups@);
    let ghost nv = names.deep_view();
    proof {
        assert(nv.skip(0) =~= nv);
    }
    let mut work = crate::document::clone_ups(ups);
    let mut k: usize = 0;
    while k < names.len()
        invariant
            k <= names.len(),
            delete_ups_spec(uv0, nv) == delete_ups_spec(ups_view(work@), nv.skip(k as int)),
        decreases names.len() - k,
    {
        proof {
            assert(nv.skip(k as int)[0] == names@[k as int]@);
            assert(nv.skip(k as int).drop_first() =~= nv.skip(k as int + 1));
        }
        match find_up_exec(&work, &names[k]) {
            Some(i) => {
                let ghost wpre = ups_view(work@);
                work.remove(i);
                proof {
                    assert(ups_view(work@) =~= wpre.remove(i as int));
                }
            },
            None => {
                return Err(Error::NotFound(names[k].clone()));
            },
        }
        k = k + 1;
    }
    proof {
        assert(nv.skip(names@.len() as int) =~= Seq::<Seq<char>>::empty());
    }
    *ups = work;
    Ok(())
}

/// Replaces named unit processes in order; rejection leaves the list
/// untouched.
#[verifier::loop_isolation(false)]
fn modify_ups_exec(
    ups: &mut Vec<UnitProcess>,
    mods: &Vec<(String, UnitProcess)>,
    custom_types: &Schema,
) -> (r: Result<(), Error>)
    requires
        schema_sane(schema_view(custom_types@)),
    ensures
        r is Ok <==> modify_ups_spec(
            schema_view(custom_types@),
            ups_view(old(ups)@),
            named_ups_view(mods@),
        ) is Some,
        r is Ok ==> Some(ups_view(final(ups)@)) == modify_ups_spec(
            schema_view(custom_types@),
            ups_view(old(ups)@),
            named_ups_view(mods@),
        ),
        r is Err ==> *final(ups) == *old(ups),
        r matches Err(e) ==> (e is EmptyName || e is TypeMismatch || e is UnknownName
            || e is DuplicateName || e is NotFound),
{
    let ghost s = schema_view(custom_types@);
    let ghost uv0 = ups_view(ups@);
    let ghost mv = named_ups_view(mods@);
    proof {
        assert(mv.skip(0) =~= mv);
    }
    let mut work = crate::document::clone_ups(ups);
    let mut k: usize = 0;
    while k < mods.len()
        invariant
            k <= mods.len(),
            modify_ups_spec(s, uv0, mv) == modify_ups_spec(
                s,
                ups_view(work@),
                mv.skip(k as int),
            ),
        decreases mods.len() - k,
    {
        proof {
            assert(mv.skip(k as int)[0] == (mods@[k as int].0@, mods@[k as int].1@));
            assert(mv.skip(k as int).drop_first() =~= mv.skip(k as int + 1));
        }
        match mods[k].1.check_data(custom_types) {
            Ok(()) => {},
            Err(e) => {
                return Err(e);
            },
        }
        match find_up_exec(&work, &mods[k].0) {
            Some(i) => {
                let ghost wpre = ups_view(work@);
                work.set(i, mods[k].1.clone());
                proof {
                    assert(ups_view(work@) =~= wpre.update(i as int, mods@[k as int].1@));
                }
            },
            None => {
                return Err(Error::NotFound(mods[k].0.clone()));
            },
        }
        k = k + 1;
    }
    proof {
        assert(mv.skip(mods@.len() as int) =~= Seq::<(Seq<char>, UnitProcessV)>::empty());
    }
    *ups = work;
    Ok(())
}

/// Registers the batches in order, each into the first unit process
/// carrying its name; a rejected batch leaves the processes' models
/// unchanged.
#[verifier::loop_isolation(false)]
fn register_exec(ups: &mut Vec<UnitProcess>, batch: &Vec<UnitData>, custom_types: &Schema) -> (r:
    Result<(), Error>)
    requires
        schema_sane(schema_view(custom_types@)),
    ensures
        r is Ok <==> register_spec(
            schema_view(custom_types@),
            ups_view(old(ups)@),
            unit_datas_view(batch@),
        ) is Some,
        r is Ok ==> Some(ups_view(final(ups)@)) == register_spec(
            schema_view(custom_types@),
            ups_view(old(ups)@),
            unit_datas_view(batch@),
        ),
        r is Err ==> *final(ups) == *old(ups),
        r matches Err(e) ==> (e is NotFound || e is EmptyBatch || e is TypeMismatch
            || e is UnknownName || e is EmptyName),
{
    let ghost s = schema_view(custom_types@);
    let ghost uv0 = ups_view(ups@);
    let ghost bv = unit_datas_view(batch@);
    let mut work = crate::document::clone_ups(ups);
    proof {
        assert(bv.skip(0) =~= bv);
    }
    let mut k: usize = 0;
    while k < batch.len()
        invariant
            k <= batch.len(),
            register_spec(s, uv0, bv) == register_spec(
                s,
                ups_view(work@),
                bv.skip(k as int),
            ),
        decreases batch.len() - k,
    {
        proof {
            assert(bv.skip(k as int)[0] == batch@[k as int]@);
            assert(bv.skip(k as int).drop_first() =~= bv.skip(k as int + 1));
        }
        match find_up_exec(&work, &batch[k].name) {
            Some(i) => {
                let ghost upre = ups_view(work@);
                let mut u = work.remove(i);
                proof {
                    assert(u@ == upre[i as int]);
                }
                match u.register_data(batch[k].clone(), custom_types) {
                    Ok(()) => {},
                    Err(e) => {
                        return Err(e);
                    },
                }
                work.insert(i, u);
                proof {
                    assert(ups_view(work@) =~= upre.update(i as int, u@));
                }
            },
            None => {
                return Err(Error::NotFound(batch[k].name.clone()));
            },
        }
        k = k + 1;
    }
    proof {
        assert(bv.skip(batch@.len() as int) =~= Seq::<UnitDataV>::empty());
    }
    *ups = work;
    Ok(())
}

/// Inserting at the first entry carrying the name replaces it in place.
proof fn lemma_insert_at(s: SchemaV, n: Seq<char>, f: FieldsV, i: int)
    requires
        0 <= i < s.len(),
        s[i].0 == n,
        forall|j: int| 0 <= j < i ==> s[j].0 != n,
    ensures
        schema_insert_spec(s, n, f) == s.update(i, (n, f)),
    decreases i,
{
    if i == 0 {
        assert(schema_insert_spec(s, n, f) =~= s.update(0, (n, f)));
    } else {
        assert forall|j: int| 0 <= j < i - 1 implies s.drop_first()[j].0 != n by {
            assert(s.drop_first()[j] == s[j + 1]);
        }
        assert(s.drop_first()[i - 1] == s[i]);
        lemma_insert_at(s.drop_first(), n, f, i - 1);
        assert(schema_insert_spec(s, n, f) =~= s.update(i, (n, f)));
    }
}

/// The event arrived out of order: initialization of an initialized
/// document, or any other event before initialization.
pub open spec fn ordering_violation(doc: DocV, ev: EventsV) -> bool {
    match ev {
        EventsV::ChangeProductionSystem(op) => (op is Init) != (doc.version == 0),
        EventsV::RegisterData(_) => doc.version == 0,
    }
}

/// Applies one event to the document: returns the successor document
/// exactly where [`transition`] is defined, and the diagnostic otherwise.
/// The prior document is never touched.
#[verifier::loop_isolation(false)]
pub fn apply_event(state: &ProductionSystem, event: &Events) -> (r: Result<ProductionSystem, Error>)
    requires
        doc_wf(state@),
        state.version < u32::MAX,
    ensures
        r is Ok <==> transition(state@, event@) is Some,
        r matches Ok(d) ==> Some(d@) == transition(state@, event@),
        r matches Ok(d) ==> doc_wf(d@),
        r matches Err(e) ==> ((e is Ordering) == ordering_violation(state@, event@)),
{
    match event {
        Events::ChangeProductionSystem(op) => {
            let is_init = matches!(op, ChangeProductionSystem::Init { .. });
            proof {
                assert(is_init == (op@ is Init));
            }
            if is_init != (state.version == 0) {
                return Err(Error::Ordering);
            }
            let mut draft = state.clone();
            draft.version = draft.version + 1;
            let ghost vdoc = DocV { version: state@.version + 1, ..state@ };
            proof {
                assert(draft@ == vdoc);
            }
            match op {
                ChangeProductionSystem::Init { name, unit_process, types, properties } => {
                    if name.as_str().is_empty() {
                        return Err(Error::EmptyName);
                    }
                    draft.name = name.clone();
                    let ghost d0 = DocV { name: name@, ..vdoc };
                    proof {
                        assert(draft@ == d0);
                    }
                    match types {
                        Some(ts) => {
                            match add_types(&mut draft, crate::types::clone_schema(ts)) {
                                Ok(()) => {},
                                Err(e) => {
                                    return Err(e);
                                },
                            }
                        },
                        None => {},
                    }
                    let ghost d1 = draft@;
                    match unit_process {
                        Some(ups) => {
                            match add_unit_process(
                                &mut draft,
                                crate::document::clone_ups(ups),
                            ) {
                                Ok(()) => {},
                                Err(e) => {
                                    return Err(e);
                                },
                            }
                        },
                        None => {},
                    }
                    let ghost d2 = draft@;
                    match properties {
                        Some(ps) => {
                            match add_new_properties(
                                &mut draft,
                                crate::document::clone_props(ps),
                            ) {
                                Ok(()) => {},
                                Err(e) => {
                                    return Err(e);
                                },
                            }
                        },
                        None => {},
                    }
                    proof {
                        assert(transition(state@, event@) == Some(draft@));
                    }
                    Ok(draft)
                },
                ChangeProductionSystem::ModifyProductionSystem {
                    name,
                    delete_properties,
                    modify_properties,
                    add_properties,
                } => {
                    if name.is_none() && delete_properties.is_none() && modify_properties.is_none()
                        && add_properties.is_none() {
                        return Err(Error::EmptyBatch);
                    }
                    match name {
                        Some(n) => {
                            if n.as_str().is_empty() {
                                return Err(Error::EmptyName);
                            }
                            draft.name = n.clone();
                        },
                        None => {},
                    }
                    let ghost d0 = draft@;
                    match delete_properties {
                        Some(names) => {
                            if names.len() == 0 {
                                return Err(Error::EmptyBatch);
                            }
                            match delete_properties_exec(&mut draft.properties, names) {
                                Ok(()) => {},
                                Err(e) => {
                                    return Err(e);
                                },
                            }
                        },
                        None => {},
                    }
                    let ghost d1 = draft@;
                    match modify_properties {
                        Some(mods) => {
                            if mods.len() == 0 {
                                return Err(Error::EmptyBatch);
                            }
                            match modify_properties_exec(
                                &mut draft.properties,
                                mods,
                                &draft.custom_types,
                            ) {
                                Ok(()) => {},
                                Err(e) => {
                                    return Err(e);
                                },
                            }
                        },
                        None => {},
                    }
                    let ghost d2 = draft@;
                    match add_properties {
                        Some(ps) => {
                            match add_new_properties(
                                &mut draft,
                                crate::document::clone_props(ps),
                            ) {
                                Ok(()) => {},
                                Err(e) => {
                                    return Err(e);
                                },
                            }
                        },
                        None => {},
                    }
                    proof {
                        assert(transition(state@, event@) == Some(draft@));
                    }
                    Ok(draft)
                },
                ChangeProductionSystem::ModifyTypes { delete, add } => {
                    if delete.is_none() && add.is_none() {
                        return Err(Error::EmptyBatch);
                    }
                    match delete {
                        Some(names) => {
                            match delete_types_exec(&mut draft.custom_types, names) {
                                Ok(()) => {},
                                Err(e) => {
                                    return Err(e);
                                },
                            }
                        },
                        None => {},
                    }
                    let ghost d0 = draft@;
                    match add {
                        Some(ts) => {
                            match add_types(&mut draft, crate::types::clone_schema(ts)) {
                                Ok(()) => {},
                                Err(e) => {
                                    return Err(e);
                                },
                            }
                        },
                        None => {},
                    }
                    proof {
                        assert(transition(state@, event@) == Some(draft@));
                    }
                    Ok(draft)
                },
                ChangeProductionSystem::ModifyUnitProcess { delete, modify, add } => {
                    if delete.is_none() && modify.is_none() && add.is_none() {
                        return Err(Error::EmptyBatch);
                    }
                    match delete {
                        Some(names) => {
                            if names.len() == 0 {
                                return Err(Error::EmptyBatch);
                            }
                            match delete_ups_exec(&mut draft.unit_process, names) {
                                Ok(()) => {},
                                Err(e) => {
                                    return Err(e);
                                },
                            }
                        },
                        None => {},
                    }
                    let ghost d0 = draft@;
                    match modify {
                        Some(mods) => {
                            if mods.len() == 0 {
                                return Err(Error::EmptyBatch);
                            }
                            match modify_ups_exec(
                                &mut draft.unit_process,
                                mods,
                                &draft.custom_types,
                            ) {
                                Ok(()) => {},
                                Err(e) => {
                                    return Err(e);
                                },
                            }
                        },
                        None => {},
                    }
                    let ghost d1 = draft@;
                    match add {
                        Some(ups) => {
                            match add_unit_process(
                                &mut draft,
                                crate::document::clone_ups(ups),
                            ) {
                                Ok(()) => {},
                                Err(e) => {
                                    return Err(e);
                                },
                            }
                        },
                        None => {},
                    }
                    proof {
                        assert(transition(state@, event@) == Some(draft@));
                    }
                    Ok(draft)
                },
            }
        },
        Events::RegisterData(batch) => {
            if state.version == 0 {
                return Err(Error::Ordering);
            }
            if batch.len() == 0 {
                return Err(Error::EmptyBatch);
            }
            let mut draft = state.clone();
            match register_exec(&mut draft.unit_process, batch, &draft.custom_types) {
                Ok(()) => {},
                Err(e) => {
                    return Err(e);
                },
            }
            proof {
                assert(transition(state@, event@) == Some(draft@));
            }
            Ok(draft)
        },
    }
}

/// The outcome of one event application, in the shape the host consumes:
/// the document to persist, a success flag, and the diagnostic of a
/// rejection.
pub struct ContractResult {
    pub state: ProductionSystem,
    pub success: bool,
    pub error: Option<Error>,
}

/// Applies one event and reports the outcome: on success the successor
/// document that [`transition`] prescribes; on rejection the prior
/// document, bit for bit, with the diagnostic. The privilege flag is
/// accepted as a hook for the host's authorization and plays no part in
/// the outcome.
pub fn contract_logic(state: &ProductionSystem, event: &Events, _is_owner: bool) -> (r:
    ContractResult)
    requires
        doc_wf(state@),
        state.version < u32::MAX,
    ensures
        r.success <==> transition(state@, event@) is Some,
        r.success ==> Some(r.state@) == transition(state@, event@) && r.error is None && doc_wf(
            r.state@,
        ),
        !r.success ==> r.state@ == state@ && r.error is Some,
{
    match apply_event(state, event) {
        Ok(d) => ContractResult { state: d, success: true, error: None },
        Err(e) => ContractResult { state: state.clone(), success: false, error: Some(e) },
    }
}


/// Whether a type expression is well-formed in itself: as [`type_wf`][
/// crate::types::type_wf], with every reference name admitted.
#[verifier::loop_isolation(false)]
fn type_sane_exec(t: &DynamicType) -> (r: bool)
    ensures
        r == crate::types::type_wf(t@, Set::full()),
    decreases crate::types::type_size(*t),
{
    broadcast use crate::types::lemma_member_views;

    match t {
        DynamicType::Array(inner) => {
            if matches!(&**inner, DynamicType::Invalid | DynamicType::Optional(_)) {
                false
            } else {
                proof {
                    assert(t@ == crate::types::TypeV::Array(
                        Box::new(crate::types::type_view(**inner)),
                    ));
                    assert(!(crate::types::type_view(**inner) is Invalid));
                    assert(!(crate::types::type_view(**inner) is Optional));
                }
                type_sane_exec(&**inner)
            }
        },
        DynamicType::Optional(inner) => {
            if matches!(&**inner, DynamicType::Invalid | DynamicType::Optional(_)) {
                false
            } else {
                proof {
                    assert(t@ == crate::types::TypeV::Optional(
                        Box::new(crate::types::type_view(**inner)),
                    ));
                    assert(!(crate::types::type_view(**inner) is Invalid));
                    assert(!(crate::types::type_view(**inner) is Optional));
                }
                type_sane_exec(&**inner)
            }
        },
        DynamicType::Union(vs) => {
            let ghost m = crate::types::member_views(vs@);
            let mut i: usize = 0;
            while i < vs.len()
                invariant
                    i <= vs.len(),
                    forall|j: int| 0 <= j < i as int ==> ((#[trigger] m[j]).0.len() > 0 && !(
                    m[j].1 is Optional) && crate::types::type_wf(m[j].1, Set::full())),
                decreases vs.len() - i,
            {
                if vs[i].0.as_str().is_empty() {
                    proof {
                        assert(m[i as int].0.len() == 0);
                    }
                    return false;
                }
                if vs[i].1.is_option() {
                    proof {
                        assert(m[i as int].1 is Optional);
                    }
                    return false;
                }
                proof {
                    crate::types::lemma_member_list_size_bound(vs@, i as int);
                }
                if !type_sane_exec(&vs[i].1) {
                    proof {
                        assert(!crate::types::type_wf(m[i as int].1, Set::full()));
                    }
                    return false;
                }
                i = i + 1;
            }
            proof {
                assert(crate::types::type_wf(t@, Set::full()));
            }
            true
        },
        DynamicType::Reference(n) => !n.as_str().is_empty(),
        _ => true,
    }
}

/// Whether a definition body is well-formed in itself.
#[verifier::loop_isolation(false)]
fn fields_sane_exec(f: &Fields) -> (r: bool)
    ensures
        r == fields_wf(f@, Set::full()),
{
    broadcast use crate::types::lemma_member_views;

    match f {
        Fields::Basic(t) => {
            if matches!(
                t,
                DynamicType::Invalid | DynamicType::Optional(_) | DynamicType::Reference(_)
            ) {
                false
            } else {
                type_sane_exec(t)
            }
        },
        Fields::Object(fs) => {
            let ghost m = crate::types::member_views(fs@);
            if fs.len() == 0 {
                return false;
            }
            let mut names: Vec<String> = Vec::new();
            let mut k: usize = 0;
            while k < fs.len()
                invariant
                    k <= fs.len(),
                    names@.len() == k as int,
                    forall|j: int| 0 <= j < k as int ==> (#[trigger] names@[j])@ == m[j].0,
                decreases fs.len() - k,
            {
                names.push(fs[k].0.clone());
                k = k + 1;
            }
            proof {
                assert forall|j: int| 0 <= j < names@.len() implies names.deep_view()[j]
                    == m[j].0 by {
                    assert(names.deep_view()[j] == names@[j]@);
                }
            }
            match crate::types::find_duplicate(&names) {
                Some(d) => {
                    proof {
                        let di = d as int;
                        let j = choose|j: int|
                            0 <= j < di && names.deep_view()[j] == names.deep_view()[di];
                        assert(m[j].0 == m[di].0);
                        assert(!keys_distinct(m));
                    }
                    return false;
                },
                None => {
                    proof {
                        assert forall|a: int, b: int| 0 <= a < b < m.len() implies m[a].0
                            != m[b].0 by {
                            assert(names.deep_view()[a] == m[a].0);
                            assert(names.deep_view()[b] == m[b].0);
                        }
                    }
                },
            }
            let mut i: usize = 0;
            while i < fs.len()
                invariant
                    i <= fs.len(),
                    forall|j: int| 0 <= j < i as int ==> ((#[trigger] m[j]).0.len() > 0 && !(
                    m[j].1 is Invalid) && crate::types::type_wf(m[j].1, Set::full())),
                decreases fs.len() - i,
            {
                if fs[i].0.as_str().is_empty() {
                    proof {
                        assert(m[i as int].0.len() == 0);
                        assert(!fields_wf(f@, Set::full()));
                    }
                    return false;
                }
                if matches!(fs[i].1, DynamicType::Invalid) {
                    proof {
                        assert(m[i as int].1 is Invalid);
                        assert(!fields_wf(f@, Set::full()));
                    }
                    return false;
                }
                if !type_sane_exec(&fs[i].1) {
                    proof {
                        assert(!crate::types::type_wf(m[i as int].1, Set::full()));
                        assert(!fields_wf(f@, Set::full()));
                    }
                    return false;
                }
                i = i + 1;
            }
            proof {
                assert(fields_wf(f@, Set::full()));
            }
            true
        },
    }
}

/// Whether a document satisfies the engine's structural invariant
/// [`doc_wf`]: the one condition a caller must establish before applying
/// events to a document that did not come from this engine.
#[verifier::loop_isolation(false)]
pub fn doc_wf_exec(doc: &ProductionSystem) -> (r: bool)
    ensures
        r == doc_wf(doc@),
{
    broadcast use crate::types::lemma_schema_view;

    let ghost sv = schema_view(doc.custom_types@);
    let mut names: Vec<String> = Vec::new();
    let mut k: usize = 0;
    while k < doc.custom_types.len()
        invariant
            k <= doc.custom_types.len(),
            names@.len() == k as int,
            forall|j: int| 0 <= j < k as int ==> (#[trigger] names@[j])@ == sv[j].0,
        decreases doc.custom_types.len() - k,
    {
        names.push(doc.custom_types[k].0.clone());
        k = k + 1;
    }
    proof {
        assert forall|j: int| 0 <= j < names@.len() implies names.deep_view()[j] == sv[j].0 by {
            assert(names.deep_view()[j] == names@[j]@);
        }
    }
    match crate::types::find_duplicate(&names) {
        Some(d) => {
            proof {
                let di = d as int;
                let j = choose|j: int|
                    0 <= j < di && names.deep_view()[j] == names.deep_view()[di];
                assert(sv[j].0 == sv[di].0);
                assert(!keys_distinct(sv));
            }
            return false;
        },
        None => {
            proof {
                assert forall|a: int, b: int| 0 <= a < b < sv.len() implies sv[a].0
                    != sv[b].0 by {
                    assert(names.deep_view()[a] == sv[a].0);
                    assert(names.deep_view()[b] == sv[b].0);
                }
            }
        },
    }
    let mut i: usize = 0;
    while i < doc.custom_types.len()
        invariant
            i <= doc.custom_types.len(),
            keys_distinct(sv),
            forall|j: int| 0 <= j < i as int ==> fields_wf((#[trigger] sv[j]).1, Set::full()),
        decreases doc.custom_types.len() - i,
    {
        if !fields_sane_exec(&doc.custom_types[i].1) {
            proof {
                assert(!fields_wf(sv[i as int].1, Set::full()));
            }
            return false;
        }
        i = i + 1;
    }
    true
}


} // verus!
