//! A verified state-transition engine for a versioned production-system
//! document: a named graph of unit processes with typed inputs, outputs and
//! properties, governed by a user-extensible schema of custom data types.
//!
//! Every mutation is driven by a discrete event; the engine either accepts
//! the event and returns an updated, schema-valid document, or rejects it
//! atomically with a diagnostic, leaving the prior document untouched.

pub mod cycle;
pub mod document;
pub mod engine;
pub mod errors;
pub mod json;
pub mod laws;
pub mod types;
pub mod validate;

pub use document::{
    Data, Metadata, ProductionSystem, Properties, RegisterData, Target, UnitData, UnitProcess,
};
pub use engine::{
    add_new_properties, add_types, add_unit_process, apply_event, contract_logic, doc_wf_exec,
    ChangeProductionSystem, ContractResult, Events,
};
pub use errors::Error;
pub use json::{JsonNumber, JsonV, JsonValue};
pub use types::{count_options, find_duplicate, schema_get, DynamicType, Fields, FieldsV,
    Schema, SchemaV, TypeV};
pub use cycle::{check_cycle, has_cycle};
