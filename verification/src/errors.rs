//! The closed set of diagnostics an event application can produce.
//!
//! Every failure of the engine is one of these values; the engine never
//! panics. Payloads carry the name at fault, where one exists.

use vstd::prelude::*;

verus! {

/// Why an event, a schema edit or a data registration was rejected.
#[derive(Debug, PartialEq)]
pub enum Error {
    /// An event arrived before initialization, or a second initialization.
    Ordering,
    /// A batch that must be non-empty when present was empty.
    EmptyBatch,
    /// A user type name collides with the built-in type vocabulary.
    ReservedName(String),
    /// Two entities in one scope carry the same name.
    DuplicateName(String),
    /// A name was used that no definition introduces.
    UnknownName(String),
    /// A name that must be non-empty was empty.
    EmptyName,
    /// A batch of type definitions closes a reference cycle at this type.
    SchemaCycle(String),
    /// A value does not conform to its declared type, or a type stands
    /// where the type language forbids it.
    TypeMismatch,
    /// A named unit process, property or type does not exist.
    NotFound(String),
}

} // verus!
