//! The value validator: decides whether a semi-structured value conforms
//! to a type expression, recursing through the schema.
//!
//! [`conforms`] is the specification; [`DynamicType::deserialize`] and
//! [`Fields::check_value`] are the executable checkers, proved to accept
//! exactly the conforming values. Validation failures all carry the
//! [`Error::TypeMismatch`] diagnostic.

use vstd::prelude::*;

use crate::errors::Error;
use crate::json::{entry_list_size, entry_views, json_size, json_views, lemma_entry_list_size_bound,
    lemma_entry_views, lemma_json_list_size_bound, lemma_json_views, JsonNumber, JsonV, JsonValue};
use crate::types::{fields_wf, keys_distinct, lemma_member_views, lemma_schema_lookup_contains,
    lemma_schema_view, member_views, schema_lookup, schema_view, type_view, DynamicType, Fields,
    FieldsV, Schema, SchemaV, TypeV};

verus! {

/// A named entry exists in an association list.
pub open spec fn has_name<T>(s: Seq<(Seq<char>, T)>, n: Seq<char>) -> bool {
    exists|i: int| 0 <= i < s.len() && s[i].0 == n
}

/// The first entry bound to `n` in an association list.
pub open spec fn assoc_lookup<T>(s: Seq<(Seq<char>, T)>, n: Seq<char>) -> Option<T>
    decreases s.len(),
{
    if s.len() == 0 {
        None
    } else if s[0].0 == n {
        Some(s[0].1)
    } else {
        assoc_lookup(s.drop_first(), n)
    }
}

/// A lookup succeeds exactly on the names the list has, and lands on the
/// first entry so named.
pub broadcast proof fn lemma_assoc_lookup<T>(s: Seq<(Seq<char>, T)>, n: Seq<char>)
    ensures
        (#[trigger] assoc_lookup(s, n)) is Some <==> has_name(s, n),
        assoc_lookup(s, n) matches Some(x) ==> exists|i: int|
            0 <= i < s.len() && s[i].0 == n && s[i].1 == x && (forall|j: int|
                0 <= j < i ==> s[j].0 != n),
    decreases s.len(),
{
    if s.len() > 0 {
        lemma_assoc_lookup(s.drop_first(), n);
        if s[0].0 != n {
            assert forall|i: int| 0 <= i < s.len() && s[i].0 == n implies has_name(
                s.drop_first(),
                n,
            ) by {
                assert(s.drop_first()[i - 1] == s[i]);
            }
            if assoc_lookup(s.drop_first(), n) is Some {
                let x = assoc_lookup(s.drop_first(), n)->Some_0;
                let d = s.drop_first();
                let i = choose|i: int|
                    0 <= i < d.len() && d[i].0 == n && d[i].1 == x && (forall|j: int|
                        0 <= j < i ==> d[j].0 != n);
                assert(s[i + 1] == s.drop_first()[i]);
                assert forall|j: int| 0 <= j < i + 1 implies s[j].0 != n by {
                    if j > 0 {
                        assert(s.drop_first()[j - 1] == s[j]);
                    }
                }
            }
        }
    }
}

/// The ranking that bounds same-value recursion of the validator: an
/// optional defers to its element type, a reference to the definition it
/// names, and every other type expression inspects the value directly.
pub open spec fn type_rank(t: TypeV) -> nat {
    match t {
        TypeV::Optional(_) => 3,
        TypeV::Reference(_) => 2,
        _ => 1,
    }
}

/// Whether a number is exactly representable as a signed 64-bit integer.
pub open spec fn num_is_i64(n: JsonNumber) -> bool {
    match n {
        JsonNumber::PosInt(u) => u <= i64::MAX,
        JsonNumber::NegInt(_) => true,
        JsonNumber::Float(_) => false,
    }
}

/// Conformance of a value to a type expression, under a schema.
///
/// Primitives require the matching value kind (`U64` only a non-negative
/// integer, `I64` only an integer in signed range, `F64` any number);
/// arrays require every element to conform; a union accepts a single-entry
/// object naming a variant whose value conforms, or a bare string naming
/// a variant declared with the invalid placeholder; a reference defers to
/// the named definition; an optional accepts null or defers to its
/// element; the invalid placeholder accepts nothing.
pub open spec fn conforms(s: SchemaV, t: TypeV, v: JsonV) -> bool
    decreases v, type_rank(t),
{
    match t {
        TypeV::String => v is Text,
        TypeV::I64 => v matches JsonV::Number(n) && num_is_i64(n),
        TypeV::U64 => v matches JsonV::Number(n) && n is PosInt,
        TypeV::F64 => v is Number,
        TypeV::Bool => v is Bool,
        TypeV::Array(et) => v matches JsonV::Array(items) && (forall|i: int|
            0 <= i < items.len() ==> conforms(s, *et, #[trigger] items[i])),
        TypeV::Union(vs) => match v {
            JsonV::Object(entries) => entries.len() == 1 && (assoc_lookup(vs, entries[0].0)
                matches Some(vt) && conforms(s, vt, entries[0].1)),
            JsonV::Text(nm) => assoc_lookup(vs, nm) == Some(TypeV::Invalid),
            _ => false,
        },
        TypeV::Optional(inner) => v is Null || (!(*inner is Optional) && conforms(
            s,
            *inner,
            v,
        )),
        TypeV::Reference(nm) => match schema_lookup(s, nm) {
            Some(f) => match f {
                FieldsV::Basic(bt) => !(bt is Reference) && !(bt is Optional) && conforms(
                    s,
                    bt,
                    v,
                ),
                FieldsV::Object(fs) => v matches JsonV::Object(entries) && conforms_obj(
                    s,
                    fs,
                    entries,
                ),
            },
            None => false,
        },
        TypeV::Invalid => false,
    }
}

/// Conformance of an object value's entries to a record shape: entry
/// names are pairwise distinct and all declared; every declared field is
/// either present with a conforming value or declared optional.
pub open spec fn conforms_obj(
    s: SchemaV,
    fs: Seq<(Seq<char>, TypeV)>,
    entries: Seq<(Seq<char>, JsonV)>,
) -> bool
    decreases entries, 4nat,
{
    &&& keys_distinct(entries)
    &&& forall|i: int| 0 <= i < entries.len() ==> has_name(fs, (#[trigger] entries[i]).0)
    &&& forall|j: int, i: int|
        0 <= j < fs.len() && 0 <= i < entries.len() && (#[trigger] fs[j]).0 == (
        #[trigger] entries[i]).0 ==> conforms(s, fs[j].1, entries[i].1)
    &&& forall|j: int|
        0 <= j < fs.len() ==> ((#[trigger] fs[j]).1 is Optional || has_name(entries, fs[j].0))
}

/// Conformance of a value to a definition body: a bare type checks the
/// whole value; a record shape requires an object whose entries conform.
pub open spec fn fields_conforms(s: SchemaV, f: FieldsV, v: JsonV) -> bool {
    match f {
        FieldsV::Basic(t) => conforms(s, t, v),
        FieldsV::Object(fs) => v matches JsonV::Object(entries) && conforms_obj(s, fs, entries),
    }
}

/// Conformance of a value to a built-in type named `tn`.
pub open spec fn builtin_conforms(tn: Seq<char>, v: JsonV) -> bool {
    if tn == "String"@ {
        v is Text
    } else if tn == "i64"@ {
        v matches JsonV::Number(n) && num_is_i64(n)
    } else if tn == "u64"@ {
        v matches JsonV::Number(n) && n is PosInt
    } else if tn == "f64"@ {
        v is Number
    } else if tn == "bool"@ {
        v is Bool
    } else {
        false
    }
}

/// Conformance of a value to the type named `tn`: a schema definition
/// where one exists, a built-in type otherwise.
pub open spec fn resolve_conforms(s: SchemaV, tn: Seq<char>, v: JsonV) -> bool {
    match schema_lookup(s, tn) {
        Some(f) => fields_conforms(s, f, v),
        None => builtin_conforms(tn, v),
    }
}

/// Every definition of the schema is well-formed in itself (its references
/// may dangle: deleting a type another one names is allowed).
pub open spec fn schema_sane(s: SchemaV) -> bool {
    forall|i: int| 0 <= i < s.len() ==> fields_wf((#[trigger] s[i]).1, Set::full())
}

/// What a sane schema binds to any name is well-formed in itself.
pub proof fn lemma_sane_lookup(s: SchemaV, n: Seq<char>)
    requires
        schema_sane(s),
        schema_lookup(s, n) is Some,
    ensures
        fields_wf(schema_lookup(s, n)->Some_0, Set::full()),
{
    broadcast use lemma_schema_lookup_contains;

    let f = schema_lookup(s, n)->Some_0;
    let i = choose|i: int| 0 <= i < s.len() && s[i].0 == n && s[i].1 == f;
    assert(fields_wf(s[i].1, Set::full()));
}

/// A lookup lands on the first entry carrying the name.
pub proof fn lemma_assoc_first<T>(s: Seq<(Seq<char>, T)>, n: Seq<char>, i: int)
    requires
        0 <= i < s.len(),
        s[i].0 == n,
        forall|j: int| 0 <= j < i ==> s[j].0 != n,
    ensures
        assoc_lookup(s, n) == Some(s[i].1),
    decreases i,
{
    if i == 0 {
    } else {
        assert forall|j: int| 0 <= j < i - 1 implies s.drop_first()[j].0 != n by {
            assert(s.drop_first()[j] == s[j + 1]);
        }
        assert(s.drop_first()[i - 1] == s[i]);
        lemma_assoc_first(s.drop_first(), n, i - 1);
    }
}

/// Finds the first union member carrying the name, if any.
#[verifier::loop_isolation(false)]
fn member_find(vs: &Vec<(String, DynamicType)>, name: &String) -> (r: Option<usize>)
    ensures
        r matches Some(i) ==> i < vs@.len() && member_views(vs@)[i as int].0 == name@
            && assoc_lookup(member_views(vs@), name@) == Some(member_views(vs@)[i as int].1),
        r is None ==> !has_name(member_views(vs@), name@) && assoc_lookup(
            member_views(vs@),
            name@,
        ) is None,
{
    broadcast use {lemma_member_views, lemma_assoc_lookup};

    let ghost m = member_views(vs@);
    let mut i: usize = 0;
    while i < vs.len()
        invariant
            i <= vs.len(),
            forall|j: int| 0 <= j < i as int ==> m[j].0 != name@,
        decreases vs.len() - i,
    {
        if vs[i].0 == *name {
            proof {
                lemma_assoc_first(m, name@, i as int);
            }
            return Some(i);
        }
        i = i + 1;
    }
    None
}

/// Finds the first object entry carrying the name, if any.
#[verifier::loop_isolation(false)]
fn entry_find(entries: &Vec<(String, JsonValue)>, name: &String) -> (r: Option<usize>)
    ensures
        r matches Some(i) ==> i < entries@.len() && entry_views(entries@)[i as int].0 == name@
            && assoc_lookup(entry_views(entries@), name@) == Some(
            entry_views(entries@)[i as int].1,
        ),
        r is None ==> !has_name(entry_views(entries@), name@),
{
    broadcast use {lemma_entry_views, lemma_assoc_lookup};

    let ghost ev = entry_views(entries@);
    let mut i: usize = 0;
    while i < entries.len()
        invariant
            i <= entries.len(),
            forall|j: int| 0 <= j < i as int ==> ev[j].0 != name@,
        decreases entries.len() - i,
    {
        if entries[i].0 == *name {
            proof {
                lemma_assoc_first(ev, name@, i as int);
            }
            return Some(i);
        }
        i = i + 1;
    }
    None
}

/// Checks an object value's entries against a record shape; see
/// [`conforms_obj`].
#[verifier::loop_isolation(false)]
fn check_object(
    fs: &Vec<(String, DynamicType)>,
    entries: &Vec<(String, JsonValue)>,
    custom_types: &Schema,
) -> (r: Result<(), Error>)
    requires
        forall|j: int| 0 <= j < member_views(fs@).len() ==> crate::types::type_tame(
            (#[trigger] member_views(fs@)[j]).1,
        ),
        schema_sane(schema_view(custom_types@)),
    ensures
        r is Ok <==> conforms_obj(
            schema_view(custom_types@),
            member_views(fs@),
            entry_views(entries@),
        ),
        r matches Err(e) ==> e is TypeMismatch,
    decreases entry_list_size(entries@) + 1, 0nat,
{
    broadcast use {lemma_member_views, lemma_entry_views, lemma_assoc_lookup};

    let ghost s = schema_view(custom_types@);
    let ghost m = member_views(fs@);
    let ghost ev = entry_views(entries@);

    let mut names: Vec<String> = Vec::new();
    let mut k: usize = 0;
    while k < entries.len()
        invariant
            k <= entries.len(),
            names@.len() == k as int,
            forall|j: int| 0 <= j < k as int ==> (#[trigger] names@[j])@ == ev[j].0,
        decreases entries.len() - k,
    {
        names.push(entries[k].0.clone());
        k = k + 1;
    }
    proof {
        assert forall|j: int| 0 <= j < names@.len() implies names.deep_view()[j] == ev[j].0 by {
            assert(names.deep_view()[j] == names@[j]@);
        }
    }
    match crate::types::find_duplicate(&names) {
        Some(d) => {
            proof {
                let di = d as int;
                let j = choose|j: int|
                    0 <= j < di && names.deep_view()[j] == names.deep_view()[di];
                assert(ev[j].0 == ev[di].0);
                assert(!keys_distinct(ev));
            }
            return Err(Error::TypeMismatch);
        },
        None => {
            proof {
                assert forall|a: int, b: int| 0 <= a < b < ev.len() implies ev[a].0 != ev[b].0 by {
                    assert(names.deep_view()[a] == ev[a].0);
                    assert(names.deep_view()[b] == ev[b].0);
                }
            }
        },
    }

    let mut i: usize = 0;
    while i < entries.len()
        invariant
            i <= entries.len(),
            forall|j: int| 0 <= j < i as int ==> has_name(m, (#[trigger] ev[j]).0),
        decreases entries.len() - i,
    {
        match member_find(fs, &entries[i].0) {
            Some(_) => {},
            None => {
                proof {
                    assert(!has_name(m, ev[i as int].0));
                }
                return Err(Error::TypeMismatch);
            },
        }
        i = i + 1;
    }

    let mut j: usize = 0;
    while j < fs.len()
        invariant
            j <= fs.len(),
            forall|j2: int, i2: int|
                0 <= j2 < j as int && 0 <= i2 < ev.len() && (#[trigger] m[j2]).0 == (
                #[trigger] ev[i2]).0 ==> conforms(s, m[j2].1, ev[i2].1),
            forall|j2: int| 0 <= j2 < j as int ==> ((#[trigger] m[j2]).1 is Optional
                || has_name(ev, m[j2].0)),
        decreases fs.len() - j,
    {
        match entry_find(entries, &fs[j].0) {
            Some(i2) => {
                proof {
                    lemma_entry_list_size_bound(entries@, i2 as int);
                }
                match fs[j].1.deserialize(&entries[i2].1, custom_types) {
                    Ok(()) => {
                        proof {
                            assert forall|i3: int|
                                0 <= i3 < ev.len() && m[j as int].0 == ev[i3].0 implies conforms(
                                s,
                                m[j as int].1,
                                ev[i3].1,
                            ) by {
                                if i3 != i2 as int {
                                    assert(ev[i3].0 == ev[i2 as int].0);
                                    assert(false);
                                }
                            }
                        }
                    },
                    Err(e) => {
                        proof {
                            assert(!conforms(s, m[j as int].1, ev[i2 as int].1));
                            assert(!conforms_obj(s, m, ev));
                        }
                        return Err(Error::TypeMismatch);
                    },
                }
            },
            None => {
                if !fs[j].1.is_option() {
                    proof {
                        assert(!(m[j as int].1 is Optional));
                        assert(!has_name(ev, m[j as int].0));
                        assert(!conforms_obj(s, m, ev));
                    }
                    return Err(Error::TypeMismatch);
                }
            },
        }
        j = j + 1;
    }
    proof {
        assert(conforms_obj(s, m, ev));
    }
    Ok(())
}

impl DynamicType {
    /// Checks one value against this type expression; succeeds exactly on
    /// conforming values.
    #[verifier::loop_isolation(false)]
    pub fn deserialize(&self, value: &JsonValue, custom_types: &Schema) -> (r: Result<(), Error>)
        requires
            crate::types::type_tame(self@),
            schema_sane(schema_view(custom_types@)),
        ensures
            r is Ok <==> conforms(schema_view(custom_types@), self@, value@),
            r matches Err(e) ==> e is TypeMismatch,
        decreases json_size(*value), type_rank(self@),
    {
        broadcast use {lemma_member_views, lemma_json_views, lemma_entry_views,
            crate::json::lemma_json_view_variant, crate::types::lemma_type_view_variant,
            lemma_assoc_lookup, lemma_schema_lookup_contains, lemma_schema_view};

        let ghost s = schema_view(custom_types@);
        match self {
            DynamicType::String => {
                if matches!(value, JsonValue::Text(_)) {
                    Ok(())
                } else {
                    Err(Error::TypeMismatch)
                }
            },
            DynamicType::I64 => {
                match value {
                    JsonValue::Number(n) => match n {
                        JsonNumber::PosInt(u) => {
                            if *u <= i64::MAX as u64 {
                                Ok(())
                            } else {
                                Err(Error::TypeMismatch)
                            }
                        },
                        JsonNumber::NegInt(_) => Ok(()),
                        JsonNumber::Float(_) => Err(Error::TypeMismatch),
                    },
                    _ => Err(Error::TypeMismatch),
                }
            },
            DynamicType::U64 => {
                match value {
                    JsonValue::Number(n) => {
                        if matches!(n, JsonNumber::PosInt(_)) {
                            Ok(())
                        } else {
                            Err(Error::TypeMismatch)
                        }
                    },
                    _ => Err(Error::TypeMismatch),
                }
            },
            DynamicType::F64 => {
                if matches!(value, JsonValue::Number(_)) {
                    Ok(())
                } else {
                    Err(Error::TypeMismatch)
                }
            },
            DynamicType::Bool => {
                if matches!(value, JsonValue::Bool(_)) {
                    Ok(())
                } else {
                    Err(Error::TypeMismatch)
                }
            },
            DynamicType::Array(et) => {
                match value {
                    JsonValue::Array(items) => {
                        let ghost jv = json_views(items@);
                        let mut i: usize = 0;
                        while i < items.len()
                            invariant
                                i <= items.len(),
                                forall|j: int| 0 <= j < i as int ==> conforms(
                                    s,
                                    type_view(**et),
                                    #[trigger] jv[j],
                                ),
                            decreases items.len() - i,
                        {
                            proof {
                                lemma_json_list_size_bound(items@, i as int);
                            }
                            match (&**et).deserialize(&items[i], custom_types) {
                                Ok(()) => {},
                                Err(e) => {
                                    proof {
                                        let etv = type_view(**et);
                                        assert(!conforms(s, etv, jv[i as int]));
                                        assert(value@ == JsonV::Array(jv));
                                        assert(self@ == TypeV::Array(Box::new(etv)));
                                        if conforms(s, self@, value@) {
                                            assert(*Box::new(etv) == etv);
                                            assert(JsonV::Array(jv)->Array_0 == jv);
                                            assert(conforms(s, etv, jv[i as int]));
                                            assert(false);
                                        }
                                    }
                                    return Err(Error::TypeMismatch);
                                },
                            }
                            i = i + 1;
                        }
                        Ok(())
                    },
                    _ => Err(Error::TypeMismatch),
                }
            },
            DynamicType::Union(vs) => {
                let ghost m = member_views(vs@);
                match value {
                    JsonValue::Object(entries) => {
                        let ghost ev = entry_views(entries@);
                        if entries.len() != 1 {
                            return Err(Error::TypeMismatch);
                        }
                        match member_find(vs, &entries[0].0) {
                            Some(k) => {
                                proof {
                                    lemma_entry_list_size_bound(entries@, 0);
                                    assert(self@ == TypeV::Union(m));
                                    crate::types::lemma_tame_union_member(m, k as int);
                                    assert(m[k as int].1 == type_view(vs@[k as int].1));
                                    assert(ev[0].0 == entries@[0].0@);
                                    assert(assoc_lookup(m, ev[0].0) == Some(m[k as int].1));
                                }
                                match vs[k].1.deserialize(&entries[0].1, custom_types) {
                                    Ok(()) => Ok(()),
                                    Err(_) => {
                                        proof {
                                            assert(ev[0].1 == crate::json::json_view(
                                                entries@[0].1,
                                            ));
                                            assert(!conforms(s, m[k as int].1, ev[0].1));
                                            assert(!conforms(s, self@, value@));
                                        }
                                        Err(Error::TypeMismatch)
                                    },
                                }
                            },
                            None => Err(Error::TypeMismatch),
                        }
                    },
                    JsonValue::Text(txt) => {
                        match member_find(vs, txt) {
                            Some(k) => {
                                if matches!(vs[k].1, DynamicType::Invalid) {
                                    Ok(())
                                } else {
                                    Err(Error::TypeMismatch)
                                }
                            },
                            None => Err(Error::TypeMismatch),
                        }
                    },
                    _ => Err(Error::TypeMismatch),
                }
            },
            DynamicType::Optional(inner) => {
                if matches!(value, JsonValue::Null) {
                    Ok(())
                } else {
                    (&**inner).deserialize(value, custom_types)
                }
            },
            DynamicType::Reference(nm) => {
                match crate::types::schema_get(custom_types, nm) {
                    Some(f) => {
                        proof {
                            lemma_sane_lookup(s, nm@);
                            crate::types::lemma_fields_wf_tame(f@, Set::full());
                        }
                        match f {
                            Fields::Basic(bt) => bt.deserialize(value, custom_types),
                            Fields::Object(ofs) => {
                                match value {
                                    JsonValue::Object(entries) => check_object(
                                        ofs,
                                        entries,
                                        custom_types,
                                    ),
                                    _ => Err(Error::TypeMismatch),
                                }
                            },
                        }
                    },
                    None => Err(Error::TypeMismatch),
                }
            },
            DynamicType::Invalid => Err(Error::TypeMismatch),
        }
    }
}

impl Fields {
    /// Checks one value against this definition body; succeeds exactly on
    /// conforming values.
    pub fn check_value(&self, data: &JsonValue, custom_types: &Schema) -> (r: Result<(), Error>)
        requires
            fields_wf(self@, Set::full()),
            schema_sane(schema_view(custom_types@)),
        ensures
            r is Ok <==> fields_conforms(schema_view(custom_types@), self@, data@),
            r matches Err(e) ==> e is TypeMismatch,
    {
        broadcast use {lemma_member_views, crate::json::lemma_json_view_variant,
            crate::types::lemma_type_view_variant};

        proof {
            crate::types::lemma_fields_wf_tame(self@, Set::full());
        }
        match self {
            Fields::Basic(t) => t.deserialize(data, custom_types),
            Fields::Object(fs) => {
                match data {
                    JsonValue::Object(entries) => check_object(fs, entries, custom_types),
                    _ => Err(Error::TypeMismatch),
                }
            },
        }
    }
}

/// The names of the built-in types.
pub open spec fn is_builtin(tn: Seq<char>) -> bool {
    tn == "String"@ || tn == "i64"@ || tn == "u64"@ || tn == "f64"@ || tn == "bool"@
}

/// Whether a name equals a literal.
pub(crate) fn str_is(name: &String, lit: &str) -> (r: bool)
    ensures
        r == (name@ == lit@),
{
    *name == lit.to_owned()
}

/// Checks a value against a built-in type name.
fn builtin_check(typename: &String, content: &JsonValue, custom_types: &Schema) -> (r: Result<
    (),
    Error,
>)
    requires
        schema_sane(schema_view(custom_types@)),
    ensures
        r is Ok <==> builtin_conforms(typename@, content@),
        r matches Err(e) ==> (e is TypeMismatch || e is UnknownName),
        r matches Err(e) ==> ((e is UnknownName) == !is_builtin(typename@)),
{
    if str_is(typename, "String") {
        DynamicType::String.deserialize(content, custom_types)
    } else if str_is(typename, "i64") {
        DynamicType::I64.deserialize(content, custom_types)
    } else if str_is(typename, "u64") {
        DynamicType::U64.deserialize(content, custom_types)
    } else if str_is(typename, "f64") {
        DynamicType::F64.deserialize(content, custom_types)
    } else if str_is(typename, "bool") {
        DynamicType::Bool.deserialize(content, custom_types)
    } else {
        Err(Error::UnknownName(typename.clone()))
    }
}

/// Conformance of a value to the type named `tn`, requiring the name to be
/// non-empty: the rule applied when a data slot or property is declared.
pub open spec fn data_conforms(s: SchemaV, tn: Seq<char>, v: JsonV) -> bool {
    tn.len() > 0 && resolve_conforms(s, tn, v)
}

/// Checks a declared element: the type name must be non-empty and the
/// content must conform to the named type.
pub fn check_data(typename: &String, content: &JsonValue, custom_types: &Schema) -> (r: Result<
    (),
    Error,
>)
    requires
        schema_sane(schema_view(custom_types@)),
    ensures
        r is Ok <==> data_conforms(schema_view(custom_types@), typename@, content@),
        r matches Err(e) ==> ((e is EmptyName) == (typename@.len() == 0)),
        r matches Err(e) ==> (e is EmptyName || e is TypeMismatch || e is UnknownName),
{
    broadcast use {lemma_schema_view, lemma_schema_lookup_contains};

    if typename.as_str().is_empty() {
        return Err(Error::EmptyName);
    }
    match crate::types::schema_get(custom_types, typename) {
        Some(f) => {
            proof {
                lemma_sane_lookup(schema_view(custom_types@), typename@);
            }
            f.check_value(content, custom_types)
        },
        None => builtin_check(typename, content, custom_types),
    }
}

/// Checks one registration against the slot it addresses: the incoming
/// name and type name must equal the slot's, and the incoming content must
/// conform to the slot's declared type.
pub fn register_data(
    local_name: &String,
    local_typename: &String,
    custom_types: &Schema,
    name: &String,
    typename: &String,
    content: &JsonValue,
) -> (r: Result<(), Error>)
    requires
        schema_sane(schema_view(custom_types@)),
    ensures
        r is Ok <==> (local_name@ == name@ && local_typename@ == typename@
            && resolve_conforms(schema_view(custom_types@), local_typename@, content@)),
        r matches Err(e) ==> (e is TypeMismatch || e is UnknownName),
{
    broadcast use {lemma_schema_view, lemma_schema_lookup_contains};

    if !(*local_name == *name) {
        return Err(Error::TypeMismatch);
    }
    if !(*local_typename == *typename) {
        return Err(Error::TypeMismatch);
    }
    match crate::types::schema_get(custom_types, local_typename) {
        Some(f) => {
            proof {
                lemma_sane_lookup(schema_view(custom_types@), local_typename@);
            }
            f.check_value(content, custom_types)
        },
        None => builtin_check(local_typename, content, custom_types),
    }
}

} // verus!
