//! A model of semi-structured (JSON-like) values: the content carried by
//! data slots and properties of the document.
//!
//! Numbers distinguish the three kinds a JSON text can denote: a
//! non-negative integer, a negative integer, and a non-integral number.
//! The last is kept as its IEEE-754 bit pattern; the validator only ever
//! inspects the kind of a number, never the numeric value of a float.

use vstd::prelude::*;

verus! {

/// Numeric payload of a [`JsonValue`].
#[derive(Clone, Copy, PartialEq, Eq, Structural, Debug)]
pub enum JsonNumber {
    /// A non-negative integer.
    PosInt(u64),
    /// A negative integer.
    NegInt(i64),
    /// A number that is not exactly an integer, as IEEE-754 double bits.
    Float(u64),
}

/// A semi-structured value: the content of data slots and properties.
#[derive(PartialEq, Debug)]
pub enum JsonValue {
    Null,
    Bool(bool),
    Number(JsonNumber),
    Text(String),
    Array(Vec<JsonValue>),
    Object(Vec<(String, JsonValue)>),
}

/// The mathematical model of a [`JsonValue`].
pub enum JsonV {
    Null,
    Bool(bool),
    Number(JsonNumber),
    Text(Seq<char>),
    Array(Seq<JsonV>),
    Object(Seq<(Seq<char>, JsonV)>),
}

/// The model of one value.
pub open spec fn json_view(v: JsonValue) -> JsonV
    decreases v,
{
    match v {
        JsonValue::Null => JsonV::Null,
        JsonValue::Bool(b) => JsonV::Bool(b),
        JsonValue::Number(n) => JsonV::Number(n),
        JsonValue::Text(s) => JsonV::Text(s@),
        JsonValue::Array(items) => JsonV::Array(json_views(items@)),
        JsonValue::Object(entries) => JsonV::Object(entry_views(entries@)),
    }
}

/// The models of a sequence of values, in order.
pub open spec fn json_views(s: Seq<JsonValue>) -> Seq<JsonV>
    decreases s,
{
    if s.len() == 0 {
        Seq::empty()
    } else {
        json_views(s.drop_last()).push(json_view(s.last()))
    }
}

/// The models of a sequence of named values, in order.
pub open spec fn entry_views(s: Seq<(String, JsonValue)>) -> Seq<(Seq<char>, JsonV)>
    decreases s,
{
    if s.len() == 0 {
        Seq::empty()
    } else {
        entry_views(s.drop_last()).push((s.last().0@, json_view(s.last().1)))
    }
}

/// The model of a sequence of values is the sequence of the models, pointwise.
pub broadcast proof fn lemma_json_views(s: Seq<JsonValue>)
    ensures
        (#[trigger] json_views(s)).len() == s.len(),
        forall|i: int| 0 <= i < s.len() ==> json_views(s)[i] == json_view(s[i]),
    decreases s.len(),
{
    if s.len() > 0 {
        lemma_json_views(s.drop_last());
    }
}

/// The model of a sequence of named values is the sequence of the models, pointwise.
pub broadcast proof fn lemma_entry_views(s: Seq<(String, JsonValue)>)
    ensures
        (#[trigger] entry_views(s)).len() == s.len(),
        forall|i: int| 0 <= i < s.len() ==> entry_views(s)[i] == (
            s[i].0@,
            json_view(s[i].1),
        ),
    decreases s.len(),
{
    if s.len() > 0 {
        lemma_entry_views(s.drop_last());
    }
}

/// The model of a value has the same variant as the value.
pub broadcast proof fn lemma_json_view_variant(v: JsonValue)
    ensures
        ((#[trigger] json_view(v)) is Null) == (v is Null),
        (json_view(v) is Bool) == (v is Bool),
        (json_view(v) is Number) == (v is Number),
        (json_view(v) is Text) == (v is Text),
        (json_view(v) is Array) == (v is Array),
        (json_view(v) is Object) == (v is Object),
        v matches JsonValue::Number(n) ==> json_view(v) == JsonV::Number(n),
        v matches JsonValue::Bool(b) ==> json_view(v) == JsonV::Bool(b),
{
    match v {
        JsonValue::Null => {},
        JsonValue::Bool(_) => {},
        JsonValue::Number(_) => {},
        JsonValue::Text(_) => {},
        JsonValue::Array(_) => {},
        JsonValue::Object(_) => {},
    }
}

impl View for JsonValue {
    type V = JsonV;

    open spec fn view(&self) -> JsonV {
        json_view(*self)
    }
}

/// A size measure on values, used to bound recursion over them.
pub open spec fn json_size(v: JsonValue) -> nat
    decreases v,
{
    match v {
        JsonValue::Null => 1,
        JsonValue::Bool(_) => 1,
        JsonValue::Number(_) => 1,
        JsonValue::Text(_) => 1,
        JsonValue::Array(items) => 1 + json_list_size(items@),
        JsonValue::Object(entries) => 1 + entry_list_size(entries@),
    }
}

/// The combined size of a sequence of values.
pub open spec fn json_list_size(s: Seq<JsonValue>) -> nat
    decreases s,
{
    if s.len() == 0 {
        0
    } else {
        json_list_size(s.drop_last()) + json_size(s.last())
    }
}

/// The combined size of a sequence of named values.
pub open spec fn entry_list_size(s: Seq<(String, JsonValue)>) -> nat
    decreases s,
{
    if s.len() == 0 {
        0
    } else {
        entry_list_size(s.drop_last()) + json_size(s.last().1)
    }
}

/// Each element of a sequence of values is no larger than the whole sequence.
pub proof fn lemma_json_list_size_bound(s: Seq<JsonValue>, i: int)
    requires
        0 <= i < s.len(),
    ensures
        json_size(s[i]) <= json_list_size(s),
    decreases s.len(),
{
    if i == s.len() - 1 {
        assert(s.last() == s[i]);
    } else {
        lemma_json_list_size_bound(s.drop_last(), i);
        assert(s.drop_last()[i] == s[i]);
    }
}

/// Each named element of a sequence is no larger than the whole sequence.
pub proof fn lemma_entry_list_size_bound(s: Seq<(String, JsonValue)>, i: int)
    requires
        0 <= i < s.len(),
    ensures
        json_size(s[i].1) <= entry_list_size(s),
    decreases s.len(),
{
    if i == s.len() - 1 {
        assert(s.last() == s[i]);
    } else {
        lemma_entry_list_size_bound(s.drop_last(), i);
        assert(s.drop_last()[i] == s[i]);
    }
}

/// Copies a value; the copy has the same mathematical model as the original.
#[verifier::loop_isolation(false)]
pub fn clone_json(v: &JsonValue) -> (r: JsonValue)
    ensures
        r@ == v@,
    decreases json_size(*v),
{
    match v {
        JsonValue::Null => JsonValue::Null,
        JsonValue::Bool(b) => JsonValue::Bool(*b),
        JsonValue::Number(n) => JsonValue::Number(*n),
        JsonValue::Text(s) => JsonValue::Text(s.clone()),
        JsonValue::Array(items) => {
            let mut out: Vec<JsonValue> = Vec::new();
            let mut i: usize = 0;
            while i < items.len()
                invariant
                    i <= items.len(),
                    out@.len() == i as int,
                    forall|j: int| 0 <= j < i as int ==> out@[j]@ == items@[j]@,
                decreases items.len() - i,
            {
                proof {
                    lemma_json_list_size_bound(items@, i as int);
                }
                let e = clone_json(&items[i]);
                out.push(e);
                i = i + 1;
            }
            let r = JsonValue::Array(out);
            proof {
                broadcast use lemma_json_views;

                assert(json_views(out@) =~= json_views(items@));
            }
            r
        },
        JsonValue::Object(entries) => {
            let mut out: Vec<(String, JsonValue)> = Vec::new();
            let mut i: usize = 0;
            while i < entries.len()
                invariant
                    i <= entries.len(),
                    out@.len() == i as int,
                    forall|j: int| 0 <= j < i as int ==> out@[j].0@ == entries@[j].0@
                        && out@[j].1@ == entries@[j].1@,
                decreases entries.len() - i,
            {
                proof {
                    lemma_entry_list_size_bound(entries@, i as int);
                }
                let e = clone_json(&entries[i].1);
                let k = entries[i].0.clone();
                out.push((k, e));
                i = i + 1;
            }
            let r = JsonValue::Object(out);
            proof {
                broadcast use lemma_entry_views;

                assert(entry_views(out@) =~= entry_views(entries@));
            }
            r
        },
    }
}

} // verus!
