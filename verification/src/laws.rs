//! The engine's global guarantees, stated and proved once over the
//! specification-level transition function and the conformance relation.

use vstd::prelude::*;

use crate::cycle::has_cycle_in;
use crate::document::{
    data_apply, prop_apply, props_after, slots_after, up_register_spec, DocV, PropertiesV,
    UnitDataV, UnitProcessV,
};
use crate::engine::{refs_graph, schema_merge, transition, ChangeV, EventsV};
use crate::types::{count_optionals, keys_distinct, names_of, seq_distinct, SchemaV, TypeV};
use crate::validate::{conforms, conforms_obj, has_name};
use crate::json::JsonV;

verus! {

/// A structural event: everything but a data registration.
pub open spec fn is_structural(ev: EventsV) -> bool {
    ev is ChangeProductionSystem
}

/// Monotonic versioning, one step: a successful structural event
/// increments the version by exactly 1; a successful data registration
/// leaves it unchanged.
pub proof fn lemma_version_step(doc: DocV, ev: EventsV)
    requires
        transition(doc, ev) is Some,
    ensures
        is_structural(ev) ==> transition(doc, ev)->Some_0.version == doc.version + 1,
        !is_structural(ev) ==> transition(doc, ev)->Some_0.version == doc.version,
{
    match ev {
        EventsV::ChangeProductionSystem(op) => {
            match op {
                ChangeV::Init { .. } => {},
                ChangeV::ModifyProductionSystem { .. } => {},
                ChangeV::ModifyTypes { .. } => {},
                ChangeV::ModifyUnitProcess { .. } => {},
            }
        },
        EventsV::RegisterData(_) => {},
    }
}

/// The documents an event sequence passes through, when every event is
/// accepted.
pub open spec fn apply_all(doc: DocV, evs: Seq<EventsV>) -> Option<DocV>
    decreases evs.len(),
{
    if evs.len() == 0 {
        Some(doc)
    } else {
        match transition(doc, evs[0]) {
            Some(d) => apply_all(d, evs.drop_first()),
            None => None,
        }
    }
}

/// Monotonic versioning: over any sequence of accepted structural events,
/// the version grows by exactly one per event.
pub proof fn lemma_monotonic_versioning(doc: DocV, evs: Seq<EventsV>)
    requires
        apply_all(doc, evs) is Some,
        forall|i: int| 0 <= i < evs.len() ==> is_structural(#[trigger] evs[i]),
    ensures
        apply_all(doc, evs)->Some_0.version == doc.version + evs.len(),
    decreases evs.len(),
{
    if evs.len() > 0 {
        lemma_version_step(doc, evs[0]);
        let d = transition(doc, evs[0])->Some_0;
        assert forall|i: int| 0 <= i < evs.drop_first().len() implies is_structural(
            #[trigger] evs.drop_first()[i],
        ) by {
            assert(evs.drop_first()[i] == evs[i + 1]);
        }
        lemma_monotonic_versioning(d, evs.drop_first());
    }
}

/// Schema acyclicity: a batch of type definitions that closes a reference
/// cycle — directly or transitively, also through definitions already in
/// the schema — is rejected whole; no successor document exists, so the
/// schema is unchanged.
pub proof fn lemma_cyclic_add_rejected(doc: DocV, adds: SchemaV)
    requires
        doc.version != 0,
        has_cycle_in(refs_graph(schema_merge(doc.custom_types, adds))),
    ensures
        transition(
            doc,
            EventsV::ChangeProductionSystem(
                ChangeV::ModifyTypes { delete: None, add: Some(adds) },
            ),
        ) is None,
{
}

/// Optional-field arity, acceptance: an object value whose entries are
/// pairwise distinct, all declared, all conforming, and that covers every
/// non-optional field, conforms to the record shape.
pub proof fn lemma_arity_acceptance(
    s: SchemaV,
    fs: Seq<(Seq<char>, TypeV)>,
    entries: Seq<(Seq<char>, JsonV)>,
)
    requires
        keys_distinct(entries),
        forall|i: int| 0 <= i < entries.len() ==> has_name(fs, (#[trigger] entries[i]).0),
        forall|j: int, i: int|
            0 <= j < fs.len() && 0 <= i < entries.len() && (#[trigger] fs[j]).0 == (
            #[trigger] entries[i]).0 ==> conforms(s, fs[j].1, entries[i].1),
        forall|j: int|
            0 <= j < fs.len() ==> ((#[trigger] fs[j]).1 is Optional || has_name(
                entries,
                fs[j].0,
            )),
    ensures
        conforms_obj(s, fs, entries),
{
}

/// The names of the fields a value may not omit.
spec fn required_names(fs: Seq<(Seq<char>, TypeV)>) -> Seq<Seq<char>>
    decreases fs.len(),
{
    if fs.len() == 0 {
        Seq::empty()
    } else if fs.last().1 is Optional {
        required_names(fs.drop_last())
    } else {
        required_names(fs.drop_last()).push(fs.last().0)
    }
}

/// There are exactly `total - optional` required names, each the name of
/// some non-optional field; under distinct field names they are distinct.
proof fn lemma_required_names(fs: Seq<(Seq<char>, TypeV)>)
    ensures
        required_names(fs).len() == fs.len() - count_optionals(fs),
        forall|k: int| 0 <= k < required_names(fs).len() ==> exists|j: int|
            0 <= j < fs.len() && fs[j].0 == #[trigger] required_names(fs)[k] && !(fs[j].1
                is Optional),
        keys_distinct(fs) ==> seq_distinct(required_names(fs)),
    decreases fs.len(),
{
    crate::types::lemma_count_optionals_le(fs);
    if fs.len() > 0 {
        lemma_required_names(fs.drop_last());
        let d = fs.drop_last();
        assert(keys_distinct(fs) ==> keys_distinct(d)) by {
            if keys_distinct(fs) {
                assert forall|i: int, j: int| 0 <= i < j < d.len() implies d[i].0 != d[j].0 by {
                    assert(d[i] == fs[i]);
                    assert(d[j] == fs[j]);
                }
            }
        }
        assert forall|k: int| 0 <= k < required_names(fs).len() implies exists|j: int|
            0 <= j < fs.len() && fs[j].0 == #[trigger] required_names(fs)[k] && !(fs[j].1
                is Optional) by {
            if k < required_names(d).len() {
                let j = choose|j: int|
                    0 <= j < d.len() && d[j].0 == required_names(d)[k] && !(d[j].1 is Optional);
                assert(fs[j] == d[j]);
                assert(required_names(fs)[k] == required_names(d)[k]);
            } else {
                assert(!(fs.last().1 is Optional));
                assert(required_names(fs)[k] == fs.last().0);
                assert(fs[fs.len() - 1] == fs.last());
            }
        }
        if keys_distinct(fs) {
            assert forall|a: int, b: int|
                0 <= a < b < required_names(fs).len() implies required_names(fs)[a]
                != required_names(fs)[b] by {
                if b < required_names(d).len() {
                } else {
                    assert(!(fs.last().1 is Optional));
                    assert(required_names(fs)[b] == fs.last().0);
                    let j = choose|j: int|
                        0 <= j < d.len() && d[j].0 == required_names(d)[a] && !(d[j].1
                            is Optional);
                    assert(fs[j].0 == required_names(fs)[a]);
                    assert(fs[j].0 != fs[fs.len() - 1].0);
                }
            }
        }
    }
}

/// A duplicate-free sequence in the library's sense has no duplicates in
/// the standard sense.
proof fn lemma_distinct_no_duplicates(s: Seq<Seq<char>>)
    requires
        seq_distinct(s),
    ensures
        s.no_duplicates(),
{
    assert forall|i: int, j: int|
        0 <= i < s.len() && 0 <= j < s.len() && i != j implies s[i] != s[j] by {
        if i < j {
            assert(s[i] != s[j]);
        } else {
            assert(s[j] != s[i]);
        }
    }
}

/// Optional-field arity, rejection bounds: a conforming object value for
/// a record shape of `n` fields, `k` of them optional, has between
/// `n - k` and `n` entries; any value outside that range is rejected.
pub proof fn lemma_optional_field_arity(
    s: SchemaV,
    fs: Seq<(Seq<char>, TypeV)>,
    entries: Seq<(Seq<char>, JsonV)>,
)
    requires
        keys_distinct(fs),
        conforms_obj(s, fs, entries),
    ensures
        fs.len() - count_optionals(fs) <= entries.len() <= fs.len(),
{
    broadcast use vstd::seq_lib::seq_to_set_is_finite;

    let en = names_of(entries);
    let fn_ = names_of(fs);
    let rn = required_names(fs);

    // Upper bound: distinct entry names all drawn from the field names.
    assert(seq_distinct(en)) by {
        assert forall|i: int, j: int| 0 <= i < j < en.len() implies en[i] != en[j] by {
            assert(en[i] == entries[i].0);
            assert(en[j] == entries[j].0);
        }
    }
    lemma_distinct_no_duplicates(en);
    en.unique_seq_to_set();
    assert(en.to_set().subset_of(fn_.to_set())) by {
        assert forall|x: Seq<char>| en.to_set().contains(x) implies fn_.to_set().contains(x) by {
            let i = choose|i: int| 0 <= i < en.len() && en[i] == x;
            assert(entries[i].0 == x);
            assert(has_name(fs, x));
            let j = choose|j: int| 0 <= j < fs.len() && fs[j].0 == x;
            assert(fn_[j] == x);
        }
    }
    vstd::set_lib::lemma_len_subset(en.to_set(), fn_.to_set());
    fn_.lemma_cardinality_of_set();

    // Lower bound: the required names are distinct and all present.
    lemma_required_names(fs);
    lemma_distinct_no_duplicates(rn);
    rn.unique_seq_to_set();
    assert(rn.to_set().subset_of(en.to_set())) by {
        assert forall|x: Seq<char>| rn.to_set().contains(x) implies en.to_set().contains(x) by {
            let k = choose|k: int| 0 <= k < rn.len() && rn[k] == x;
            let j = choose|j: int|
                0 <= j < fs.len() && fs[j].0 == rn[k] && !(fs[j].1 is Optional);
            assert(has_name(entries, fs[j].0));
            let i = choose|i: int| 0 <= i < entries.len() && entries[i].0 == x;
            assert(en[i] == x);
        }
    }
    vstd::set_lib::lemma_len_subset(rn.to_set(), en.to_set());
}

/// Round-trip registration: an accepted registration batch changes only
/// the content (and, for data slots, the targets) of the slots it
/// addresses; names, type names, metadata, every unaddressed slot, and
/// the process name are untouched.
pub proof fn lemma_registration_roundtrip(s: SchemaV, u: UnitProcessV, ud: UnitDataV)
    requires
        up_register_spec(s, u, ud) is Some,
    ensures
        up_register_spec(s, u, ud)->Some_0.name == u.name,
        up_register_spec(s, u, ud)->Some_0.inputs.len() == u.inputs.len(),
        up_register_spec(s, u, ud)->Some_0.outputs.len() == u.outputs.len(),
        up_register_spec(s, u, ud)->Some_0.properties.len() == u.properties.len(),
        forall|i: int| 0 <= i < u.inputs.len() ==> {
            let d2 = #[trigger] up_register_spec(s, u, ud)->Some_0.inputs[i];
            d2.name == u.inputs[i].name && d2.typename == u.inputs[i].typename && d2.metadata
                == u.inputs[i].metadata
        },
        forall|i: int| 0 <= i < u.outputs.len() ==> {
            let d2 = #[trigger] up_register_spec(s, u, ud)->Some_0.outputs[i];
            d2.name == u.outputs[i].name && d2.typename == u.outputs[i].typename && d2.metadata
                == u.outputs[i].metadata
        },
        forall|i: int| 0 <= i < u.properties.len() ==> {
            let p2 = #[trigger] up_register_spec(s, u, ud)->Some_0.properties[i];
            p2.name == u.properties[i].name && p2.typename == u.properties[i].typename
        },
{
    let u2 = up_register_spec(s, u, ud)->Some_0;
    assert forall|i: int| 0 <= i < u.inputs.len() implies {
        let d2 = #[trigger] u2.inputs[i];
        d2.name == u.inputs[i].name && d2.typename == u.inputs[i].typename && d2.metadata
            == u.inputs[i].metadata
    } by {
        match ud.inputs {
            None => {},
            Some(regs) => {
                assert(u2.inputs == slots_after(u.inputs, regs));
                assert(u2.inputs[i] == (match crate::document::last_match_reg(
                    regs,
                    u.inputs[i].name,
                ) {
                    Some(r) => data_apply(u.inputs[i], r),
                    None => u.inputs[i],
                }));
            },
        }
    }
    assert forall|i: int| 0 <= i < u.outputs.len() implies {
        let d2 = #[trigger] u2.outputs[i];
        d2.name == u.outputs[i].name && d2.typename == u.outputs[i].typename && d2.metadata
            == u.outputs[i].metadata
    } by {
        match ud.outputs {
            None => {},
            Some(regs) => {
                assert(u2.outputs == slots_after(u.outputs, regs));
                assert(u2.outputs[i] == (match crate::document::last_match_reg(
                    regs,
                    u.outputs[i].name,
                ) {
                    Some(r) => data_apply(u.outputs[i], r),
                    None => u.outputs[i],
                }));
            },
        }
    }
    assert forall|i: int| 0 <= i < u.properties.len() implies {
        let p2 = #[trigger] u2.properties[i];
        p2.name == u.properties[i].name && p2.typename == u.properties[i].typename
    } by {
        match ud.properties {
            None => {},
            Some(regs) => {
                assert(u2.properties == props_after(u.properties, regs));
                assert(u2.properties[i] == (match crate::document::last_match_prop(
                    regs,
                    u.properties[i].name,
                ) {
                    Some(r) => prop_apply(u.properties[i], r),
                    None => u.properties[i],
                }));
            },
        }
    }
}

} // verus!
