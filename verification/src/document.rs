//! The document model: the aggregate state of one production system and
//! the per-entity shapes inside it — unit processes, typed data slots,
//! properties, metadata and target references — with their structural
//! invariants and the per-entity validation and registration steps.

use vstd::prelude::*;

use crate::errors::Error;
use crate::json::{json_view, JsonV, JsonValue};
use crate::types::{clone_schema, schema_view, seq_distinct, Schema, SchemaV};
use crate::validate::{data_conforms, resolve_conforms, schema_sane};

verus! {

/// Where registered data is aimed: all three names must be non-empty.
#[derive(PartialEq, Debug)]
pub struct Target {
    pub governance_id: String,
    pub subject_id: String,
    pub unit_process: String,
}

/// A side value carried by a data slot, typed independently.
#[derive(PartialEq, Debug)]
pub struct Metadata {
    pub typename: String,
    pub content: JsonValue,
}

/// A named, typed value attached to the document or to a unit process.
#[derive(PartialEq, Debug)]
pub struct Properties {
    pub name: String,
    pub typename: String,
    pub content: JsonValue,
}

/// A typed data slot of a unit process.
#[derive(PartialEq, Debug)]
pub struct Data {
    pub name: String,
    pub typename: String,
    pub metadata: Option<Metadata>,
    pub content: JsonValue,
    pub targets: Option<Vec<Target>>,
}

/// One incoming registration for a data slot.
#[derive(PartialEq, Debug)]
pub struct RegisterData {
    pub name: String,
    pub typename: String,
    pub content: JsonValue,
    pub targets: Option<Vec<Target>>,
}

/// One batch of registrations aimed at a named unit process.
#[derive(PartialEq, Debug)]
pub struct UnitData {
    pub name: String,
    pub outputs: Option<Vec<RegisterData>>,
    pub inputs: Option<Vec<RegisterData>>,
    pub properties: Option<Vec<Properties>>,
}

/// A named production step with typed input, output and property slots.
#[derive(PartialEq, Debug)]
pub struct UnitProcess {
    pub name: String,
    pub inputs: Vec<Data>,
    pub outputs: Vec<Data>,
    pub properties: Vec<Properties>,
}

/// The aggregate document: name, monotonic version counter, schema, unit
/// processes and top-level properties.
#[derive(PartialEq, Debug)]
pub struct ProductionSystem {
    pub name: String,
    pub custom_types: Schema,
    pub version: u32,
    pub unit_process: Vec<UnitProcess>,
    pub properties: Vec<Properties>,
}

/// The model of a [`Target`].
pub struct TargetV {
    pub governance_id: Seq<char>,
    pub subject_id: Seq<char>,
    pub unit_process: Seq<char>,
}

/// The model of a [`Metadata`].
pub struct MetadataV {
    pub typename: Seq<char>,
    pub content: JsonV,
}

/// The model of a [`Properties`].
pub struct PropertiesV {
    pub name: Seq<char>,
    pub typename: Seq<char>,
    pub content: JsonV,
}

/// The model of a [`Data`].
pub struct DataV {
    pub name: Seq<char>,
    pub typename: Seq<char>,
    pub metadata: Option<MetadataV>,
    pub content: JsonV,
    pub targets: Option<Seq<TargetV>>,
}

/// The model of a [`RegisterData`].
pub struct RegisterDataV {
    pub name: Seq<char>,
    pub typename: Seq<char>,
    pub content: JsonV,
    pub targets: Option<Seq<TargetV>>,
}

/// The model of a [`UnitData`].
pub struct UnitDataV {
    pub name: Seq<char>,
    pub outputs: Option<Seq<RegisterDataV>>,
    pub inputs: Option<Seq<RegisterDataV>>,
    pub properties: Option<Seq<PropertiesV>>,
}

/// The model of a [`UnitProcess`].
pub struct UnitProcessV {
    pub name: Seq<char>,
    pub inputs: Seq<DataV>,
    pub outputs: Seq<DataV>,
    pub properties: Seq<PropertiesV>,
}

/// The model of a [`ProductionSystem`].
pub struct DocV {
    pub name: Seq<char>,
    pub custom_types: SchemaV,
    pub version: int,
    pub unit_process: Seq<UnitProcessV>,
    pub properties: Seq<PropertiesV>,
}

impl View for Target {
    type V = TargetV;

    open spec fn view(&self) -> TargetV {
        TargetV {
            governance_id: self.governance_id@,
            subject_id: self.subject_id@,
            unit_process: self.unit_process@,
        }
    }
}

impl View for Metadata {
    type V = MetadataV;

    open spec fn view(&self) -> MetadataV {
        MetadataV { typename: self.typename@, content: json_view(self.content) }
    }
}

impl View for Properties {
    type V = PropertiesV;

    open spec fn view(&self) -> PropertiesV {
        PropertiesV {
            name: self.name@,
            typename: self.typename@,
            content: json_view(self.content),
        }
    }
}

/// The models of a list of targets, in order.
pub open spec fn targets_view(s: Seq<Target>) -> Seq<TargetV> {
    s.map_values(|t: Target| t@)
}

/// The model of an optional list of targets.
pub open spec fn opt_targets_view(o: Option<Vec<Target>>) -> Option<Seq<TargetV>> {
    match o {
        Some(v) => Some(targets_view(v@)),
        None => None,
    }
}

/// The model of an optional metadata value.
pub open spec fn opt_metadata_view(o: Option<Metadata>) -> Option<MetadataV> {
    match o {
        Some(m) => Some(m@),
        None => None,
    }
}

impl View for Data {
    type V = DataV;

    open spec fn view(&self) -> DataV {
        DataV {
            name: self.name@,
            typename: self.typename@,
            metadata: opt_metadata_view(self.metadata),
            content: json_view(self.content),
            targets: opt_targets_view(self.targets),
        }
    }
}

impl View for RegisterData {
    type V = RegisterDataV;

    open spec fn view(&self) -> RegisterDataV {
        RegisterDataV {
            name: self.name@,
            typename: self.typename@,
            content: json_view(self.content),
            targets: opt_targets_view(self.targets),
        }
    }
}

/// The models of a list of properties, in order.
pub open spec fn props_view(s: Seq<Properties>) -> Seq<PropertiesV> {
    s.map_values(|p: Properties| p@)
}

/// The models of a list of data slots, in order.
pub open spec fn datas_view(s: Seq<Data>) -> Seq<DataV> {
    s.map_values(|d: Data| d@)
}

/// The models of a list of registrations, in order.
pub open spec fn regs_view(s: Seq<RegisterData>) -> Seq<RegisterDataV> {
    s.map_values(|d: RegisterData| d@)
}

impl View for UnitData {
    type V = UnitDataV;

    open spec fn view(&self) -> UnitDataV {
        UnitDataV {
            name: self.name@,
            outputs: match self.outputs {
                Some(v) => Some(regs_view(v@)),
                None => None,
            },
            inputs: match self.inputs {
                Some(v) => Some(regs_view(v@)),
                None => None,
            },
            properties: match self.properties {
                Some(v) => Some(props_view(v@)),
                None => None,
            },
        }
    }
}

impl View for UnitProcess {
    type V = UnitProcessV;

    open spec fn view(&self) -> UnitProcessV {
        UnitProcessV {
            name: self.name@,
            inputs: datas_view(self.inputs@),
            outputs: datas_view(self.outputs@),
            properties: props_view(self.properties@),
        }
    }
}

/// The models of a list of unit processes, in order.
pub open spec fn ups_view(s: Seq<UnitProcess>) -> Seq<UnitProcessV> {
    s.map_values(|u: UnitProcess| u@)
}

impl View for ProductionSystem {
    type V = DocV;

    open spec fn view(&self) -> DocV {
        DocV {
            name: self.name@,
            custom_types: schema_view(self.custom_types@),
            version: self.version as int,
            unit_process: ups_view(self.unit_process@),
            properties: props_view(self.properties@),
        }
    }
}

impl Clone for Target {
    /// The copy has the same model as the original.
    fn clone(&self) -> (r: Self)
        ensures
            r@ == self@,
    {
        Target {
            governance_id: self.governance_id.clone(),
            subject_id: self.subject_id.clone(),
            unit_process: self.unit_process.clone(),
        }
    }
}

impl Clone for Metadata {
    /// The copy has the same model as the original.
    fn clone(&self) -> (r: Self)
        ensures
            r@ == self@,
    {
        Metadata {
            typename: self.typename.clone(),
            content: crate::json::clone_json(&self.content),
        }
    }
}

impl Clone for Properties {
    /// The copy has the same model as the original.
    fn clone(&self) -> (r: Self)
        ensures
            r@ == self@,
    {
        Properties {
            name: self.name.clone(),
            typename: self.typename.clone(),
            content: crate::json::clone_json(&self.content),
        }
    }
}

/// Copies an optional target list; the copy has the same model.
fn clone_targets(o: &Option<Vec<Target>>) -> (r: Option<Vec<Target>>)
    ensures
        opt_targets_view(r) == opt_targets_view(*o),
{
    match o {
        None => None,
        Some(ts) => {
            let mut out: Vec<Target> = Vec::new();
            let mut i: usize = 0;
            while i < ts.len()
                invariant
                    i <= ts.len(),
                    out@.len() == i as int,
                    forall|j: int| 0 <= j < i as int ==> out@[j]@ == ts@[j]@,
                decreases ts.len() - i,
            {
                out.push(ts[i].clone());
                i = i + 1;
            }
            proof {
                assert(targets_view(out@) =~= targets_view(ts@));
            }
            Some(out)
        },
    }
}

impl Clone for Data {
    /// The copy has the same model as the original.
    fn clone(&self) -> (r: Self)
        ensures
            r@ == self@,
    {
        Data {
            name: self.name.clone(),
            typename: self.typename.clone(),
            metadata: match &self.metadata {
                Some(m) => Some(m.clone()),
                None => None,
            },
            content: crate::json::clone_json(&self.content),
            targets: clone_targets(&self.targets),
        }
    }
}

impl Clone for RegisterData {
    /// The copy has the same model as the original.
    fn clone(&self) -> (r: Self)
        ensures
            r@ == self@,
    {
        RegisterData {
            name: self.name.clone(),
            typename: self.typename.clone(),
            content: crate::json::clone_json(&self.content),
            targets: clone_targets(&self.targets),
        }
    }
}

/// Copies a list of properties; the copy has the same model.
pub fn clone_props(ps: &Vec<Properties>) -> (r: Vec<Properties>)
    ensures
        props_view(r@) == props_view(ps@),
        r@.len() == ps@.len(),
{
    let mut out: Vec<Properties> = Vec::new();
    let mut i: usize = 0;
    while i < ps.len()
        invariant
            i <= ps.len(),
            out@.len() == i as int,
            forall|j: int| 0 <= j < i as int ==> out@[j]@ == ps@[j]@,
        decreases ps.len() - i,
    {
        out.push(ps[i].clone());
        i = i + 1;
    }
    proof {
        assert(props_view(out@) =~= props_view(ps@));
    }
    out
}

/// Copies a list of data slots; the copy has the same model.
pub fn clone_datas(ds: &Vec<Data>) -> (r: Vec<Data>)
    ensures
        datas_view(r@) == datas_view(ds@),
        r@.len() == ds@.len(),
{
    let mut out: Vec<Data> = Vec::new();
    let mut i: usize = 0;
    while i < ds.len()
        invariant
            i <= ds.len(),
            out@.len() == i as int,
            forall|j: int| 0 <= j < i as int ==> out@[j]@ == ds@[j]@,
        decreases ds.len() - i,
    {
        out.push(ds[i].clone());
        i = i + 1;
    }
    proof {
        assert(datas_view(out@) =~= datas_view(ds@));
    }
    out
}

impl Clone for UnitProcess {
    /// The copy has the same model as the original.
    fn clone(&self) -> (r: Self)
        ensures
            r@ == self@,
    {
        UnitProcess {
            name: self.name.clone(),
            inputs: clone_datas(&self.inputs),
            outputs: clone_datas(&self.outputs),
            properties: clone_props(&self.properties),
        }
    }
}

/// Copies a list of unit processes; the copy has the same model.
pub fn clone_ups(us: &Vec<UnitProcess>) -> (r: Vec<UnitProcess>)
    ensures
        ups_view(r@) == ups_view(us@),
        r@.len() == us@.len(),
{
    let mut out: Vec<UnitProcess> = Vec::new();
    let mut i: usize = 0;
    while i < us.len()
        invariant
            i <= us.len(),
            out@.len() == i as int,
            forall|j: int| 0 <= j < i as int ==> out@[j]@ == us@[j]@,
        decreases us.len() - i,
    {
        out.push(us[i].clone());
        i = i + 1;
    }
    proof {
        assert(ups_view(out@) =~= ups_view(us@));
    }
    out
}

impl Clone for ProductionSystem {
    /// The copy has the same model as the original.
    fn clone(&self) -> (r: Self)
        ensures
            r@ == self@,
    {
        ProductionSystem {
            name: self.name.clone(),
            custom_types: clone_schema(&self.custom_types),
            version: self.version,
            unit_process: clone_ups(&self.unit_process),
            properties: clone_props(&self.properties),
        }
    }
}

/// Targets, when present, carry three non-empty names each.
pub open spec fn targets_wf(o: Option<Seq<TargetV>>) -> bool {
    match o {
        None => true,
        Some(ts) => forall|i: int|
            0 <= i < ts.len() ==> ((#[trigger] ts[i]).governance_id.len() > 0
                && ts[i].subject_id.len() > 0 && ts[i].unit_process.len() > 0),
    }
}

/// A property declaration is valid: non-empty name, conforming content.
pub open spec fn prop_ok(s: SchemaV, p: PropertiesV) -> bool {
    p.name.len() > 0 && data_conforms(s, p.typename, p.content)
}

/// A data-slot declaration is valid: no targets yet, non-empty name,
/// conforming metadata where present, conforming content.
pub open spec fn data_ok(s: SchemaV, d: DataV) -> bool {
    &&& d.targets is None
    &&& d.name.len() > 0
    &&& (d.metadata matches Some(m) ==> data_conforms(s, m.typename, m.content))
    &&& data_conforms(s, d.typename, d.content)
}

/// The names of a list of data slots, in order.
pub open spec fn data_names(ds: Seq<DataV>) -> Seq<Seq<char>> {
    ds.map_values(|d: DataV| d.name)
}

/// The names of a list of properties, in order.
pub open spec fn prop_names(ps: Seq<PropertiesV>) -> Seq<Seq<char>> {
    ps.map_values(|p: PropertiesV| p.name)
}

/// A unit process is valid: non-empty name; every input and output slot
/// valid, their names pairwise distinct across both lists; every property
/// valid, property names pairwise distinct.
pub open spec fn up_ok(s: SchemaV, u: UnitProcessV) -> bool {
    &&& u.name.len() > 0
    &&& forall|i: int| 0 <= i < u.inputs.len() ==> data_ok(s, #[trigger] u.inputs[i])
    &&& forall|i: int| 0 <= i < u.outputs.len() ==> data_ok(s, #[trigger] u.outputs[i])
    &&& seq_distinct(data_names(u.inputs) + data_names(u.outputs))
    &&& forall|i: int| 0 <= i < u.properties.len() ==> prop_ok(s, #[trigger] u.properties[i])
    &&& seq_distinct(prop_names(u.properties))
}

/// The naming invariant of a unit process alone: input and output names
/// pairwise distinct across both lists, property names distinct.
pub open spec fn up_names_distinct(u: UnitProcessV) -> bool {
    seq_distinct(data_names(u.inputs) + data_names(u.outputs)) && seq_distinct(
        prop_names(u.properties),
    )
}

impl Properties {
    /// Checks this property declaration against the schema; succeeds
    /// exactly on valid declarations.
    pub fn check_data(&self, custom_types: &Schema) -> (r: Result<(), Error>)
        requires
            schema_sane(schema_view(custom_types@)),
        ensures
            r is Ok <==> prop_ok(schema_view(custom_types@), self@),
            r matches Err(e) ==> (e is EmptyName || e is TypeMismatch || e is UnknownName),
    {
        if self.name.as_str().is_empty() {
            return Err(Error::EmptyName);
        }
        crate::validate::check_data(&self.typename, &self.content, custom_types)
    }
}

impl Data {
    /// Checks this data-slot declaration against the schema; succeeds
    /// exactly on valid declarations.
    pub fn check_data(&self, custom_types: &Schema) -> (r: Result<(), Error>)
        requires
            schema_sane(schema_view(custom_types@)),
        ensures
            r is Ok <==> data_ok(schema_view(custom_types@), self@),
            r matches Err(e) ==> (e is EmptyName || e is TypeMismatch || e is UnknownName),
    {
        if self.targets.is_some() {
            return Err(Error::TypeMismatch);
        }
        if self.name.as_str().is_empty() {
            return Err(Error::EmptyName);
        }
        match &self.metadata {
            Some(metadata) => {
                match crate::validate::check_data(
                    &metadata.typename,
                    &metadata.content,
                    custom_types,
                ) {
                    Ok(()) => {},
                    Err(e) => {
                        return Err(e);
                    },
                }
            },
            None => {},
        }
        crate::validate::check_data(&self.typename, &self.content, custom_types)
    }
}

/// A registration fits a property slot: same name, same type name, and
/// conforming content.
pub open spec fn prop_reg_ok(s: SchemaV, slot: PropertiesV, inc: PropertiesV) -> bool {
    slot.name == inc.name && slot.typename == inc.typename && resolve_conforms(
        s,
        slot.typename,
        inc.content,
    )
}

/// The property slot after a registration: only the content changes.
pub open spec fn prop_apply(slot: PropertiesV, inc: PropertiesV) -> PropertiesV {
    PropertiesV { name: slot.name, typename: slot.typename, content: inc.content }
}

impl Properties {
    /// Overwrites this property's content from a registration carrying
    /// the same name and type name with conforming content; rejects any
    /// other registration, leaving the property untouched.
    pub fn register_data(&mut self, data: Properties, custom_types: &Schema) -> (r: Result<
        (),
        Error,
    >)
        requires
            schema_sane(schema_view(custom_types@)),
        ensures
            r is Ok <==> prop_reg_ok(schema_view(custom_types@), old(self)@, data@),
            r is Ok ==> final(self)@ == prop_apply(old(self)@, data@),
            r is Err ==> *final(self) == *old(self),
            r matches Err(e) ==> (e is TypeMismatch || e is UnknownName),
    {
        match crate::validate::register_data(
            &self.name,
            &self.typename,
            custom_types,
            &data.name,
            &data.typename,
            &data.content,
        ) {
            Ok(()) => {},
            Err(e) => {
                return Err(e);
            },
        }
        self.content = data.content;
        Ok(())
    }
}

/// A registration fits a data slot: same name, same type name, conforming
/// content, and well-formed targets.
pub open spec fn data_reg_ok(s: SchemaV, slot: DataV, inc: RegisterDataV) -> bool {
    &&& slot.name == inc.name
    &&& slot.typename == inc.typename
    &&& resolve_conforms(s, slot.typename, inc.content)
    &&& targets_wf(inc.targets)
}

/// The data slot after a registration: only content and targets change.
pub open spec fn data_apply(slot: DataV, inc: RegisterDataV) -> DataV {
    DataV {
        name: slot.name,
        typename: slot.typename,
        metadata: slot.metadata,
        content: inc.content,
        targets: inc.targets,
    }
}

/// Whether every target of a registration carries three non-empty names.
#[verifier::loop_isolation(false)]
fn check_targets(o: &Option<Vec<Target>>) -> (r: bool)
    ensures
        r == targets_wf(opt_targets_view(*o)),
{
    match o {
        None => true,
        Some(ts) => {
            let mut i: usize = 0;
            while i < ts.len()
                invariant
                    i <= ts.len(),
                    forall|j: int| 0 <= j < i as int ==> ((#[trigger] targets_view(ts@)[j])
                        .governance_id.len() > 0 && targets_view(ts@)[j].subject_id.len() > 0
                        && targets_view(ts@)[j].unit_process.len() > 0),
                decreases ts.len() - i,
            {
                if ts[i].governance_id.as_str().is_empty() || ts[i].subject_id.as_str().is_empty()
                    || ts[i].unit_process.as_str().is_empty() {
                    proof {
                        assert(*o == Option::Some(*ts));
                        assert(opt_targets_view(*o) == Some(targets_view(ts@)));
                        let tv = targets_view(ts@);
                        assert(tv[i as int] == ts@[i as int]@);
                        assert(tv[i as int].governance_id == ts@[i as int].governance_id@);
                        assert(tv[i as int].subject_id == ts@[i as int].subject_id@);
                        assert(tv[i as int].unit_process == ts@[i as int].unit_process@);
                        assert(!(tv[i as int].governance_id.len() > 0 && tv[i as int].subject_id.len()
                            > 0 && tv[i as int].unit_process.len() > 0));
                        assert(Option::Some(tv)->Some_0 == tv);
                        assert(!targets_wf(Some(tv)));
                    }
                    return false;
                }
                i = i + 1;
            }
            true
        },
    }
}

impl Data {
    /// Overwrites this slot's content and targets from a registration
    /// carrying the same name and type name, conforming content and
    /// well-formed targets; rejects any other registration, leaving the
    /// slot untouched.
    pub fn register_data(&mut self, data: RegisterData, custom_types: &Schema) -> (r: Result<
        (),
        Error,
    >)
        requires
            schema_sane(schema_view(custom_types@)),
        ensures
            r is Ok <==> data_reg_ok(schema_view(custom_types@), old(self)@, data@),
            r is Ok ==> final(self)@ == data_apply(old(self)@, data@),
            r is Err ==> *final(self) == *old(self),
            r matches Err(e) ==> (e is TypeMismatch || e is UnknownName || e is EmptyName),
    {
        match crate::validate::register_data(
            &self.name,
            &self.typename,
            custom_types,
            &data.name,
            &data.typename,
            &data.content,
        ) {
            Ok(()) => {},
            Err(e) => {
                return Err(e);
            },
        }
        if !check_targets(&data.targets) {
            return Err(Error::EmptyName);
        }
        self.content = data.content;
        self.targets = data.targets;
        Ok(())
    }
}

impl UnitProcess {
    /// Checks this unit process against the schema; succeeds exactly on
    /// valid processes: non-empty name, valid slots and properties, input
    /// and output names distinct across both lists, property names
    /// distinct.
    #[verifier::loop_isolation(false)]
    pub fn check_data(&self, custom_types: &Schema) -> (r: Result<(), Error>)
        requires
            schema_sane(schema_view(custom_types@)),
        ensures
            r is Ok <==> up_ok(schema_view(custom_types@), self@),
            r matches Err(e) ==> (e is EmptyName || e is TypeMismatch || e is UnknownName
                || e is DuplicateName),
    {
        let ghost s = schema_view(custom_types@);
        let ghost iv = datas_view(self.inputs@);
        let ghost ov = datas_view(self.outputs@);
        let ghost pv = props_view(self.properties@);
        let ghost ionames = data_names(iv) + data_names(ov);

        if self.name.as_str().is_empty() {
            return Err(Error::EmptyName);
        }

        let mut names: Vec<String> = Vec::new();
        let mut i: usize = 0;
        while i < self.inputs.len()
            invariant
                i <= self.inputs.len(),
                names@.len() == i as int,
                forall|j: int| 0 <= j < i as int ==> data_ok(s, #[trigger] iv[j]),
                forall|j: int| 0 <= j < i as int ==> (#[trigger] names@[j])@ == iv[j].name,
            decreases self.inputs.len() - i,
        {
            match self.inputs[i].check_data(custom_types) {
                Ok(()) => {},
                Err(e) => {
                    proof {
                        assert(!data_ok(s, iv[i as int]));
                    }
                    return Err(e);
                },
            }
            names.push(self.inputs[i].name.clone());
            i = i + 1;
        }

        let mut k: usize = 0;
        while k < self.outputs.len()
            invariant
                k <= self.outputs.len(),
                names@.len() == self.inputs@.len() + k as int,
                forall|j: int| 0 <= j < iv.len() ==> data_ok(s, #[trigger] iv[j]),
                forall|j: int| 0 <= j < k as int ==> data_ok(s, #[trigger] ov[j]),
                forall|j: int| 0 <= j < names@.len() ==> (#[trigger] names@[j])@ == ionames[j],
            decreases self.outputs.len() - k,
        {
            match self.outputs[k].check_data(custom_types) {
                Ok(()) => {},
                Err(e) => {
                    proof {
                        assert(!data_ok(s, ov[k as int]));
                    }
                    return Err(e);
                },
            }
            names.push(self.outputs[k].name.clone());
            proof {
                assert(ionames[names@.len() - 1] == ov[k as int].name);
            }
            k = k + 1;
        }

        proof {
            assert forall|j: int| 0 <= j < names@.len() implies names.deep_view()[j]
                == ionames[j] by {
                assert(names.deep_view()[j] == names@[j]@);
            }
            assert(names.deep_view() =~= ionames);
        }
        match crate::types::find_duplicate(&names) {
            Some(d) => {
                proof {
                    let di = d as int;
                    let j = choose|j: int|
                        0 <= j < di && names.deep_view()[j] == names.deep_view()[di];
                    assert(ionames[j] == ionames[di]);
                    assert(!seq_distinct(ionames));
                }
                return Err(Error::DuplicateName(names[d].clone()));
            },
            None => {},
        }

        let mut pnames: Vec<String> = Vec::new();
        let mut p: usize = 0;
        while p < self.properties.len()
            invariant
                p <= self.properties.len(),
                pnames@.len() == p as int,
                forall|j: int| 0 <= j < p as int ==> prop_ok(s, #[trigger] pv[j]),
                forall|j: int| 0 <= j < p as int ==> (#[trigger] pnames@[j])@ == pv[j].name,
            decreases self.properties.len() - p,
        {
            match self.properties[p].check_data(custom_types) {
                Ok(()) => {},
                Err(e) => {
                    proof {
                        assert(!prop_ok(s, pv[p as int]));
                    }
                    return Err(e);
                },
            }
            pnames.push(self.properties[p].name.clone());
            p = p + 1;
        }
        proof {
            assert forall|j: int| 0 <= j < pnames@.len() implies pnames.deep_view()[j]
                == prop_names(pv)[j] by {
                assert(pnames.deep_view()[j] == pnames@[j]@);
            }
            assert(pnames.deep_view() =~= prop_names(pv));
        }
        match crate::types::find_duplicate(&pnames) {
            Some(d) => {
                proof {
                    let di = d as int;
                    let j = choose|j: int|
                        0 <= j < di && pnames.deep_view()[j] == pnames.deep_view()[di];
                    assert(prop_names(pv)[j] == prop_names(pv)[di]);
                    assert(!seq_distinct(prop_names(pv)));
                }
                return Err(Error::DuplicateName(pnames[d].clone()));
            },
            None => {},
        }
        proof {
            assert(up_ok(s, self@));
        }
        Ok(())
    }
}

/// Some slot carries this name.
pub open spec fn slot_named(ds: Seq<DataV>, n: Seq<char>) -> bool {
    exists|i: int| 0 <= i < ds.len() && ds[i].name == n
}

/// Some property carries this name.
pub open spec fn pslot_named(ps: Seq<PropertiesV>, n: Seq<char>) -> bool {
    exists|i: int| 0 <= i < ps.len() && ps[i].name == n
}

/// The last registration in the batch aimed at this name, if any: when
/// several address one slot, the later overwrites the earlier.
pub open spec fn last_match_reg(regs: Seq<RegisterDataV>, n: Seq<char>) -> Option<RegisterDataV>
    decreases regs.len(),
{
    if regs.len() == 0 {
        None
    } else if regs.last().name == n {
        Some(regs.last())
    } else {
        last_match_reg(regs.drop_last(), n)
    }
}

/// The last property registration aimed at this name, if any.
pub open spec fn last_match_prop(regs: Seq<PropertiesV>, n: Seq<char>) -> Option<PropertiesV>
    decreases regs.len(),
{
    if regs.len() == 0 {
        None
    } else if regs.last().name == n {
        Some(regs.last())
    } else {
        last_match_prop(regs.drop_last(), n)
    }
}

/// The slots after a batch of registrations: each slot addressed by the
/// batch holds the content and targets of the last registration aimed at
/// it; every other slot is untouched.
pub open spec fn slots_after(slots: Seq<DataV>, regs: Seq<RegisterDataV>) -> Seq<DataV> {
    slots.map_values(
        |d: DataV|
            match last_match_reg(regs, d.name) {
                Some(r) => data_apply(d, r),
                None => d,
            },
    )
}

/// The properties after a batch of registrations; see [`slots_after`].
pub open spec fn props_after(ps: Seq<PropertiesV>, regs: Seq<PropertiesV>) -> Seq<PropertiesV> {
    ps.map_values(
        |p: PropertiesV|
            match last_match_prop(regs, p.name) {
                Some(r) => prop_apply(p, r),
                None => p,
            },
    )
}

/// A batch of registrations fits a slot list: the batch is non-empty,
/// every registration addresses an existing slot, and every registration
/// fits the slot it addresses.
pub open spec fn regs_ok(s: SchemaV, slots: Seq<DataV>, regs: Seq<RegisterDataV>) -> bool {
    &&& regs.len() > 0
    &&& forall|k: int| 0 <= k < regs.len() ==> slot_named(slots, (#[trigger] regs[k]).name)
    &&& forall|j: int, k: int|
        0 <= j < slots.len() && 0 <= k < regs.len() && (#[trigger] slots[j]).name == (
        #[trigger] regs[k]).name ==> data_reg_ok(s, slots[j], regs[k])
}

/// A batch of property registrations fits a property list; see
/// [`regs_ok`].
pub open spec fn pregs_ok(s: SchemaV, ps: Seq<PropertiesV>, regs: Seq<PropertiesV>) -> bool {
    &&& regs.len() > 0
    &&& forall|k: int| 0 <= k < regs.len() ==> pslot_named(ps, (#[trigger] regs[k]).name)
    &&& forall|j: int, k: int|
        0 <= j < ps.len() && 0 <= k < regs.len() && (#[trigger] ps[j]).name == (
        #[trigger] regs[k]).name ==> prop_reg_ok(s, ps[j], regs[k])
}

/// The unit process after one registration batch: at least one of the
/// input or output lists must be addressed; each supplied list must be
/// non-empty and fit its slots; addressed slots take the last matching
/// registration's content (and targets), everything else is untouched.
pub open spec fn up_register_spec(s: SchemaV, u: UnitProcessV, ud: UnitDataV) -> Option<
    UnitProcessV,
> {
    if ud.inputs is None && ud.outputs is None {
        None
    } else {
        let in_ok = match ud.inputs {
            None => true,
            Some(regs) => regs_ok(s, u.inputs, regs),
        };
        let out_ok = match ud.outputs {
            None => true,
            Some(regs) => regs_ok(s, u.outputs, regs),
        };
        let pr_ok = match ud.properties {
            None => true,
            Some(regs) => pregs_ok(s, u.properties, regs),
        };
        if in_ok && out_ok && pr_ok {
            Some(
                UnitProcessV {
                    name: u.name,
                    inputs: match ud.inputs {
                        None => u.inputs,
                        Some(regs) => slots_after(u.inputs, regs),
                    },
                    outputs: match ud.outputs {
                        None => u.outputs,
                        Some(regs) => slots_after(u.outputs, regs),
                    },
                    properties: match ud.properties {
                        None => u.properties,
                        Some(regs) => props_after(u.properties, regs),
                    },
                },
            )
        } else {
            None
        }
    }
}

/// With no later registration aimed at `n` beyond `ki`, the one at `ki`
/// is the last.
proof fn lemma_last_match_reg(regs: Seq<RegisterDataV>, n: Seq<char>, ki: int)
    requires
        0 <= ki < regs.len(),
        regs[ki].name == n,
        forall|k: int| ki < k < regs.len() ==> (#[trigger] regs[k]).name != n,
    ensures
        last_match_reg(regs, n) == Some(regs[ki]),
    decreases regs.len(),
{
    if ki == regs.len() - 1 {
    } else {
        assert(regs.last().name != n);
        assert(regs.drop_last()[ki] == regs[ki]);
        assert forall|k: int| ki < k < regs.drop_last().len() implies (
        #[trigger] regs.drop_last()[k]).name != n by {
            assert(regs.drop_last()[k] == regs[k]);
        }
        lemma_last_match_reg(regs.drop_last(), n, ki);
    }
}

/// With no registration aimed at `n`, there is no last one.
proof fn lemma_last_match_reg_none(regs: Seq<RegisterDataV>, n: Seq<char>)
    requires
        forall|k: int| 0 <= k < regs.len() ==> (#[trigger] regs[k]).name != n,
    ensures
        last_match_reg(regs, n) is None,
    decreases regs.len(),
{
    if regs.len() > 0 {
        assert forall|k: int| 0 <= k < regs.drop_last().len() implies (
        #[trigger] regs.drop_last()[k]).name != n by {
            assert(regs.drop_last()[k] == regs[k]);
        }
        lemma_last_match_reg_none(regs.drop_last(), n);
    }
}

/// With no later property registration aimed at `n` beyond `ki`, the one
/// at `ki` is the last.
proof fn lemma_last_match_prop(regs: Seq<PropertiesV>, n: Seq<char>, ki: int)
    requires
        0 <= ki < regs.len(),
        regs[ki].name == n,
        forall|k: int| ki < k < regs.len() ==> (#[trigger] regs[k]).name != n,
    ensures
        last_match_prop(regs, n) == Some(regs[ki]),
    decreases regs.len(),
{
    if ki == regs.len() - 1 {
    } else {
        assert(regs.last().name != n);
        assert(regs.drop_last()[ki] == regs[ki]);
        assert forall|k: int| ki < k < regs.drop_last().len() implies (
        #[trigger] regs.drop_last()[k]).name != n by {
            assert(regs.drop_last()[k] == regs[k]);
        }
        lemma_last_match_prop(regs.drop_last(), n, ki);
    }
}

/// With no property registration aimed at `n`, there is no last one.
proof fn lemma_last_match_prop_none(regs: Seq<PropertiesV>, n: Seq<char>)
    requires
        forall|k: int| 0 <= k < regs.len() ==> (#[trigger] regs[k]).name != n,
    ensures
        last_match_prop(regs, n) is None,
    decreases regs.len(),
{
    if regs.len() > 0 {
        assert forall|k: int| 0 <= k < regs.drop_last().len() implies (
        #[trigger] regs.drop_last()[k]).name != n by {
            assert(regs.drop_last()[k] == regs[k]);
        }
        lemma_last_match_prop_none(regs.drop_last(), n);
    }
}

/// Whether some slot carries this name.
#[verifier::loop_isolation(false)]
fn data_slot_named(slots: &Vec<Data>, name: &String) -> (r: bool)
    ensures
        r == slot_named(datas_view(slots@), name@),
{
    let ghost sv = datas_view(slots@);
    let mut j: usize = 0;
    while j < slots.len()
        invariant
            j <= slots.len(),
            forall|j2: int| 0 <= j2 < j as int ==> (#[trigger] sv[j2]).name != name@,
        decreases slots.len() - j,
    {
        if slots[j].name == *name {
            proof {
                assert(sv[j as int].name == name@);
            }
            return true;
        }
        j = j + 1;
    }
    false
}

/// Whether some property carries this name.
#[verifier::loop_isolation(false)]
fn prop_slot_named(ps: &Vec<Properties>, name: &String) -> (r: bool)
    ensures
        r == pslot_named(props_view(ps@), name@),
{
    let ghost pv = props_view(ps@);
    let mut j: usize = 0;
    while j < ps.len()
        invariant
            j <= ps.len(),
            forall|j2: int| 0 <= j2 < j as int ==> (#[trigger] pv[j2]).name != name@,
        decreases ps.len() - j,
    {
        if ps[j].name == *name {
            proof {
                assert(pv[j as int].name == name@);
            }
            return true;
        }
        j = j + 1;
    }
    false
}

/// Registers a batch into a slot list: on success, the returned list is
/// the slots after the batch; the slot list given is never touched.
#[verifier::loop_isolation(false)]
fn apply_regs_to_datas(slots: &Vec<Data>, regs: &Vec<RegisterData>, custom_types: &Schema) -> (r:
    Result<Vec<Data>, Error>)
    requires
        schema_sane(schema_view(custom_types@)),
        regs@.len() > 0,
    ensures
        r is Ok <==> regs_ok(schema_view(custom_types@), datas_view(slots@), regs_view(regs@)),
        r matches Ok(v) ==> datas_view(v@) == slots_after(datas_view(slots@), regs_view(regs@)),
        r matches Err(e) ==> (e is NotFound || e is TypeMismatch || e is UnknownName
            || e is EmptyName),
{
    let ghost s = schema_view(custom_types@);
    let ghost sv = datas_view(slots@);
    let ghost rv = regs_view(regs@);

    let mut k: usize = 0;
    while k < regs.len()
        invariant
            k <= regs.len(),
            forall|k2: int| 0 <= k2 < k as int ==> slot_named(sv, (#[trigger] rv[k2]).name),
        decreases regs.len() - k,
    {
        if !data_slot_named(slots, &regs[k].name) {
            proof {
                assert(rv[k as int].name == regs@[k as int].name@);
            }
            return Err(Error::NotFound(regs[k].name.clone()));
        }
        proof {
            assert(rv[k as int].name == regs@[k as int].name@);
        }
        k = k + 1;
    }

    let mut out: Vec<Data> = Vec::new();
    let mut j: usize = 0;
    while j < slots.len()
        invariant
            j <= slots.len(),
            out@.len() == j as int,
            forall|j2: int| 0 <= j2 < j as int ==> out@[j2]@ == slots_after(sv, rv)[j2],
            forall|j2: int, k2: int|
                0 <= j2 < j as int && 0 <= k2 < rv.len() && (#[trigger] sv[j2]).name == (
                #[trigger] rv[k2]).name ==> data_reg_ok(s, sv[j2], rv[k2]),
        decreases slots.len() - j,
    {
        let mut last: Option<usize> = None;
        let mut k2: usize = 0;
        while k2 < regs.len()
            invariant
                k2 <= regs.len(),
                match last {
                    None => forall|k3: int| 0 <= k3 < k2 as int ==> (#[trigger] rv[k3]).name
                        != sv[j as int].name,
                    Some(ki) => ki < k2 && rv[ki as int].name == sv[j as int].name && forall|
                        k3: int,
                    | ki < k3 < k2 as int ==> (#[trigger] rv[k3]).name != sv[j as int].name,
                },
                forall|k3: int|
                    0 <= k3 < k2 as int && (#[trigger] rv[k3]).name == sv[j as int].name
                        ==> data_reg_ok(s, sv[j as int], rv[k3]),
            decreases regs.len() - k2,
        {
            if regs[k2].name == slots[j].name {
                match crate::validate::register_data(
                    &slots[j].name,
                    &slots[j].typename,
                    custom_types,
                    &regs[k2].name,
                    &regs[k2].typename,
                    &regs[k2].content,
                ) {
                    Ok(()) => {},
                    Err(e) => {
                        proof {
                            assert(!data_reg_ok(s, sv[j as int], rv[k2 as int]));
                        }
                        return Err(e);
                    },
                }
                if !check_targets(&regs[k2].targets) {
                    proof {
                        assert(!data_reg_ok(s, sv[j as int], rv[k2 as int]));
                    }
                    return Err(Error::EmptyName);
                }
                proof {
                    assert(data_reg_ok(s, sv[j as int], rv[k2 as int]));
                }
                last = Some(k2);
            }
            k2 = k2 + 1;
        }
        match last {
            Some(ki) => {
                proof {
                    lemma_last_match_reg(rv, sv[j as int].name, ki as int);
                }
                let nd = Data {
                    name: slots[j].name.clone(),
                    typename: slots[j].typename.clone(),
                    metadata: match &slots[j].metadata {
                        Some(m) => Some(m.clone()),
                        None => None,
                    },
                    content: crate::json::clone_json(&regs[ki].content),
                    targets: clone_targets(&regs[ki].targets),
                };
                out.push(nd);
                proof {
                    assert(out@[j as int]@ == data_apply(sv[j as int], rv[ki as int]));
                }
            },
            None => {
                proof {
                    lemma_last_match_reg_none(rv, sv[j as int].name);
                }
                out.push(slots[j].clone());
            },
        }
        j = j + 1;
    }
    proof {
        assert(datas_view(out@) =~= slots_after(sv, rv));
    }
    Ok(out)
}

/// Registers a batch into a property list; see [`apply_regs_to_datas`].
#[verifier::loop_isolation(false)]
fn apply_regs_to_props(ps: &Vec<Properties>, regs: &Vec<Properties>, custom_types: &Schema) -> (r:
    Result<Vec<Properties>, Error>)
    requires
        schema_sane(schema_view(custom_types@)),
        regs@.len() > 0,
    ensures
        r is Ok <==> pregs_ok(schema_view(custom_types@), props_view(ps@), props_view(regs@)),
        r matches Ok(v) ==> props_view(v@) == props_after(props_view(ps@), props_view(regs@)),
        r matches Err(e) ==> (e is NotFound || e is TypeMismatch || e is UnknownName),
{
    let ghost s = schema_view(custom_types@);
    let ghost sv = props_view(ps@);
    let ghost rv = props_view(regs@);

    let mut k: usize = 0;
    while k < regs.len()
        invariant
            k <= regs.len(),
            forall|k2: int| 0 <= k2 < k as int ==> pslot_named(sv, (#[trigger] rv[k2]).name),
        decreases regs.len() - k,
    {
        if !prop_slot_named(ps, &regs[k].name) {
            proof {
                assert(rv[k as int].name == regs@[k as int].name@);
            }
            return Err(Error::NotFound(regs[k].name.clone()));
        }
        proof {
            assert(rv[k as int].name == regs@[k as int].name@);
        }
        k = k + 1;
    }

    let mut out: Vec<Properties> = Vec::new();
    let mut j: usize = 0;
    while j < ps.len()
        invariant
            j <= ps.len(),
            out@.len() == j as int,
            forall|j2: int| 0 <= j2 < j as int ==> out@[j2]@ == props_after(sv, rv)[j2],
            forall|j2: int, k2: int|
                0 <= j2 < j as int && 0 <= k2 < rv.len() && (#[trigger] sv[j2]).name == (
                #[trigger] rv[k2]).name ==> prop_reg_ok(s, sv[j2], rv[k2]),
        decreases ps.len() - j,
    {
        let mut last: Option<usize> = None;
        let mut k2: usize = 0;
        while k2 < regs.len()
            invariant
                k2 <= regs.len(),
                match last {
                    None => forall|k3: int| 0 <= k3 < k2 as int ==> (#[trigger] rv[k3]).name
                        != sv[j as int].name,
                    Some(ki) => ki < k2 && rv[ki as int].name == sv[j as int].name && forall|
                        k3: int,
                    | ki < k3 < k2 as int ==> (#[trigger] rv[k3]).name != sv[j as int].name,
                },
                forall|k3: int|
                    0 <= k3 < k2 as int && (#[trigger] rv[k3]).name == sv[j as int].name
                        ==> prop_reg_ok(s, sv[j as int], rv[k3]),
            decreases regs.len() - k2,
        {
            if regs[k2].name == ps[j].name {
                match crate::validate::register_data(
                    &ps[j].name,
                    &ps[j].typename,
                    custom_types,
                    &regs[k2].name,
                    &regs[k2].typename,
                    &regs[k2].content,
                ) {
                    Ok(()) => {},
                    Err(e) => {
                        proof {
                            assert(!prop_reg_ok(s, sv[j as int], rv[k2 as int]));
                        }
                        return Err(e);
                    },
                }
                proof {
                    assert(prop_reg_ok(s, sv[j as int], rv[k2 as int]));
                }
                last = Some(k2);
            }
            k2 = k2 + 1;
        }
        match last {
            Some(ki) => {
                proof {
                    lemma_last_match_prop(rv, sv[j as int].name, ki as int);
                }
                let np = Properties {
                    name: ps[j].name.clone(),
                    typename: ps[j].typename.clone(),
                    content: crate::json::clone_json(&regs[ki].content),
                };
                out.push(np);
                proof {
                    assert(out@[j as int]@ == prop_apply(sv[j as int], rv[ki as int]));
                }
            },
            None => {
                proof {
                    lemma_last_match_prop_none(rv, sv[j as int].name);
                }
                out.push(ps[j].clone());
            },
        }
        j = j + 1;
    }
    proof {
        assert(props_view(out@) =~= props_after(sv, rv));
    }
    Ok(out)
}

/// Copies a list of registrations; the copy has the same model.
fn clone_regs(rs: &Vec<RegisterData>) -> (r: Vec<RegisterData>)
    ensures
        regs_view(r@) == regs_view(rs@),
{
    let mut out: Vec<RegisterData> = Vec::new();
    let mut i: usize = 0;
    while i < rs.len()
        invariant
            i <= rs.len(),
            out@.len() == i as int,
            forall|j: int| 0 <= j < i as int ==> out@[j]@ == rs@[j]@,
        decreases rs.len() - i,
    {
        out.push(rs[i].clone());
        i = i + 1;
    }
    proof {
        assert(regs_view(out@) =~= regs_view(rs@));
    }
    out
}

impl Clone for UnitData {
    /// The copy has the same model as the original.
    fn clone(&self) -> (r: Self)
        ensures
            r@ == self@,
    {
        UnitData {
            name: self.name.clone(),
            outputs: match &self.outputs {
                Some(v) => Some(clone_regs(v)),
                None => None,
            },
            inputs: match &self.inputs {
                Some(v) => Some(clone_regs(v)),
                None => None,
            },
            properties: match &self.properties {
                Some(v) => Some(clone_props(v)),
                None => None,
            },
        }
    }
}

impl UnitProcess {
    /// Applies one registration batch to this unit process; succeeds
    /// exactly when the batch fits ([`up_register_spec`]), replacing the
    /// addressed slots' content and targets and nothing else. A rejected
    /// batch leaves the process untouched.
    #[verifier::loop_isolation(false)]
    pub fn register_data(&mut self, unit: UnitData, custom_types: &Schema) -> (r: Result<
        (),
        Error,
    >)
        requires
            schema_sane(schema_view(custom_types@)),
        ensures
            r is Ok <==> up_register_spec(schema_view(custom_types@), old(self)@, unit@)
                is Some,
            r is Ok ==> Some(final(self)@) == up_register_spec(
                schema_view(custom_types@),
                old(self)@,
                unit@,
            ),
            r is Err ==> *final(self) == *old(self),
            r matches Err(e) ==> (e is EmptyBatch || e is NotFound || e is TypeMismatch
                || e is UnknownName || e is EmptyName),
    {
        let ghost s = schema_view(custom_types@);
        if unit.inputs.is_none() && unit.outputs.is_none() {
            return Err(Error::EmptyBatch);
        }
        let new_inputs: Option<Vec<Data>> = match &unit.inputs {
            Some(regs) => {
                if regs.len() == 0 {
                    return Err(Error::EmptyBatch);
                }
                match apply_regs_to_datas(&self.inputs, regs, custom_types) {
                    Ok(v) => Some(v),
                    Err(e) => {
                        return Err(e);
                    },
                }
            },
            None => None,
        };
        let new_outputs: Option<Vec<Data>> = match &unit.outputs {
            Some(regs) => {
                if regs.len() == 0 {
                    return Err(Error::EmptyBatch);
                }
                match apply_regs_to_datas(&self.outputs, regs, custom_types) {
                    Ok(v) => Some(v),
                    Err(e) => {
                        return Err(e);
                    },
                }
            },
            None => None,
        };
        let new_props: Option<Vec<Properties>> = match &unit.properties {
            Some(regs) => {
                if regs.len() == 0 {
                    return Err(Error::EmptyBatch);
                }
                match apply_regs_to_props(&self.properties, regs, custom_types) {
                    Ok(v) => Some(v),
                    Err(e) => {
                        return Err(e);
                    },
                }
            },
            None => None,
        };
        match new_inputs {
            Some(v) => {
                self.inputs = v;
            },
            None => {},
        }
        match new_outputs {
            Some(v) => {
                self.outputs = v;
            },
            None => {},
        }
        match new_props {
            Some(v) => {
                self.properties = v;
            },
            None => {},
        }
        Ok(())
    }
}

} // verus!
