//! The schema type language: recursive type expressions, type definitions
//! (`Fields`), and the schema itself — a name-keyed list of definitions.
//!
//! Static well-formedness of type expressions is specified here
//! ([`type_wf`], [`fields_wf`]) together with the list of type names a
//! definition references ([`type_refs`], [`fields_refs`]), which feeds the
//! reference-cycle check.

use vstd::prelude::*;

use crate::errors::Error;

verus! {

/// A recursive type expression: primitives, containers, tagged unions,
/// optional wrappers, named references, and an explicit invalid
/// placeholder.
///
/// `Invalid` exists so malformed definitions can be represented and
/// rejected; it is legal in exactly one position — as a union variant's
/// declared type, marking that variant as carrying no payload.
#[derive(PartialEq, Debug)]
pub enum DynamicType {
    String,
    I64,
    U64,
    F64,
    Bool,
    Array(Box<DynamicType>),
    Union(Vec<(String, DynamicType)>),
    Optional(Box<DynamicType>),
    Reference(String),
    Invalid,
}

/// A type definition body: a bare type applied to a whole value, or a
/// named-field record shape.
#[derive(PartialEq, Debug)]
pub enum Fields {
    Basic(DynamicType),
    Object(Vec<(String, DynamicType)>),
}

/// The schema: a mapping from user type name to its definition, kept as
/// an ordered list with pairwise-distinct keys.
pub type Schema = Vec<(String, Fields)>;

/// The mathematical model of a [`DynamicType`].
pub enum TypeV {
    String,
    I64,
    U64,
    F64,
    Bool,
    Array(Box<TypeV>),
    Union(Seq<(Seq<char>, TypeV)>),
    Optional(Box<TypeV>),
    Reference(Seq<char>),
    Invalid,
}

/// The mathematical model of a [`Fields`].
pub enum FieldsV {
    Basic(TypeV),
    Object(Seq<(Seq<char>, TypeV)>),
}

/// The model of the schema: named definitions in order.
pub type SchemaV = Seq<(Seq<char>, FieldsV)>;

/// The model of one type expression.
pub open spec fn type_view(t: DynamicType) -> TypeV
    decreases t,
{
    match t {
        DynamicType::String => TypeV::String,
        DynamicType::I64 => TypeV::I64,
        DynamicType::U64 => TypeV::U64,
        DynamicType::F64 => TypeV::F64,
        DynamicType::Bool => TypeV::Bool,
        DynamicType::Array(inner) => TypeV::Array(Box::new(type_view(*inner))),
        DynamicType::Union(vs) => TypeV::Union(member_views(vs@)),
        DynamicType::Optional(inner) => TypeV::Optional(Box::new(type_view(*inner))),
        DynamicType::Reference(n) => TypeV::Reference(n@),
        DynamicType::Invalid => TypeV::Invalid,
    }
}

/// The models of a sequence of named type expressions, in order.
pub open spec fn member_views(s: Seq<(String, DynamicType)>) -> Seq<(Seq<char>, TypeV)>
    decreases s,
{
    if s.len() == 0 {
        Seq::empty()
    } else {
        member_views(s.drop_last()).push((s.last().0@, type_view(s.last().1)))
    }
}

/// The model of a sequence of named type expressions, pointwise.
pub broadcast proof fn lemma_member_views(s: Seq<(String, DynamicType)>)
    ensures
        (#[trigger] member_views(s)).len() == s.len(),
        forall|i: int| 0 <= i < s.len() ==> member_views(s)[i] == (
            s[i].0@,
            type_view(s[i].1),
        ),
    decreases s.len(),
{
    if s.len() > 0 {
        lemma_member_views(s.drop_last());
    }
}

/// The model of a type expression has the same variant as the expression.
pub broadcast proof fn lemma_type_view_variant(t: DynamicType)
    ensures
        ((#[trigger] type_view(t)) is String) == (t is String),
        (type_view(t) is I64) == (t is I64),
        (type_view(t) is U64) == (t is U64),
        (type_view(t) is F64) == (t is F64),
        (type_view(t) is Bool) == (t is Bool),
        (type_view(t) is Array) == (t is Array),
        (type_view(t) is Union) == (t is Union),
        (type_view(t) is Optional) == (t is Optional),
        (type_view(t) is Reference) == (t is Reference),
        (type_view(t) is Invalid) == (t is Invalid),
{
    match t {
        DynamicType::String => {},
        DynamicType::I64 => {},
        DynamicType::U64 => {},
        DynamicType::F64 => {},
        DynamicType::Bool => {},
        DynamicType::Array(_) => {},
        DynamicType::Union(_) => {},
        DynamicType::Optional(_) => {},
        DynamicType::Reference(_) => {},
        DynamicType::Invalid => {},
    }
}

impl View for DynamicType {
    type V = TypeV;

    open spec fn view(&self) -> TypeV {
        type_view(*self)
    }
}

/// The model of one definition body.
pub open spec fn fields_view(f: Fields) -> FieldsV {
    match f {
        Fields::Basic(t) => FieldsV::Basic(type_view(t)),
        Fields::Object(fs) => FieldsV::Object(member_views(fs@)),
    }
}

impl View for Fields {
    type V = FieldsV;

    open spec fn view(&self) -> FieldsV {
        fields_view(*self)
    }
}

/// The model of a schema, in order.
pub open spec fn schema_view(s: Seq<(String, Fields)>) -> SchemaV
    decreases s,
{
    if s.len() == 0 {
        Seq::empty()
    } else {
        schema_view(s.drop_last()).push((s.last().0@, fields_view(s.last().1)))
    }
}

/// The model of a schema, pointwise.
pub broadcast proof fn lemma_schema_view(s: Seq<(String, Fields)>)
    ensures
        (#[trigger] schema_view(s)).len() == s.len(),
        forall|i: int| 0 <= i < s.len() ==> schema_view(s)[i] == (
            s[i].0@,
            fields_view(s[i].1),
        ),
    decreases s.len(),
{
    if s.len() > 0 {
        lemma_schema_view(s.drop_last());
    }
}

/// A size measure on type expressions, used to bound recursion.
pub open spec fn type_size(t: DynamicType) -> nat
    decreases t,
{
    match t {
        DynamicType::Array(inner) => 1 + type_size(*inner),
        DynamicType::Union(vs) => 1 + member_list_size(vs@),
        DynamicType::Optional(inner) => 1 + type_size(*inner),
        _ => 1,
    }
}

/// The combined size of a sequence of named type expressions.
pub open spec fn member_list_size(s: Seq<(String, DynamicType)>) -> nat
    decreases s,
{
    if s.len() == 0 {
        0
    } else {
        member_list_size(s.drop_last()) + type_size(s.last().1)
    }
}

/// Each named member is no larger than the whole sequence.
pub proof fn lemma_member_list_size_bound(s: Seq<(String, DynamicType)>, i: int)
    requires
        0 <= i < s.len(),
    ensures
        type_size(s[i].1) <= member_list_size(s),
    decreases s.len(),
{
    if i == s.len() - 1 {
        assert(s.last() == s[i]);
    } else {
        lemma_member_list_size_bound(s.drop_last(), i);
        assert(s.drop_last()[i] == s[i]);
    }
}

/// The names of a sequence of named things, in order.
pub open spec fn names_of<T>(s: Seq<(Seq<char>, T)>) -> Seq<Seq<char>> {
    s.map_values(|p: (Seq<char>, T)| p.0)
}

/// No two elements are equal.
pub open spec fn seq_distinct(s: Seq<Seq<char>>) -> bool {
    forall|i: int, j: int| 0 <= i < j < s.len() ==> s[i] != s[j]
}

/// No two entries carry the same name.
pub open spec fn keys_distinct<T>(s: Seq<(Seq<char>, T)>) -> bool {
    forall|i: int, j: int| 0 <= i < j < s.len() ==> s[i].0 != s[j].0
}

/// The schema names a definition under `n`.
pub open spec fn schema_contains(s: SchemaV, n: Seq<char>) -> bool {
    exists|i: int| 0 <= i < s.len() && s[i].0 == n
}

/// The set of names the schema defines.
pub open spec fn schema_dom(s: SchemaV) -> Set<Seq<char>> {
    Set::new(|n: Seq<char>| schema_contains(s, n))
}

/// The definition the schema binds to `n`: the first entry so named.
pub open spec fn schema_lookup(s: SchemaV, n: Seq<char>) -> Option<FieldsV>
    decreases s.len(),
{
    if s.len() == 0 {
        None
    } else if s[0].0 == n {
        Some(s[0].1)
    } else {
        schema_lookup(s.drop_first(), n)
    }
}

/// A lookup succeeds exactly on the names the schema contains.
pub broadcast proof fn lemma_schema_lookup_contains(s: SchemaV, n: Seq<char>)
    ensures
        (#[trigger] schema_lookup(s, n)) is Some <==> schema_contains(s, n),
        schema_lookup(s, n) matches Some(f) ==> exists|i: int|
            0 <= i < s.len() && s[i].0 == n && s[i].1 == f,
    decreases s.len(),
{
    if s.len() > 0 {
        lemma_schema_lookup_contains(s.drop_first(), n);
        if s[0].0 != n {
            assert forall|i: int| 0 <= i < s.len() && s[i].0 == n implies
                schema_contains(s.drop_first(), n) by {
                assert(s.drop_first()[i - 1] == s[i]);
            }
            if schema_lookup(s.drop_first(), n) is Some {
                let f = schema_lookup(s.drop_first(), n)->Some_0;
                let i = choose|i: int|
                    0 <= i < s.drop_first().len() && s.drop_first()[i].0 == n
                        && s.drop_first()[i].1 == f;
                assert(s[i + 1] == s.drop_first()[i]);
            }
        }
    }
}

/// Structural guard against unbounded validation: wrapped optionals never
/// nest, and a bare (`Basic`) definition never re-indirects through a
/// reference or an optional. Every well-formed type satisfies it.
pub open spec fn type_tame(t: TypeV) -> bool
    decreases t,
{
    match t {
        TypeV::Array(inner) => type_tame(*inner),
        TypeV::Union(vs) => forall|i: int| 0 <= i < vs.len() ==> type_tame(#[trigger] vs[i].1),
        TypeV::Optional(inner) => !(*inner is Optional) && type_tame(*inner),
        _ => true,
    }
}

/// Structural guard on a definition body; see [`type_tame`].
pub open spec fn fields_tame(f: FieldsV) -> bool {
    match f {
        FieldsV::Basic(t) => !(t is Optional) && !(t is Reference) && type_tame(t),
        FieldsV::Object(fs) => forall|i: int|
            0 <= i < fs.len() ==> type_tame(#[trigger] fs[i].1),
    }
}

/// Structural guard on a whole schema; see [`type_tame`].
pub open spec fn schema_tame(s: SchemaV) -> bool {
    forall|i: int| 0 <= i < s.len() ==> fields_tame(#[trigger] s[i].1)
}

/// Well-formedness of a type expression against the set `dom` of defined
/// type names: arrays and optionals wrap neither the invalid placeholder
/// nor another optional; union variants are non-empty-named, never
/// optional, and recursively well-formed; references are non-empty and
/// resolve in `dom`.
pub open spec fn type_wf(t: TypeV, dom: Set<Seq<char>>) -> bool
    decreases t,
{
    match t {
        TypeV::Array(inner) => !(*inner is Invalid) && !(*inner is Optional)
            && type_wf(*inner, dom),
        TypeV::Union(vs) => forall|i: int|
            0 <= i < vs.len() ==> ((#[trigger] vs[i]).0.len() > 0 && !(vs[i].1 is Optional)
                && type_wf(vs[i].1, dom)),
        TypeV::Optional(inner) => !(*inner is Invalid) && !(*inner is Optional)
            && type_wf(*inner, dom),
        TypeV::Reference(n) => n.len() > 0 && dom.contains(n),
        _ => true,
    }
}

/// Well-formedness of a definition body: a bare type must be a genuine
/// leaf or container — not invalid, optional, or a reference; a record
/// shape must have at least one field, all field names non-empty and
/// pairwise distinct, and no field of the invalid placeholder type.
pub open spec fn fields_wf(f: FieldsV, dom: Set<Seq<char>>) -> bool {
    match f {
        FieldsV::Basic(t) => !(t is Invalid) && !(t is Optional) && !(t is Reference)
            && type_wf(t, dom),
        FieldsV::Object(fs) => fs.len() > 0 && keys_distinct(fs) && forall|i: int|
            0 <= i < fs.len() ==> ((#[trigger] fs[i]).0.len() > 0 && !(fs[i].1 is Invalid)
                && type_wf(fs[i].1, dom)),
    }
}

/// Union members of a tame union are tame.
pub proof fn lemma_tame_union_member(vs: Seq<(Seq<char>, TypeV)>, k: int)
    requires
        type_tame(TypeV::Union(vs)),
        0 <= k < vs.len(),
    ensures
        type_tame(vs[k].1),
{
    assert(TypeV::Union(vs)->Union_0 == vs);
}

/// A well-formed type expression is tame.
pub proof fn lemma_type_wf_tame(t: TypeV, dom: Set<Seq<char>>)
    requires
        type_wf(t, dom),
    ensures
        type_tame(t),
    decreases t,
{
    match t {
        TypeV::Array(inner) => lemma_type_wf_tame(*inner, dom),
        TypeV::Optional(inner) => lemma_type_wf_tame(*inner, dom),
        TypeV::Union(vs) => {
            assert forall|i: int| 0 <= i < vs.len() implies type_tame(#[trigger] vs[i].1) by {
                lemma_type_wf_tame(vs[i].1, dom);
            }
        },
        _ => {},
    }
}

/// A well-formed definition body is tame.
pub proof fn lemma_fields_wf_tame(f: FieldsV, dom: Set<Seq<char>>)
    requires
        fields_wf(f, dom),
    ensures
        fields_tame(f),
{
    match f {
        FieldsV::Basic(t) => lemma_type_wf_tame(t, dom),
        FieldsV::Object(fs) => {
            assert forall|i: int| 0 <= i < fs.len() implies type_tame(#[trigger] fs[i].1) by {
                lemma_type_wf_tame(fs[i].1, dom);
            }
        },
    }
}

/// The type names a type expression references, in traversal order.
pub open spec fn type_refs(t: TypeV) -> Seq<Seq<char>>
    decreases t,
{
    match t {
        TypeV::Array(inner) => type_refs(*inner),
        TypeV::Union(vs) => member_refs(vs),
        TypeV::Optional(inner) => type_refs(*inner),
        TypeV::Reference(n) => seq![n],
        _ => Seq::empty(),
    }
}

/// The references of a sequence of named type expressions, in order.
pub open spec fn member_refs(vs: Seq<(Seq<char>, TypeV)>) -> Seq<Seq<char>>
    decreases vs,
{
    if vs.len() == 0 {
        Seq::empty()
    } else {
        member_refs(vs.drop_last()) + type_refs(vs.last().1)
    }
}

/// The type names a definition body references, in traversal order.
pub open spec fn fields_refs(f: FieldsV) -> Seq<Seq<char>> {
    match f {
        FieldsV::Basic(t) => type_refs(t),
        FieldsV::Object(fs) => member_refs(fs),
    }
}

/// The number of optional-typed entries among named type expressions.
pub open spec fn count_optionals(s: Seq<(Seq<char>, TypeV)>) -> nat
    decreases s.len(),
{
    if s.len() == 0 {
        0
    } else {
        count_optionals(s.drop_last()) + (if s.last().1 is Optional {
            1nat
        } else {
            0nat
        })
    }
}

/// At most every entry is optional.
pub proof fn lemma_count_optionals_le(s: Seq<(Seq<char>, TypeV)>)
    ensures
        count_optionals(s) <= s.len(),
    decreases s.len(),
{
    if s.len() > 0 {
        lemma_count_optionals_le(s.drop_last());
    }
}

/// Copies a type expression; the copy has the same model as the original.
#[verifier::loop_isolation(false)]
pub fn clone_type(t: &DynamicType) -> (r: DynamicType)
    ensures
        r@ == t@,
    decreases type_size(*t),
{
    broadcast use lemma_member_views;

    match t {
        DynamicType::String => DynamicType::String,
        DynamicType::I64 => DynamicType::I64,
        DynamicType::U64 => DynamicType::U64,
        DynamicType::F64 => DynamicType::F64,
        DynamicType::Bool => DynamicType::Bool,
        DynamicType::Array(inner) => DynamicType::Array(Box::new(clone_type(&**inner))),
        DynamicType::Union(vs) => {
            let mut out: Vec<(String, DynamicType)> = Vec::new();
            let mut i: usize = 0;
            while i < vs.len()
                invariant
                    i <= vs.len(),
                    out@.len() == i as int,
                    forall|j: int| 0 <= j < i as int ==> out@[j].0@ == vs@[j].0@
                        && out@[j].1@ == vs@[j].1@,
                decreases vs.len() - i,
            {
                proof {
                    lemma_member_list_size_bound(vs@, i as int);
                }
                let e = clone_type(&vs[i].1);
                let k = vs[i].0.clone();
                out.push((k, e));
                i = i + 1;
            }
            let r = DynamicType::Union(out);
            proof {
                assert(member_views(out@) =~= member_views(vs@));
            }
            r
        },
        DynamicType::Optional(inner) => DynamicType::Optional(Box::new(clone_type(&**inner))),
        DynamicType::Reference(n) => DynamicType::Reference(n.clone()),
        DynamicType::Invalid => DynamicType::Invalid,
    }
}

impl Clone for DynamicType {
    /// The copy has the same model as the original.
    fn clone(&self) -> (r: Self)
        ensures
            r@ == self@,
    {
        clone_type(self)
    }
}

/// Copies a named-field list; the copy has the same model as the original.
pub fn clone_members(vs: &Vec<(String, DynamicType)>) -> (r: Vec<(String, DynamicType)>)
    ensures
        member_views(r@) == member_views(vs@),
        r@.len() == vs@.len(),
{
    broadcast use lemma_member_views;

    let mut out: Vec<(String, DynamicType)> = Vec::new();
    let mut i: usize = 0;
    while i < vs.len()
        invariant
            i <= vs.len(),
            out@.len() == i as int,
            forall|j: int| 0 <= j < i as int ==> out@[j].0@ == vs@[j].0@ && out@[j].1@
                == vs@[j].1@,
        decreases vs.len() - i,
    {
        let e = clone_type(&vs[i].1);
        let k = vs[i].0.clone();
        out.push((k, e));
        i = i + 1;
    }
    proof {
        assert(member_views(out@) =~= member_views(vs@));
    }
    out
}

impl Clone for Fields {
    /// The copy has the same model as the original.
    fn clone(&self) -> (r: Self)
        ensures
            r@ == self@,
    {
        match self {
            Fields::Basic(t) => Fields::Basic(clone_type(t)),
            Fields::Object(fs) => Fields::Object(clone_members(fs)),
        }
    }
}

/// Copies a schema; the copy has the same model as the original.
pub fn clone_schema(s: &Schema) -> (r: Schema)
    ensures
        schema_view(r@) == schema_view(s@),
        r@.len() == s@.len(),
{
    broadcast use lemma_schema_view;

    let mut out: Schema = Vec::new();
    let mut i: usize = 0;
    while i < s.len()
        invariant
            i <= s.len(),
            out@.len() == i as int,
            forall|j: int| 0 <= j < i as int ==> out@[j].0@ == s@[j].0@ && out@[j].1@
                == s@[j].1@,
        decreases s.len() - i,
    {
        let f = s[i].1.clone();
        let k = s[i].0.clone();
        out.push((k, f));
        i = i + 1;
    }
    proof {
        assert(schema_view(out@) =~= schema_view(s@));
    }
    out
}

impl DynamicType {
    /// Whether this type expression is an optional wrapper.
    pub fn is_option(&self) -> (r: bool)
        ensures
            r == (self@ is Optional),
    {
        matches!(self, DynamicType::Optional(_))
    }
}

/// Counts the fields of a record shape: total count, and how many are
/// optional-typed.
#[verifier::loop_isolation(false)]
pub fn count_options(fields: &Vec<(String, DynamicType)>) -> (r: (usize, usize))
    ensures
        r.0 == fields@.len(),
        r.1 == count_optionals(member_views(fields@)),
{
    broadcast use lemma_member_views;

    let mut count: usize = 0;
    let mut i: usize = 0;
    while i < fields.len()
        invariant
            i <= fields.len(),
            count <= i,
            count == count_optionals(member_views(fields@).subrange(0, i as int)),
        decreases fields.len() - i,
    {
        proof {
            let m = member_views(fields@);
            assert(m.subrange(0, i as int + 1).drop_last() =~= m.subrange(0, i as int));
            assert(m.subrange(0, i as int + 1).last() == m[i as int]);
        }
        if fields[i].1.is_option() {
            count = count + 1;
        }
        i = i + 1;
    }
    proof {
        assert(member_views(fields@).subrange(0, fields@.len() as int) =~= member_views(
            fields@,
        ));
    }
    (fields.len(), count)
}

/// Whether the schema binds a definition to this name.
#[verifier::loop_isolation(false)]
pub fn schema_contains_key(schema: &Schema, name: &String) -> (r: bool)
    ensures
        r == schema_contains(schema_view(schema@), name@),
{
    broadcast use lemma_schema_view;

    let mut i: usize = 0;
    while i < schema.len()
        invariant
            i <= schema.len(),
            forall|j: int| 0 <= j < i as int ==> schema_view(schema@)[j].0 != name@,
        decreases schema.len() - i,
    {
        if schema[i].0 == *name {
            proof {
                assert(schema_view(schema@)[i as int].0 == name@);
            }
            return true;
        }
        i = i + 1;
    }
    false
}

/// The definition the schema binds to this name, if any.
#[verifier::loop_isolation(false)]
pub fn schema_get<'a>(schema: &'a Schema, name: &String) -> (r: Option<&'a Fields>)
    ensures
        r is Some <==> schema_contains(schema_view(schema@), name@),
        r matches Some(f) ==> schema_lookup(schema_view(schema@), name@) == Some(f@),
{
    broadcast use {lemma_schema_view, lemma_schema_lookup_contains};

    let mut i: usize = 0;
    while i < schema.len()
        invariant
            i <= schema.len(),
            forall|j: int| 0 <= j < i as int ==> schema_view(schema@)[j].0 != name@,
        decreases schema.len() - i,
    {
        if schema[i].0 == *name {
            proof {
                lemma_schema_lookup_first(schema_view(schema@), name@, i as int);
            }
            return Some(&schema[i].1);
        }
        i = i + 1;
    }
    None
}

/// A sequence is a prefix of itself extended by anything.
pub proof fn lemma_prefix_concat(a: Seq<Seq<char>>, b: Seq<Seq<char>>)
    ensures
        a.is_prefix_of(a + b),
{
    assert((a + b).subrange(0, a.len() as int) =~= a);
}

/// Prefixes compose.
pub proof fn lemma_prefix_trans(a: Seq<Seq<char>>, b: Seq<Seq<char>>, c: Seq<Seq<char>>)
    requires
        a.is_prefix_of(b),
        b.is_prefix_of(c),
    ensures
        a.is_prefix_of(c),
{
    assert(c.subrange(0, a.len() as int) =~= b.subrange(0, a.len() as int));
}

/// Finds a name that an earlier entry already carries, if one exists.
#[verifier::loop_isolation(false)]
pub fn find_duplicate(names: &Vec<String>) -> (r: Option<usize>)
    ensures
        r is None <==> seq_distinct(names.deep_view()),
        r matches Some(i) ==> i < names@.len() && exists|j: int|
            0 <= j < i as int && names.deep_view()[j] == names.deep_view()[i as int],
{
    let n = names.len();
    let mut i: usize = 0;
    while i < n
        invariant
            i <= n,
            forall|a: int, b: int| 0 <= a < b < names.deep_view().len() && b < i as int
                ==> names.deep_view()[a] != names.deep_view()[b],
        decreases n - i,
    {
        let mut j: usize = 0;
        while j < i
            invariant
                j <= i < n,
                forall|b: int| 0 <= b < j as int ==> names.deep_view()[b]
                    != names.deep_view()[i as int],
            decreases i - j,
        {
            if names[j] == names[i] {
                proof {
                    assert(names.deep_view()[j as int] == names@[j as int]@);
                    assert(names.deep_view()[i as int] == names@[i as int]@);
                }
                return Some(i);
            }
            j = j + 1;
        }
        i = i + 1;
    }
    None
}

/// A lookup lands on the first entry carrying the name.
pub proof fn lemma_schema_lookup_first(s: SchemaV, n: Seq<char>, i: int)
    requires
        0 <= i < s.len(),
        s[i].0 == n,
        forall|j: int| 0 <= j < i ==> s[j].0 != n,
    ensures
        schema_lookup(s, n) == Some(s[i].1),
    decreases i,
{
    if i == 0 {
    } else {
        assert forall|j: int| 0 <= j < i - 1 implies s.drop_first()[j].0 != n by {
            assert(s.drop_first()[j] == s[j + 1]);
        }
        assert(s.drop_first()[i - 1] == s[i]);
        lemma_schema_lookup_first(s.drop_first(), n, i - 1);
    }
}

/// Checks one type expression against the defined names, accumulating the
/// references it makes; on failure the accumulator keeps what was already
/// gathered, extended by at most a prefix of this expression's references.
#[verifier::loop_isolation(false)]
fn check_type_inner(t: &DynamicType, schema: &Schema, refs: &mut Vec<String>) -> (r: Result<
    (),
    Error,
>)
    ensures
        r is Ok <==> type_wf(t@, schema_dom(schema_view(schema@))),
        r is Ok ==> final(refs).deep_view() == old(refs).deep_view() + type_refs(t@),
        r is Err ==> old(refs).deep_view().is_prefix_of(final(refs).deep_view()),
        r matches Err(e) ==> (e is TypeMismatch || e is EmptyName || e is UnknownName),
    decreases type_size(*t),
{
    broadcast use lemma_member_views;

    match t {
        DynamicType::Array(inner) => {
            if matches!(&**inner, DynamicType::Invalid | DynamicType::Optional(_)) {
                proof {
                    lemma_prefix_concat(refs.deep_view(), Seq::empty());
                    assert(refs.deep_view() + Seq::empty() =~= refs.deep_view());
                }
                Err(Error::TypeMismatch)
            } else {
                proof {
                    assert(t@ == TypeV::Array(Box::new(type_view(**inner))));
                    assert(!(type_view(**inner) is Invalid));
                    assert(!(type_view(**inner) is Optional));
                }
                check_type_inner(&**inner, schema, refs)
            }
        },
        DynamicType::Optional(inner) => {
            if matches!(&**inner, DynamicType::Invalid | DynamicType::Optional(_)) {
                proof {
                    lemma_prefix_concat(refs.deep_view(), Seq::empty());
                    assert(refs.deep_view() + Seq::empty() =~= refs.deep_view());
                }
                Err(Error::TypeMismatch)
            } else {
                proof {
                    assert(t@ == TypeV::Optional(Box::new(type_view(**inner))));
                    assert(!(type_view(**inner) is Invalid));
                    assert(!(type_view(**inner) is Optional));
                }
                check_type_inner(&**inner, schema, refs)
            }
        },
        DynamicType::Union(vs) => {
            let ghost dom = schema_dom(schema_view(schema@));
            let ghost m = member_views(vs@);
            let mut i: usize = 0;
            while i < vs.len()
                invariant
                    i <= vs.len(),
                    refs.deep_view() == old(refs).deep_view() + member_refs(
                        m.subrange(0, i as int),
                    ),
                    forall|j: int| 0 <= j < i as int ==> ((#[trigger] m[j]).0.len() > 0 && !(
                    m[j].1 is Optional) && type_wf(m[j].1, dom)),
                decreases vs.len() - i,
            {
                proof {
                    lemma_prefix_concat(
                        old(refs).deep_view(),
                        member_refs(m.subrange(0, i as int)),
                    );
                }
                if vs[i].0.as_str().is_empty() {
                    proof {
                        assert(m[i as int].0.len() == 0);
                        assert(!type_wf(t@, dom));
                    }
                    return Err(Error::EmptyName);
                }
                if vs[i].1.is_option() {
                    proof {
                        assert(m[i as int].1 is Optional);
                        assert(!type_wf(t@, dom));
                    }
                    return Err(Error::TypeMismatch);
                }
                proof {
                    lemma_member_list_size_bound(vs@, i as int);
                }
                let ghost refs_before = refs.deep_view();
                match check_type_inner(&vs[i].1, schema, refs) {
                    Ok(()) => {},
                    Err(e) => {
                        proof {
                            lemma_prefix_trans(
                                old(refs).deep_view(),
                                refs_before,
                                refs.deep_view(),
                            );
                            assert(m[i as int].1 == type_view(vs@[i as int].1));
                            assert(!type_wf(m[i as int].1, dom));
                            assert(!type_wf(t@, dom));
                        }
                        return Err(e);
                    },
                }
                proof {
                    assert(m.subrange(0, i as int + 1).drop_last() =~= m.subrange(0, i as int));
                    assert(m.subrange(0, i as int + 1).last() == m[i as int]);
                    assert(refs.deep_view() =~= old(refs).deep_view() + member_refs(
                        m.subrange(0, i as int + 1),
                    ));
                }
                i = i + 1;
            }
            proof {
                assert(m.subrange(0, vs@.len() as int) =~= m);
                assert(m.len() == vs@.len());
                assert(type_wf(t@, dom));
            }
            Ok(())
        },
        DynamicType::Reference(n) => {
            if n.as_str().is_empty() {
                proof {
                    lemma_prefix_concat(refs.deep_view(), Seq::empty());
                    assert(refs.deep_view() + Seq::empty() =~= refs.deep_view());
                }
                Err(Error::EmptyName)
            } else if schema_contains_key(schema, n) {
                let ghost before = refs.deep_view();
                refs.push(n.clone());
                proof {
                    assert(refs.deep_view() =~= before + seq![n@]);
                }
                Ok(())
            } else {
                proof {
                    lemma_prefix_concat(refs.deep_view(), Seq::empty());
                    assert(refs.deep_view() + Seq::empty() =~= refs.deep_view());
                }
                Err(Error::UnknownName(n.clone()))
            }
        },
        _ => {
            proof {
                assert(refs.deep_view() =~= refs.deep_view() + Seq::<Seq<char>>::empty());
            }
            Ok(())
        },
    }
}

impl DynamicType {
    /// Checks this type expression against the schema's defined names and,
    /// on success, appends the type names it references to
    /// `internal_types`, in traversal order. Succeeds exactly on
    /// well-formed expressions; on failure `internal_types` is untouched.
    #[verifier::loop_isolation(false)]
    pub fn check_data(&self, custom_types: &Schema, internal_types: &mut Vec<String>) -> (r:
        Result<(), Error>)
        ensures
            r is Ok <==> type_wf(self@, schema_dom(schema_view(custom_types@))),
            r is Ok ==> final(internal_types).deep_view() == old(internal_types).deep_view()
                + type_refs(self@),
            r is Err ==> *final(internal_types) == *old(internal_types),
            r matches Err(e) ==> (e is TypeMismatch || e is EmptyName || e is UnknownName),
    {
        broadcast use lemma_member_views;

        let mut fresh: Vec<String> = Vec::new();
        match check_type_inner(self, custom_types, &mut fresh) {
            Ok(()) => {
                let ghost before = internal_types.deep_view();
                let ghost gathered = fresh.deep_view();
                internal_types.append(&mut fresh);
                proof {
                    assert forall|k: int|
                        0 <= k < internal_types.deep_view().len() implies internal_types
                        .deep_view()[k] == (before + gathered)[k] by {
                        assert(internal_types.deep_view()[k] == internal_types@[k]@);
                        if k < before.len() {
                            assert(internal_types@[k] == old(internal_types)@[k]);
                        }
                    }
                    assert(internal_types.deep_view() =~= before + gathered);
                    assert(Seq::<Seq<char>>::empty() + type_refs(self@) =~= type_refs(self@));
                }
                Ok(())
            },
            Err(e) => Err(e),
        }
    }
}

impl Fields {
    /// Checks this definition body against the schema's defined names.
    /// Succeeds exactly on well-formed bodies, returning the type names
    /// the body references, in traversal order.
    #[verifier::loop_isolation(false)]
    pub fn check_data(&self, custom_types: &Schema) -> (r: Result<Vec<String>, Error>)
        ensures
            r is Ok <==> fields_wf(self@, schema_dom(schema_view(custom_types@))),
            r matches Ok(v) ==> v.deep_view() == fields_refs(self@),
            r matches Err(e) ==> (e is TypeMismatch || e is EmptyName || e is UnknownName
                || e is DuplicateName),
    {
        broadcast use lemma_member_views;

        match self {
            Fields::Basic(t) => {
                if matches!(
                    t,
                    DynamicType::Invalid | DynamicType::Optional(_) | DynamicType::Reference(_)
                ) {
                    Err(Error::TypeMismatch)
                } else {
                    let mut refs: Vec<String> = Vec::new();
                    match check_type_inner(t, custom_types, &mut refs) {
                        Ok(()) => {
                            proof {
                                assert(Seq::<Seq<char>>::empty() + type_refs(t@) =~= type_refs(
                                    t@,
                                ));
                            }
                            Ok(refs)
                        },
                        Err(e) => Err(e),
                    }
                }
            },
            Fields::Object(fs) => {
                let ghost dom = schema_dom(schema_view(custom_types@));
                let ghost m = member_views(fs@);
                if fs.len() == 0 {
                    return Err(Error::TypeMismatch);
                }
                let mut names: Vec<String> = Vec::new();
                let mut k: usize = 0;
                while k < fs.len()
                    invariant
                        k <= fs.len(),
                        names@.len() == k as int,
                        forall|j: int| 0 <= j < k as int ==> (#[trigger] names@[j])@ == m[j].0,
                    decreases fs.len() - k,
                {
                    names.push(fs[k].0.clone());
                    k = k + 1;
                }
                proof {
                    assert forall|j: int| 0 <= j < names@.len() implies names.deep_view()[j]
                        == m[j].0 by {
                        assert(names.deep_view()[j] == names@[j]@);
                    }
                    assert(names.deep_view().len() == m.len());
                }
                match find_duplicate(&names) {
                    Some(d) => {
                        proof {
                            let di = d as int;
                            let j = choose|j: int|
                                0 <= j < di && names.deep_view()[j] == names.deep_view()[di];
                            assert(m[j].0 == m[d as int].0);
                            assert(!keys_distinct(m));
                        }
                        return Err(Error::DuplicateName(names[d].clone()));
                    },
                    None => {
                        proof {
                            assert forall|a: int, b: int| 0 <= a < b < m.len() implies m[a].0
                                != m[b].0 by {
                                assert(names.deep_view()[a] == m[a].0);
                                assert(names.deep_view()[b] == m[b].0);
                            }
                        }
                    },
                }
                let mut refs: Vec<String> = Vec::new();
                let mut i: usize = 0;
                while i < fs.len()
                    invariant
                        i <= fs.len(),
                        refs.deep_view() == member_refs(m.subrange(0, i as int)),
                        forall|j: int| 0 <= j < i as int ==> ((#[trigger] m[j]).0.len() > 0 && !(
                        m[j].1 is Invalid) && type_wf(m[j].1, dom)),
                    decreases fs.len() - i,
                {
                    if fs[i].0.as_str().is_empty() {
                        proof {
                            assert(m[i as int].0.len() == 0);
                            assert(!fields_wf(self@, dom));
                        }
                        return Err(Error::EmptyName);
                    }
                    if matches!(fs[i].1, DynamicType::Invalid) {
                        proof {
                            assert(m[i as int].1 is Invalid);
                            assert(!fields_wf(self@, dom));
                        }
                        return Err(Error::TypeMismatch);
                    }
                    let ghost refs_before = refs.deep_view();
                    match check_type_inner(&fs[i].1, custom_types, &mut refs) {
                        Ok(()) => {},
                        Err(e) => {
                            return Err(e);
                        },
                    }
                    proof {
                        assert(m.subrange(0, i as int + 1).drop_last() =~= m.subrange(
                            0,
                            i as int,
                        ));
                        assert(m.subrange(0, i as int + 1).last() == m[i as int]);
                        assert(refs.deep_view() =~= member_refs(m.subrange(0, i as int + 1)));
                    }
                    i = i + 1;
                }
                proof {
                    assert(m.subrange(0, fs@.len() as int) =~= m);
                }
                Ok(refs)
            },
        }
    }
}

} // verus!
