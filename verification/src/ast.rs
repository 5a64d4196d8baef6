//! The syntax of a model file as it is read, before it is built into a
//! model, and the mathematical views of it and of the model's parts.
use vstd::prelude::*;
use crate::bignum::BigNat;
use crate::names::{PackageName, strings_view};
use crate::model::{Type, FieldInfo, ConstantValue, ExternLiteralSpecifier, ExternLiteralIntBound, NameView};

verus! {

/// The view of a type: its name and the views of its arguments.
pub struct TypeV {
    pub name: NameView,
    pub args: Seq<TypeV>,
}

/// The view of a type.
pub open spec fn type_view(t: Type) -> TypeV
    decreases t, 0nat,
{
    TypeV { name: t.name@, args: types_view(t.args@) }
}

/// The views of a list of types.
pub open spec fn types_view(ts: Seq<Type>) -> Seq<TypeV>
    decreases ts, ts.len(),
{
    if ts.len() == 0 {
        Seq::empty()
    } else {
        types_view(ts.subrange(0, ts.len() - 1)).push(type_view(ts[ts.len() - 1]))
    }
}

/// The view of a constant value.
pub enum ValueV {
    Integer(int),
    Str(Seq<char>),
    Sequence(Seq<ValueV>),
    Case(Seq<char>, Seq<ValueV>),
    Record(Seq<(Seq<char>, ValueV)>),
    Constant(NameView),
}

/// The view of a constant value.
pub open spec fn value_view(v: ConstantValue) -> ValueV
    decreases v, 0nat,
{
    match v {
        ConstantValue::Integer(n) => ValueV::Integer(n@),
        ConstantValue::String(s) => ValueV::Str(s@),
        ConstantValue::Sequence(vs) => ValueV::Sequence(values_view(vs@)),
        ConstantValue::Case(n, args) => ValueV::Case(n@, values_view(args@)),
        ConstantValue::Record(fs) => ValueV::Record(record_view(fs@)),
        ConstantValue::Constant(n) => ValueV::Constant(n@),
    }
}

/// The views of a list of constant values.
pub open spec fn values_view(vs: Seq<ConstantValue>) -> Seq<ValueV>
    decreases vs, vs.len(),
{
    if vs.len() == 0 {
        Seq::empty()
    } else {
        values_view(vs.subrange(0, vs.len() - 1)).push(value_view(vs[vs.len() - 1]))
    }
}

/// The view of the fields of a record value.
pub open spec fn record_view(fs: Seq<(String, ConstantValue)>) -> Seq<(Seq<char>, ValueV)>
    decreases fs, fs.len(),
{
    if fs.len() == 0 {
        Seq::empty()
    } else {
        record_view(fs.subrange(0, fs.len() - 1)).push((fs[fs.len() - 1].0@, value_view(fs[fs.len() - 1].1)))
    }
}

/// The view of a list of fields: names and types.
pub open spec fn fields_view(fs: Seq<(String, FieldInfo)>) -> Seq<(Seq<char>, TypeV)> {
    fs.map_values(|f: (String, FieldInfo)| (f.0@, type_view(f.1.field_type)))
}

/// The view of an extern literal.
pub enum LiteralV {
    Integer(ExternLiteralIntBound, Option<int>, ExternLiteralIntBound, Option<int>),
    Str,
    Sequence(TypeV),
    Case(Seq<char>, Seq<TypeV>),
    Record(Seq<(Seq<char>, TypeV)>),
}

/// The view of an extern literal.
pub open spec fn literal_view(l: ExternLiteralSpecifier) -> LiteralV {
    match l {
        ExternLiteralSpecifier::Integer(lb, lv, ub, uv) => LiteralV::Integer(
            lb,
            match lv { Some(x) => Some(x@), None => None },
            ub,
            match uv { Some(x) => Some(x@), None => None },
        ),
        ExternLiteralSpecifier::String => LiteralV::Str,
        ExternLiteralSpecifier::Sequence(t) => LiteralV::Sequence(type_view(t)),
        ExternLiteralSpecifier::Case(n, ps) => LiteralV::Case(n@, types_view(ps@)),
        ExternLiteralSpecifier::Record(fs) => LiteralV::Record(fields_view(fs@)),
    }
}

/// A top-level definition as it is written.
#[derive(Debug)]
pub enum Definition {
    Constant(String, Type, Vec<(BigNat, ConstantValue)>),
    Versioned(bool, bool, String, Vec<String>, Vec<(BigNat, Vec<(String, FieldInfo)>)>),
    Extern(String, Vec<String>, Vec<ExternLiteralSpecifier>),
}

/// The view of a definition. `Versioned` holds whether the type is final,
/// whether it is an enum, its name, its parameters and its versions.
pub enum DefinitionV {
    Constant(Seq<char>, TypeV, Seq<(nat, ValueV)>),
    Versioned(bool, bool, Seq<char>, Seq<Seq<char>>, Seq<(nat, Seq<(Seq<char>, TypeV)>)>),
    Extern(Seq<char>, Seq<Seq<char>>, Seq<LiteralV>),
}

/// The views of the values of a constant, by version.
pub open spec fn constant_versions_view(vs: Seq<(BigNat, ConstantValue)>) -> Seq<(nat, ValueV)> {
    vs.map_values(|e: (BigNat, ConstantValue)| (e.0@, value_view(e.1)))
}

/// The views of the versions of a struct or enum.
pub open spec fn type_versions_view(vs: Seq<(BigNat, Vec<(String, FieldInfo)>)>) -> Seq<(nat, Seq<(Seq<char>, TypeV)>)> {
    vs.map_values(|e: (BigNat, Vec<(String, FieldInfo)>)| (e.0@, fields_view(e.1@)))
}

/// The views of a list of literals.
pub open spec fn literals_view(ls: Seq<ExternLiteralSpecifier>) -> Seq<LiteralV> {
    ls.map_values(|l: ExternLiteralSpecifier| literal_view(l))
}

/// The view of a definition.
pub open spec fn definition_view(d: Definition) -> DefinitionV {
    match d {
        Definition::Constant(n, t, vs) => DefinitionV::Constant(n@, type_view(t), constant_versions_view(vs@)),
        Definition::Versioned(f, e, n, ps, vs) => DefinitionV::Versioned(f, e, n@, strings_view(ps@), type_versions_view(vs@)),
        Definition::Extern(n, ps, ls) => DefinitionV::Extern(n@, strings_view(ps@), literals_view(ls@)),
    }
}

/// The views of a list of definitions.
pub open spec fn definitions_view(ds: Seq<Definition>) -> Seq<DefinitionV> {
    ds.map_values(|d: Definition| definition_view(d))
}

/// A model file as it is written: the version directive, the package, and
/// the definitions in order.
#[derive(Debug)]
pub struct ModelFile {
    pub latest_version: BigNat,
    pub package: PackageName,
    pub definitions: Vec<Definition>,
}

/// The view of a model file.
pub struct ModelFileV {
    pub latest_version: nat,
    pub package: Seq<Seq<char>>,
    pub definitions: Seq<DefinitionV>,
}

/// The view of a model file.
pub open spec fn file_view(f: ModelFile) -> ModelFileV {
    ModelFileV {
        latest_version: f.latest_version@,
        package: f.package@,
        definitions: definitions_view(f.definitions@),
    }
}

/// Appending to a list of types appends its view.
pub proof fn lemma_types_view_push(ts: Seq<Type>, t: Type)
    ensures
        types_view(ts.push(t)) == types_view(ts).push(type_view(t)),
{
    assert(ts.push(t).subrange(0, ts.len() as int) =~= ts);
}

/// Appending to a list of values appends its view.
pub proof fn lemma_values_view_push(vs: Seq<ConstantValue>, v: ConstantValue)
    ensures
        values_view(vs.push(v)) == values_view(vs).push(value_view(v)),
{
    assert(vs.push(v).subrange(0, vs.len() as int) =~= vs);
}

/// Appending to the fields of a record appends its view.
pub proof fn lemma_record_view_push(fs: Seq<(String, ConstantValue)>, f: (String, ConstantValue))
    ensures
        record_view(fs.push(f)) == record_view(fs).push((f.0@, value_view(f.1))),
{
    assert(fs.push(f).subrange(0, fs.len() as int) =~= fs);
}

/// The view of a list of values holds the view of each value.
pub proof fn lemma_values_view(vs: Seq<ConstantValue>)
    ensures
        values_view(vs).len() == vs.len(),
        forall|i: int| 0 <= i < vs.len() ==> #[trigger] values_view(vs)[i] == value_view(vs[i]),
    decreases vs.len(),
{
    if vs.len() > 0 {
        lemma_values_view(vs.subrange(0, vs.len() - 1));
    }
}

/// The view of the fields of a record holds the view of each field.
pub proof fn lemma_record_view(fs: Seq<(String, ConstantValue)>)
    ensures
        record_view(fs).len() == fs.len(),
        forall|i: int| 0 <= i < fs.len() ==> #[trigger] record_view(fs)[i] == (fs[i].0@, value_view(fs[i].1)),
    decreases fs.len(),
{
    if fs.len() > 0 {
        lemma_record_view(fs.subrange(0, fs.len() - 1));
    }
}

} // verus!
