//! Builds a model from a parsed model file, and reads model files.
use vstd::prelude::*;
use crate::bignum::BigNat;
use crate::names::{QualifiedName, strings_view, upper_name};
use crate::model::{Verilization, VerilizationMetadata, Constant, ConstantValue, ModelError, NameView, Type, TypeDefinition, TypeVersionDefinition, FieldInfo, ExternLiteralSpecifier, ConstantBuilder, ExternTypeDefinitionBuilder, VersionedTypeDefinitionData, ExternTypeDefinitionData, names_contain, has_field_named, first_repeat, find_repeat, lemma_first_repeat_bound};
use crate::ast::{TypeV, ValueV, LiteralV, DefinitionV, ModelFileV, Definition, ModelFile, type_view, value_view, values_view, record_view, fields_view, literal_view, literals_view, constant_versions_view, type_versions_view, definition_view, definitions_view, file_view, lemma_values_view, lemma_record_view};
use crate::versions::has_exact_version;
use crate::grammar::model_file_syntax;
use crate::parser::parse_file;

verus! {

/// The view of a model error.
pub enum ModelErrorV {
    DuplicateConstant(NameView),
    DuplicateType(NameView),
    DuplicateVersion(NameView, nat),
    DuplicateField(NameView, nat, Seq<char>),
    DuplicateRecordField(NameView, Seq<char>),
    DuplicateFieldValue(Seq<char>),
}

impl View for ModelError {
    type V = ModelErrorV;

    open spec fn view(&self) -> ModelErrorV {
        match self {
            ModelError::DuplicateConstant(n) => ModelErrorV::DuplicateConstant(n@),
            ModelError::DuplicateType(n) => ModelErrorV::DuplicateType(n@),
            ModelError::DuplicateVersion(n, v) => ModelErrorV::DuplicateVersion(n@, v@),
            ModelError::DuplicateField(n, v, f) => ModelErrorV::DuplicateField(n@, v@, f@),
            ModelError::DuplicateRecordField(n, f) => ModelErrorV::DuplicateRecordField(n@, f@),
            ModelError::DuplicateFieldValue(f) => ModelErrorV::DuplicateFieldValue(f@),
        }
    }
}

/// The first entry of `fs[i..]` whose name an earlier entry has.
pub open spec fn repeated_name<A>(fs: Seq<(Seq<char>, A)>, i: nat) -> Option<nat>
    decreases fs.len() - i,
{
    if i >= fs.len() {
        None
    } else if exists|j: int| 0 <= j < i && fs[j].0 == fs[i as int].0 {
        Some(i)
    } else {
        repeated_name(fs, i + 1)
    }
}

/// The first field named twice in a record value, inner records first, in
/// the order the value is written.
pub open spec fn value_error(v: ValueV) -> Option<Seq<char>>
    decreases v, 0nat,
{
    match v {
        ValueV::Sequence(vs) => values_error(vs, 0),
        ValueV::Case(_, args) => values_error(args, 0),
        ValueV::Record(fs) => record_error(fs, 0),
        _ => None,
    }
}

/// The first field named twice in the values `vs[i..]`.
pub open spec fn values_error(vs: Seq<ValueV>, i: nat) -> Option<Seq<char>>
    decreases vs, vs.len() - i,
{
    if i >= vs.len() {
        None
    } else {
        match value_error(vs[i as int]) {
            Some(e) => Some(e),
            None => values_error(vs, i + 1),
        }
    }
}

/// The first field named twice in the fields `fs[i..]` of a record value:
/// within each field's value first, then the field's own name.
pub open spec fn record_error(fs: Seq<(Seq<char>, ValueV)>, i: nat) -> Option<Seq<char>>
    decreases fs, fs.len() - i,
{
    if i >= fs.len() {
        None
    } else {
        match value_error(fs[i as int].1) {
            Some(e) => Some(e),
            None => if exists|j: int| 0 <= j < i && fs[j].0 == fs[i as int].0 {
                Some(fs[i as int].0)
            } else {
                record_error(fs, i + 1)
            },
        }
    }
}

/// The first error in the versions `vs[i..]` of the constant `n`.
pub open spec fn constant_error(n: NameView, vs: Seq<(nat, ValueV)>, i: nat) -> Option<ModelErrorV>
    decreases vs.len() - i,
{
    if i >= vs.len() {
        None
    } else {
        match value_error(vs[i as int].1) {
            Some(f) => Some(ModelErrorV::DuplicateFieldValue(f)),
            None => if exists|j: int| 0 <= j < i && vs[j].0 == vs[i as int].0 {
                Some(ModelErrorV::DuplicateVersion(n, vs[i as int].0))
            } else {
                constant_error(n, vs, i + 1)
            },
        }
    }
}

/// The first error in the versions `vs[i..]` of the struct or enum `n`.
pub open spec fn versions_error(n: NameView, vs: Seq<(nat, Seq<(Seq<char>, TypeV)>)>, i: nat) -> Option<ModelErrorV>
    decreases vs.len() - i,
{
    if i >= vs.len() {
        None
    } else if exists|j: int| 0 <= j < i && vs[j].0 == vs[i as int].0 {
        Some(ModelErrorV::DuplicateVersion(n, vs[i as int].0))
    } else {
        match repeated_name(vs[i as int].1, 0) {
            Some(k) => Some(ModelErrorV::DuplicateField(n, vs[i as int].0, vs[i as int].1[k as int].0)),
            None => versions_error(n, vs, i + 1),
        }
    }
}

/// The first error in the literals `ls[i..]` of the extern type `n`.
pub open spec fn literals_error(n: NameView, ls: Seq<LiteralV>, i: nat) -> Option<ModelErrorV>
    decreases ls.len() - i,
{
    if i >= ls.len() {
        None
    } else {
        match ls[i as int] {
            LiteralV::Record(fs) => match repeated_name(fs, 0) {
                Some(k) => Some(ModelErrorV::DuplicateRecordField(n, fs[k as int].0)),
                None => literals_error(n, ls, i + 1),
            },
            _ => literals_error(n, ls, i + 1),
        }
    }
}

/// The name a definition defines.
pub open spec fn def_name(d: DefinitionV) -> Seq<char> {
    match d {
        DefinitionV::Constant(n, _, _) => n,
        DefinitionV::Versioned(_, _, n, _, _) => n,
        DefinitionV::Extern(n, _, _) => n,
    }
}

/// The first error inside a definition, before its name is checked.
pub open spec fn def_internal_error(pkg: Seq<Seq<char>>, d: DefinitionV) -> Option<ModelErrorV> {
    match d {
        DefinitionV::Constant(n, _, vs) => constant_error((pkg, n), vs, 0),
        DefinitionV::Versioned(_, _, n, _, vs) => versions_error((pkg, n), vs, 0),
        DefinitionV::Extern(n, _, ls) => literals_error((pkg, n), ls, 0),
    }
}

/// The upper-cased names that the definitions before `k` take.
pub open spec fn taken_before(pkg: Seq<Seq<char>>, defs: Seq<DefinitionV>, k: int) -> Seq<NameView> {
    defs.take(k).map_values(|d: DefinitionV| upper_name((pkg, def_name(d))))
}

/// The error of definition `k`: one inside it, or else its name already
/// taken, ASCII case ignored, by an earlier definition.
pub open spec fn def_error(pkg: Seq<Seq<char>>, defs: Seq<DefinitionV>, k: int) -> Option<ModelErrorV> {
    match def_internal_error(pkg, defs[k]) {
        Some(e) => Some(e),
        None => if names_contain(taken_before(pkg, defs, k), upper_name((pkg, def_name(defs[k])))) {
            match defs[k] {
                DefinitionV::Constant(n, _, _) => Some(ModelErrorV::DuplicateConstant((pkg, n))),
                _ => Some(ModelErrorV::DuplicateType((pkg, def_name(defs[k])))),
            }
        } else {
            None
        },
    }
}

/// The first error of the definitions `defs[k..]`.
pub open spec fn build_error_from(pkg: Seq<Seq<char>>, defs: Seq<DefinitionV>, k: nat) -> Option<ModelErrorV>
    decreases defs.len() - k,
{
    if k >= defs.len() {
        None
    } else {
        match def_error(pkg, defs, k as int) {
            Some(e) => Some(e),
            None => build_error_from(pkg, defs, k + 1),
        }
    }
}

/// The first error in building the model of a file, if any.
pub open spec fn build_error(f: ModelFileV) -> Option<ModelErrorV> {
    build_error_from(f.package, f.definitions, 0)
}

/// The view of a type of a model, as a definition gives it.
pub enum TypeEntryV {
    Versioned(bool, NameView, bool, Seq<Seq<char>>, Seq<(nat, Seq<(Seq<char>, TypeV)>)>),
    Extern(NameView, Seq<Seq<char>>, Seq<LiteralV>),
}

/// The constants that the definitions define, in order.
pub open spec fn constants_of(pkg: Seq<Seq<char>>, defs: Seq<DefinitionV>) -> Seq<(NameView, TypeV, Seq<(nat, ValueV)>)>
    decreases defs.len(),
{
    if defs.len() == 0 {
        Seq::empty()
    } else {
        let rest = constants_of(pkg, defs.drop_last());
        match defs.last() {
            DefinitionV::Constant(n, t, vs) => rest.push(((pkg, n), t, vs)),
            _ => rest,
        }
    }
}

/// The types that the definitions define, in order.
pub open spec fn types_of(pkg: Seq<Seq<char>>, defs: Seq<DefinitionV>) -> Seq<TypeEntryV>
    decreases defs.len(),
{
    if defs.len() == 0 {
        Seq::empty()
    } else {
        let rest = types_of(pkg, defs.drop_last());
        match defs.last() {
            DefinitionV::Versioned(e, f, n, ps, vs) => rest.push(TypeEntryV::Versioned(f, (pkg, n), e, ps, vs)),
            DefinitionV::Extern(n, ps, ls) => rest.push(TypeEntryV::Extern((pkg, n), ps, ls)),
            _ => rest,
        }
    }
}

/// The view of a constant of a model.
pub open spec fn constant_entry_view(e: (QualifiedName, Constant)) -> (NameView, TypeV, Seq<(nat, ValueV)>) {
    (e.0@, type_view(e.1.value_type), constant_versions_view(e.1.versions@))
}

/// The views of the versions of a struct or enum of a model.
pub open spec fn data_versions_view(vs: Seq<(BigNat, TypeVersionDefinition)>) -> Seq<(nat, Seq<(Seq<char>, TypeV)>)> {
    vs.map_values(|e: (BigNat, TypeVersionDefinition)| (e.0@, fields_view(e.1.fields@)))
}

/// The view of a type of a model.
pub open spec fn type_entry_view(e: (QualifiedName, TypeDefinition)) -> TypeEntryV {
    match e.1 {
        TypeDefinition::StructType(d) => TypeEntryV::Versioned(false, e.0@, d.is_final, strings_view(d.type_params@), data_versions_view(d.versions@)),
        TypeDefinition::EnumType(d) => TypeEntryV::Versioned(true, e.0@, d.is_final, strings_view(d.type_params@), data_versions_view(d.versions@)),
        TypeDefinition::ExternType(d) => TypeEntryV::Extern(e.0@, strings_view(d.type_params@), literals_view(d.literals@)),
    }
}

/// A type of a model has no imports and, when it is a struct or enum, the
/// latest version `latest`.
pub open spec fn type_entry_settled(e: (QualifiedName, TypeDefinition), latest: nat) -> bool {
    match e.1 {
        TypeDefinition::StructType(d) => d.latest_version@ == latest && d.imports@.len() == 0,
        TypeDefinition::EnumType(d) => d.latest_version@ == latest && d.imports@.len() == 0,
        TypeDefinition::ExternType(d) => d.imports@.len() == 0,
    }
}

/// Model `m` is what the file `f` defines: its latest version, and its
/// constants and types in the order the file defines them, without imports.
pub open spec fn built_from(m: Verilization, f: ModelFileV) -> bool {
    &&& m.latest() == f.latest_version
    &&& m.constant_entries().map_values(|e: (QualifiedName, Constant)| constant_entry_view(e)) == constants_of(f.package, f.definitions)
    &&& m.type_entries().map_values(|e: (QualifiedName, TypeDefinition)| type_entry_view(e)) == types_of(f.package, f.definitions)
    &&& forall|i: int| 0 <= i < m.constant_entries().len() ==> (#[trigger] m.constant_entries()[i]).1.imports@.len() == 0
    &&& forall|i: int| 0 <= i < m.type_entries().len() ==> type_entry_settled(#[trigger] m.type_entries()[i], f.latest_version)
}

/// The first repeated name is the same whether names are taken from the
/// strings or from their views.
pub proof fn lemma_repeat_views<A, B>(fs: Seq<(String, A)>, gs: Seq<(Seq<char>, B)>, i: nat)
    requires
        fs.len() == gs.len(),
        forall|k: int| 0 <= k < fs.len() ==> #[trigger] gs[k].0 == fs[k].0@,
    ensures
        first_repeat(fs, i) == repeated_name(gs, i),
    decreases fs.len() - i,
{
    if i < fs.len() {
        assert(has_field_named(fs.take(i as int), fs[i as int].0@) <==> exists|j: int| 0 <= j < i && gs[j].0 == gs[i as int].0) by {
            if has_field_named(fs.take(i as int), fs[i as int].0@) {
                let j = choose|j: int| 0 <= j < i && fs.take(i as int)[j].0@ == fs[i as int].0@;
                assert(gs[j].0 == gs[i as int].0);
            }
            if exists|j: int| 0 <= j < i && gs[j].0 == gs[i as int].0 {
                let j = choose|j: int| 0 <= j < i && gs[j].0 == gs[i as int].0;
                assert(fs.take(i as int)[j].0@ == fs[i as int].0@);
            }
        }
        lemma_repeat_views(fs, gs, i + 1);
    }
}

/// The first field named twice in a value, if any.
fn value_duplicate(v: &ConstantValue) -> (r: Option<String>)
    ensures
        match value_error(value_view(*v)) {
            None => r is None,
            Some(f) => r matches Some(rf) && rf@ == f,
        },
    decreases v,
{
    match v {
        ConstantValue::Sequence(vs) => values_duplicate(vs),
        ConstantValue::Case(_, args) => values_duplicate(args),
        ConstantValue::Record(fs) => {
            proof {
                lemma_record_view(fs@);
            }
            let ghost rv = record_view(fs@);
            let mut i: usize = 0;
            while i < fs.len()
                invariant
                    i <= fs@.len(),
                    *v == ConstantValue::Record(*fs),
                    value_error(value_view(*v)) == record_error(rv, 0),
                    rv == record_view(fs@),
                    rv.len() == fs@.len(),
                    forall|k: int| 0 <= k < fs@.len() ==> #[trigger] rv[k] == (fs@[k].0@, value_view(fs@[k].1)),
                    record_error(rv, 0) == record_error(rv, i as nat),
                decreases fs@.len() - i,
            {
                match value_duplicate(&fs[i].1) {
                    Some(f) => return Some(f),
                    None => {},
                }
                let mut j: usize = 0;
                while j < i
                    invariant
                        i < fs@.len(),
                        j <= i,
                        *v == ConstantValue::Record(*fs),
                        value_error(value_view(*v)) == record_error(rv, 0),
                        record_error(rv, 0) == record_error(rv, i as nat),
                        value_error(rv[i as int].1) is None,
                        rv.len() == fs@.len(),
                        forall|k: int| 0 <= k < fs@.len() ==> #[trigger] rv[k] == (fs@[k].0@, value_view(fs@[k].1)),
                        forall|k: int| 0 <= k < j ==> rv[k].0 != rv[i as int].0,
                    decreases i - j,
                {
                    if fs[j].0 == fs[i].0 {
                        assert(rv[j as int].0 == rv[i as int].0);
                        return Some(fs[i].0.clone());
                    }
                    j = j + 1;
                }
                i = i + 1;
            }
            None
        },
        _ => None,
    }
}

/// The first field named twice in a list of values, if any.
fn values_duplicate(vs: &Vec<ConstantValue>) -> (r: Option<String>)
    ensures
        match values_error(values_view(vs@), 0) {
            None => r is None,
            Some(f) => r matches Some(rf) && rf@ == f,
        },
    decreases vs@,
{
    proof {
        lemma_values_view(vs@);
    }
    let ghost vv = values_view(vs@);
    let mut i: usize = 0;
    while i < vs.len()
        invariant
            i <= vs@.len(),
            vv == values_view(vs@),
            vv.len() == vs@.len(),
            forall|k: int| 0 <= k < vs@.len() ==> #[trigger] vv[k] == value_view(vs@[k]),
            values_error(vv, 0) == values_error(vv, i as nat),
        decreases vs@.len() - i,
    {
        match value_duplicate(&vs[i]) {
            Some(f) => return Some(f),
            None => {},
        }
        i = i + 1;
    }
    None
}

/// Builds a constant from its versions.
fn build_constant(name: QualifiedName, t: Type, vs: Vec<(BigNat, ConstantValue)>) -> (r: Result<Constant, ModelError>)
    ensures
        match constant_error(name@, constant_versions_view(vs@), 0) {
            Some(e) => r matches Err(re) && re@ == e,
            None => r matches Ok(c) && c.value_type == t && c.versions@ == vs@
                && c.imports@.len() == 0,
        },
{
    let ghost cv = constant_versions_view(vs@);
    let ghost all = vs@;
    let ghost n = name@;
    let mut builder = ConstantBuilder::new(name, t, Vec::new());
    let mut rest = vs;
    let mut k: usize = 0;
    let total = rest.len();
    while rest.len() > 0
        invariant
            all == vs@,
            n == name@,
            cv == constant_versions_view(all),
            all.len() == total,
            k + rest@.len() == total,
            rest@ == all.skip(k as int),
            builder.constant.versions@ == all.take(k as int),
            builder.name@ == n,
            builder.constant.value_type == t,
            builder.constant.imports@.len() == 0,
            constant_error(n, cv, 0) == constant_error(n, cv, k as nat),
        decreases rest@.len(),
    {
        let (ver, value) = rest.remove(0);
        assert(ver == all[k as int].0 && value == all[k as int].1);
        assert(cv[k as int] == (ver@, value_view(value)));
        match value_duplicate(&value) {
            Some(f) => return Err(ModelError::DuplicateFieldValue(f)),
            None => {},
        }
        let ghost before = builder.constant.versions@;
        assert(has_exact_version(before, ver@) <==> exists|j: int| 0 <= j < k && cv[j].0 == cv[k as int].0) by {
            if has_exact_version(before, ver@) {
                let j = choose|j: int| 0 <= j < before.len() && before[j].0@ == ver@;
                assert(cv[j].0 == before[j].0@);
            }
            if exists|j: int| 0 <= j < k && cv[j].0 == cv[k as int].0 {
                let j = choose|j: int| 0 <= j < k && cv[j].0 == cv[k as int].0;
                assert(before[j] == all[j]);
            }
        }
        match builder.add_version(ver, value) {
            Err(e) => return Err(e),
            Ok(()) => {},
        }
        proof {
            assert(all.take(k as int + 1) =~= all.take(k as int).push(all[k as int]));
            assert(rest@ =~= all.skip(k as int + 1));
        }
        k = k + 1;
    }
    assert(all.take(k as int) =~= all);
    Ok(builder.constant)
}

/// Builds a struct or enum from its versions.
fn build_versioned(latest: &BigNat, name: &QualifiedName, type_params: Vec<String>, is_final: bool, vs: Vec<(BigNat, Vec<(String, FieldInfo)>)>) -> (r: Result<VersionedTypeDefinitionData, ModelError>)
    ensures
        match versions_error(name@, type_versions_view(vs@), 0) {
            Some(e) => r matches Err(re) && re@ == e,
            None => r matches Ok(d) && data_versions_view(d.versions@) == type_versions_view(vs@)
                && d.is_final == is_final && d.type_params == type_params && d.latest_version@ == latest@
                && d.imports@.len() == 0,
        },
{
    let ghost tv = type_versions_view(vs@);
    let ghost all = vs@;
    let mut data = VersionedTypeDefinitionData {
        imports: Vec::new(),
        type_params,
        versions: Vec::new(),
        is_final,
        latest_version: latest.copy(),
    };
    assert(data_versions_view(data.versions@) =~= tv.take(0));
    let mut rest = vs;
    let mut k: usize = 0;
    let total = rest.len();
    while rest.len() > 0
        invariant
            all == vs@,
            tv == type_versions_view(all),
            all.len() == total,
            k + rest@.len() == total,
            rest@ == all.skip(k as int),
            data.versions@.len() == k,
            data_versions_view(data.versions@) == tv.take(k as int),
            data.is_final == is_final,
            data.type_params == type_params,
            data.latest_version@ == latest@,
            data.imports@.len() == 0,
            versions_error(name@, tv, 0) == versions_error(name@, tv, k as nat),
        decreases rest@.len(),
    {
        let (ver, fields) = rest.remove(0);
        assert(ver == all[k as int].0 && fields == all[k as int].1);
        assert(tv[k as int] == (ver@, fields_view(fields@)));
        let ghost before = data.versions@;
        assert(has_exact_version(before, ver@) <==> exists|j: int| 0 <= j < k && tv[j].0 == tv[k as int].0) by {
            if has_exact_version(before, ver@) {
                let j = choose|j: int| 0 <= j < before.len() && before[j].0@ == ver@;
                assert(data_versions_view(before)[j].0 == tv.take(k as int)[j].0);
            }
            if exists|j: int| 0 <= j < k && tv[j].0 == tv[k as int].0 {
                let j = choose|j: int| 0 <= j < k && tv[j].0 == tv[k as int].0;
                assert(data_versions_view(before)[j].0 == tv.take(k as int)[j].0);
            }
        }
        if crate::versions::contains_version(&data.versions, &ver) {
            return Err(ModelError::DuplicateVersion(name.copy(), ver));
        }
        proof {
            lemma_repeat_views(fields@, fields_view(fields@), 0);
        }
        match find_repeat(&fields) {
            Some(j) => return Err(ModelError::DuplicateField(name.copy(), ver, fields[j].0.clone())),
            None => {},
        }
        let ghost entry = (ver, TypeVersionDefinition { fields });
        data.versions.push((ver, TypeVersionDefinition { fields }));
        proof {
            assert(data_versions_view(data.versions@) =~= tv.take(k as int + 1));
            assert(rest@ =~= all.skip(k as int + 1));
        }
        k = k + 1;
    }
    assert(tv.take(k as int) =~= tv);
    Ok(data)
}

/// Builds an extern type from its literals.
fn build_extern(name: QualifiedName, type_params: Vec<String>, ls: Vec<ExternLiteralSpecifier>) -> (r: Result<ExternTypeDefinitionData, ModelError>)
    ensures
        match literals_error(name@, literals_view(ls@), 0) {
            Some(e) => r matches Err(re) && re@ == e,
            None => r matches Ok(d) && d.literals@ == ls@ && d.type_params == type_params && d.imports@.len() == 0,
        },
{
    let ghost lv = literals_view(ls@);
    let ghost all = ls@;
    let ghost n = name@;
    let mut builder = ExternTypeDefinitionBuilder::new(name, type_params, Vec::new());
    let mut rest = ls;
    let mut k: usize = 0;
    let total = rest.len();
    while rest.len() > 0
        invariant
            all == ls@,
            n == name@,
            lv == literals_view(all),
            all.len() == total,
            k + rest@.len() == total,
            rest@ == all.skip(k as int),
            builder.data.literals@ == all.take(k as int),
            builder.name@ == n,
            builder.data.type_params == type_params,
            builder.data.imports@.len() == 0,
            literals_error(n, lv, 0) == literals_error(n, lv, k as nat),
        decreases rest@.len(),
    {
        let literal = rest.remove(0);
        assert(literal == all[k as int]);
        assert(lv[k as int] == literal_view(literal));
        proof {
            if let ExternLiteralSpecifier::Record(fs) = &literal {
                lemma_repeat_views(fs@, fields_view(fs@), 0);
            }
        }
        let ghost lit = literal;
        match builder.add_literal(literal) {
            Err(e) => {
                proof {
                    if let ExternLiteralSpecifier::Record(fs) = lit {
                        lemma_first_repeat_bound(fs@, 0);
                        let j = first_repeat(fs@, 0).unwrap();
                        assert(fields_view(fs@)[j as int].0 == fs@[j as int].0@);
                        assert(literals_error(n, lv, k as nat) == Some(e@));
                    }
                }
                return Err(e);
            },
            Ok(()) => {},
        }
        proof {
            assert(all.take(k as int + 1) =~= all.take(k as int).push(all[k as int]));
            assert(rest@ =~= all.skip(k as int + 1));
        }
        k = k + 1;
    }
    assert(all.take(k as int) =~= all);
    Ok(builder.data)
}

/// The views of the constants of a model.
pub open spec fn constant_entries_view(es: Seq<(QualifiedName, Constant)>) -> Seq<(NameView, TypeV, Seq<(nat, ValueV)>)> {
    es.map_values(|e: (QualifiedName, Constant)| constant_entry_view(e))
}

/// The views of the types of a model.
pub open spec fn type_entries_view(es: Seq<(QualifiedName, TypeDefinition)>) -> Seq<TypeEntryV> {
    es.map_values(|e: (QualifiedName, TypeDefinition)| type_entry_view(e))
}

/// Builds the model that a parsed file defines: its definitions are added in
/// order, and the first error found, inside a definition or in its name,
/// stops the building.
pub fn build_model(file: ModelFile) -> (r: Result<Verilization, ModelError>)
    ensures
        match build_error(file_view(file)) {
            Some(e) => r matches Err(re) && re@ == e,
            None => r matches Ok(m) && m.wf() && built_from(m, file_view(file)),
        },
{
    let ghost fv = file_view(file);
    let ghost all = file.definitions@;
    let ghost dv = fv.definitions;
    let ghost pkg = fv.package;
    let ModelFile { latest_version, package, definitions } = file;
    let mut model = Verilization::new(VerilizationMetadata { latest_version: latest_version.copy() });
    assert(taken_before(pkg, dv, 0) =~= model.taken_names());
    assert(dv.take(0) =~= Seq::<DefinitionV>::empty());
    assert(constant_entries_view(model.constant_entries()) =~= constants_of(pkg, dv.take(0)));
    assert(type_entries_view(model.type_entries()) =~= types_of(pkg, dv.take(0)));
    let mut rest = definitions;
    let mut k: usize = 0;
    let total = rest.len();
    while rest.len() > 0
        invariant
            fv == file_view(file),
            all == file.definitions@,
            dv == fv.definitions,
            pkg == fv.package,
            dv == definitions_view(all),
            all.len() == total,
            k + rest@.len() == total,
            rest@ == all.skip(k as int),
            package@ == pkg,
            latest_version@ == fv.latest_version,
            model.wf(),
            model.latest() == fv.latest_version,
            model.taken_names() == taken_before(pkg, dv, k as int),
            constant_entries_view(model.constant_entries()) == constants_of(pkg, dv.take(k as int)),
            type_entries_view(model.type_entries()) == types_of(pkg, dv.take(k as int)),
            forall|i: int| 0 <= i < model.constant_entries().len() ==> (#[trigger] model.constant_entries()[i]).1.imports@.len() == 0,
            forall|i: int| 0 <= i < model.type_entries().len() ==> type_entry_settled(#[trigger] model.type_entries()[i], fv.latest_version),
            build_error_from(pkg, dv, 0) == build_error_from(pkg, dv, k as nat),
        decreases rest@.len(),
    {
        let d = rest.remove(0);
        assert(d == all[k as int]);
        assert(dv[k as int] == definition_view(d));
        let ghost old_model = model;
        proof {
            assert(dv.take(k as int + 1).drop_last() =~= dv.take(k as int));
            assert(dv.take(k as int + 1).last() == dv[k as int]);
            assert(taken_before(pkg, dv, k as int + 1) =~= taken_before(pkg, dv, k as int).push(upper_name((pkg, def_name(dv[k as int])))));
        }
        match d {
            Definition::Constant(n, t, vs) => {
                let qn = QualifiedName { package: package.copy(), name: n };
                let c = match build_constant(qn.copy(), t, vs) {
                    Err(e) => return Err(e),
                    Ok(c) => c,
                };
                let ghost entry = (qn, c);
                match model.add_constant(qn, c) {
                    Err(n) => return Err(ModelError::DuplicateConstant(n)),
                    Ok(()) => {},
                }
                assert(constant_entries_view(model.constant_entries()) =~= constant_entries_view(old_model.constant_entries()).push(constant_entry_view(entry)));
            },
            Definition::Versioned(is_final, is_enum, n, ps, vs) => {
                let qn = QualifiedName { package: package.copy(), name: n };
                let data = match build_versioned(&latest_version, &qn, ps, is_final, vs) {
                    Err(e) => return Err(e),
                    Ok(data) => data,
                };
                let t = if is_enum {
                    TypeDefinition::EnumType(data)
                } else {
                    TypeDefinition::StructType(data)
                };
                let ghost entry = (qn, t);
                match model.add_type(qn, t) {
                    Err(n) => return Err(ModelError::DuplicateType(n)),
                    Ok(()) => {},
                }
                assert(type_entries_view(model.type_entries()) =~= type_entries_view(old_model.type_entries()).push(type_entry_view(entry)));
            },
            Definition::Extern(n, ps, ls) => {
                let qn = QualifiedName { package: package.copy(), name: n };
                let data = match build_extern(qn.copy(), ps, ls) {
                    Err(e) => return Err(e),
                    Ok(data) => data,
                };
                let ghost entry = (qn, TypeDefinition::ExternType(data));
                match model.add_type(qn, TypeDefinition::ExternType(data)) {
                    Err(n) => return Err(ModelError::DuplicateType(n)),
                    Ok(()) => {},
                }
                assert(type_entries_view(model.type_entries()) =~= type_entries_view(old_model.type_entries()).push(type_entry_view(entry)));
            },
        }
        proof {
            assert(rest@ =~= all.skip(k as int + 1));
        }
        k = k + 1;
    }
    assert(dv.take(k as int) =~= dv);
    Ok(model)
}

/// Why a model file could not be read.
#[derive(Debug)]
pub enum ParseError {
    Syntax,
    Model(ModelError),
}

/// Reads a model file and builds its model. Fails with `Syntax` when the text
/// is not a model file, and otherwise with the first error in building it.
pub fn parse_model(input: &str) -> (r: Result<Verilization, ParseError>)
    ensures
        match model_file_syntax(input@) {
            None => r matches Err(ParseError::Syntax),
            Some(f) => match build_error(f) {
                Some(e) => r matches Err(ParseError::Model(me)) && me@ == e,
                None => r matches Ok(m) && m.wf() && built_from(m, f),
            },
        },
{
    match parse_file(input) {
        None => Err(ParseError::Syntax),
        Some(file) => match build_model(file) {
            Err(e) => Err(ParseError::Model(e)),
            Ok(m) => Ok(m),
        },
    }
}

} // verus!
