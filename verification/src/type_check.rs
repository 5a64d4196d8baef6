//! The type checker: every type used exists at the versions it is used in,
//! with the right number of arguments; final types only hold final types;
//! extern types list each kind of literal once; and every constant's value
//! has its type.
use vstd::prelude::*;
use crate::bignum::{BigNat, BigInt};
use crate::names::QualifiedName;
use crate::model::{contains_field_named, Verilization, Type, FieldInfo, ConstantValue, ScopeLookup, ScopeLookupView, NameView, TypeDefinition, NamedTypeDefinition, ExternLiteralSpecifier, ExternLiteralIntBound, VersionedTypeDefinitionData, ExternTypeDefinitionData, Constant, Named, has_field_named, first_key_index};
use crate::scope::{Scope, is_first_named, first_named_index, find_named, lemma_first_named};
use crate::versions::{last_version, has_version_at, version_index, is_last_version, find_version_at, find_last_version, lemma_version_index, lemma_last_version};

verus! {

/// Why a model does not type check.
#[derive(Debug)]
pub enum TypeCheckError {
    TypeNotDefined(QualifiedName),
    ConstantNotDefined(QualifiedName),
    TypeNotInVersion(QualifiedName, BigNat),
    ConstantNotInVersion(QualifiedName, BigNat),
    ConstantHasIncorrectType(QualifiedName, BigNat),
    CouldNotFindLastVersion(QualifiedName),
    ArityMismatch(usize, usize),
    TypeNotFinal(QualifiedName),
    DuplicateLiteral(QualifiedName),
}

/// The view of a type checking error.
pub enum TypeCheckErrorView {
    TypeNotDefined(NameView),
    ConstantNotDefined(NameView),
    TypeNotInVersion(NameView, nat),
    ConstantNotInVersion(NameView, nat),
    ConstantHasIncorrectType(NameView, nat),
    CouldNotFindLastVersion(NameView),
    ArityMismatch(nat, nat),
    TypeNotFinal(NameView),
    DuplicateLiteral(NameView),
}

impl View for TypeCheckError {
    type V = TypeCheckErrorView;

    open spec fn view(&self) -> TypeCheckErrorView {
        match self {
            TypeCheckError::TypeNotDefined(n) => TypeCheckErrorView::TypeNotDefined(n@),
            TypeCheckError::ConstantNotDefined(n) => TypeCheckErrorView::ConstantNotDefined(n@),
            TypeCheckError::TypeNotInVersion(n, v) => TypeCheckErrorView::TypeNotInVersion(n@, v@),
            TypeCheckError::ConstantNotInVersion(n, v) => TypeCheckErrorView::ConstantNotInVersion(n@, v@),
            TypeCheckError::ConstantHasIncorrectType(n, v) => TypeCheckErrorView::ConstantHasIncorrectType(n@, v@),
            TypeCheckError::CouldNotFindLastVersion(n) => TypeCheckErrorView::CouldNotFindLastVersion(n@),
            TypeCheckError::ArityMismatch(a, b) => TypeCheckErrorView::ArityMismatch(*a as nat, *b as nat),
            TypeCheckError::TypeNotFinal(n) => TypeCheckErrorView::TypeNotFinal(n@),
            TypeCheckError::DuplicateLiteral(n) => TypeCheckErrorView::DuplicateLiteral(n@),
        }
    }
}

/// The view of a result of a check.
pub open spec fn result_view<A>(r: Result<A, TypeCheckError>) -> Result<A, TypeCheckErrorView> {
    match r {
        Ok(a) => Ok(a),
        Err(e) => Err(e@),
    }
}

/// Whether type `t` is well formed at version `v`: its name is a type
/// parameter without arguments, or a type that exists at `v` and is given as
/// many arguments as it has parameters, each of them well formed.
pub open spec fn check_type_spec(scope: Scope, v: nat, t: Type) -> Result<(), TypeCheckErrorView>
    decreases t, 0nat,
{
    match scope.lookup_view(t.name@) {
        ScopeLookupView::NamedType(n) => match scope.model.type_def(n) {
            None => Err(TypeCheckErrorView::TypeNotDefined(n)),
            Some(d) => if !d.exists_at(v) {
                Err(TypeCheckErrorView::TypeNotInVersion(n, v))
            } else if d.params().len() != t.args@.len() {
                Err(TypeCheckErrorView::ArityMismatch(d.params().len(), t.args@.len()))
            } else {
                check_types_spec(scope, v, t.args@, 0)
            },
        },
        ScopeLookupView::TypeParameter(_) => if t.args@.len() != 0 {
            Err(TypeCheckErrorView::ArityMismatch(0, t.args@.len()))
        } else {
            Ok(())
        },
    }
}

/// Checks `args[i..]` in order; the first error wins.
pub open spec fn check_types_spec(scope: Scope, v: nat, args: Seq<Type>, i: nat) -> Result<(), TypeCheckErrorView>
    decreases args, args.len() - i,
{
    if i >= args.len() {
        Ok(())
    } else {
        match check_type_spec(scope, v, args[i as int]) {
            Err(e) => Err(e),
            Ok(()) => check_types_spec(scope, v, args, i + 1),
        }
    }
}

/// Whether type `t` is final at version `v`: a type parameter is; a named
/// struct or enum is when it is final and defined for the last time at or
/// before `v`, and its arguments are final; an extern type is when its
/// arguments are.
pub open spec fn check_is_final_spec(scope: Scope, v: nat, t: Type) -> Result<bool, TypeCheckErrorView>
    decreases t, 1nat,
{
    match scope.lookup_view(t.name@) {
        ScopeLookupView::NamedType(n) => match scope.model.type_def(n) {
            None => Err(TypeCheckErrorView::TypeNotDefined(n)),
            Some(TypeDefinition::StructType(d)) => final_versioned_spec(scope, v, t, n, d),
            Some(TypeDefinition::EnumType(d)) => final_versioned_spec(scope, v, t, n, d),
            Some(TypeDefinition::ExternType(_)) => args_final_spec(scope, v, t.args@, 0),
        },
        ScopeLookupView::TypeParameter(_) => Ok(true),
    }
}

/// The finality check of a struct or enum `n` used as `t`.
pub open spec fn final_versioned_spec(scope: Scope, v: nat, t: Type, n: NameView, d: VersionedTypeDefinitionData) -> Result<bool, TypeCheckErrorView>
    decreases t, 0nat,
{
    if !d.is_final {
        Ok(false)
    } else if d.versions@.len() == 0 {
        Err(TypeCheckErrorView::CouldNotFindLastVersion(n))
    } else if !(last_version(d.versions@) <= v) {
        Ok(false)
    } else {
        args_final_spec(scope, v, t.args@, 0)
    }
}

/// Checks that `args[i..]` are final, in order.
pub open spec fn args_final_spec(scope: Scope, v: nat, args: Seq<Type>, i: nat) -> Result<bool, TypeCheckErrorView>
    decreases args, args.len() - i,
{
    if i >= args.len() {
        Ok(true)
    } else {
        match check_is_final_spec(scope, v, args[i as int]) {
            Err(e) => Err(e),
            Ok(false) => Ok(false),
            Ok(true) => args_final_spec(scope, v, args, i + 1),
        }
    }
}

/// Whether two types, each in its scope, name the same thing with the same
/// arguments.
pub open spec fn same_types_spec(a: Type, a_scope: Scope, b: Type, b_scope: Scope) -> bool
    decreases a, 0nat,
{
    &&& a.args@.len() == b.args@.len()
    &&& a_scope.lookup_view(a.name@) == b_scope.lookup_view(b.name@)
    &&& same_args_spec(a.args@, a_scope, b.args@, b_scope, 0)
}

/// Whether `a[i..]` and `b[i..]` are the same types pairwise.
pub open spec fn same_args_spec(a: Seq<Type>, a_scope: Scope, b: Seq<Type>, b_scope: Scope, i: nat) -> bool
    decreases a, a.len() - i,
{
    if i >= a.len() || i >= b.len() {
        true
    } else {
        same_types_spec(a[i as int], a_scope, b[i as int], b_scope) && same_args_spec(a, a_scope, b, b_scope, i + 1)
    }
}

/// Whether an integer literal specifier admits `x`.
pub open spec fn int_literal_admits(lit: ExternLiteralSpecifier, x: int) -> bool {
    match lit {
        ExternLiteralSpecifier::Integer(lb, lv, ub, uv) => {
            &&& match lv {
                None => true,
                Some(l) => if lb == ExternLiteralIntBound::Inclusive { x >= l@ } else { x > l@ },
            }
            &&& match uv {
                None => true,
                Some(u) => if ub == ExternLiteralIntBound::Inclusive { x <= u@ } else { x < u@ },
            }
        },
        _ => false,
    }
}

/// The index of the last entry named `n`, or -1 when there is none.
pub open spec fn last_named<A>(fields: Seq<(String, A)>, n: Seq<char>) -> int
    decreases fields.len(),
{
    if fields.len() == 0 {
        -1
    } else if fields.last().0@ == n {
        fields.len() - 1
    } else {
        last_named(fields.drop_last(), n)
    }
}

/// What `last_named` finds.
pub proof fn lemma_last_named<A>(fields: Seq<(String, A)>, n: Seq<char>)
    ensures
        -1 <= last_named(fields, n) < fields.len(),
        last_named(fields, n) >= 0 <==> has_field_named(fields, n),
        last_named(fields, n) >= 0 ==> fields[last_named(fields, n)].0@ == n
            && forall|l: int| last_named(fields, n) < l < fields.len() ==> fields[l].0@ != n,
    decreases fields.len(),
{
    if fields.len() > 0 && fields.last().0@ != n {
        lemma_last_named(fields.drop_last(), n);
        if has_field_named(fields, n) {
            let i = choose|i: int| 0 <= i < fields.len() && fields[i].0@ == n;
            assert(fields.drop_last()[i].0@ == n);
        }
        if has_field_named(fields.drop_last(), n) {
            let i = choose|i: int| 0 <= i < fields.len() - 1 && fields.drop_last()[i].0@ == n;
            assert(fields[i].0@ == n);
        }
        let j = last_named(fields, n);
        assert forall|l: int| j < l < fields.len() implies fields[l].0@ != n by {
            if l < fields.len() - 1 {
                assert(fields.drop_last()[l] == fields[l]);
            }
        }
    } else if fields.len() > 0 {
        assert(fields[fields.len() - 1].0@ == n);
    }
}

/// The scope of the constant named `n` in the model of `scope`.
pub open spec fn constant_scope<'a>(scope: Scope<'a>, n: NameView) -> Scope<'a> {
    let entry = scope.model.constant_entries()[first_key_index(scope.model.constant_entries(), n)];
    Scope {
        model: scope.model,
        current_pkg: Some(&entry.0.package),
        imports: Some(&entry.1.imports),
        type_params: None,
    }
}

/// Whether constant value `value` has type `t` at version `v`.
pub open spec fn check_value_spec(scope: Scope, v: nat, t: Type, value: ConstantValue) -> Result<bool, TypeCheckErrorView>
    decreases value, 0nat, 0nat,
{
    match scope.lookup_view(t.name@) {
        ScopeLookupView::TypeParameter(_) => Ok(false),
        ScopeLookupView::NamedType(n) => match scope.model.type_def(n) {
            None => Err(TypeCheckErrorView::TypeNotDefined(n)),
            Some(d) => match value {
                ConstantValue::Integer(x) => match d {
                    TypeDefinition::ExternType(e) => Ok(exists|i: int| 0 <= i < e.literals@.len() && int_literal_admits(e.literals@[i], x@)),
                    _ => Ok(false),
                },
                ConstantValue::String(_) => match d {
                    TypeDefinition::ExternType(e) => Ok(exists|i: int| 0 <= i < e.literals@.len() && e.literals@[i] is String),
                    _ => Ok(false),
                },
                ConstantValue::Sequence(s) => match d {
                    TypeDefinition::ExternType(e) => sequence_literals_spec(scope, v, s@, e.literals@, 0),
                    _ => Ok(false),
                },
                ConstantValue::Case(name, args) => match d {
                    TypeDefinition::ExternType(e) => case_literals_spec(scope, v, name@, args@, e.literals@, 0),
                    TypeDefinition::EnumType(et) => if args@.len() == 1 {
                        match et.version_in_effect(v) {
                            None => Err(TypeCheckErrorView::TypeNotInVersion(n, v)),
                            Some((_, i)) => {
                                let fields = et.versions@[i].1.fields@;
                                if exists|k: int| is_first_named(fields, k, name@) {
                                    check_value_spec(scope, v, fields[first_named_index(fields, name@)].1.field_type, args@[0])
                                } else {
                                    Ok(false)
                                }
                            },
                        }
                    } else {
                        Ok(false)
                    },
                    _ => Ok(false),
                },
                ConstantValue::Record(fs) => match d {
                    TypeDefinition::ExternType(e) => record_literals_spec(scope, v, fs@, e.literals@, 0),
                    TypeDefinition::StructType(st) => match st.version_in_effect(v) {
                        None => Err(TypeCheckErrorView::TypeNotInVersion(n, v)),
                        Some((_, i)) => check_record_spec(scope, v, fs@, st.versions@[i].1.fields@, 0),
                    },
                    _ => Ok(false),
                },
                ConstantValue::Constant(cn) => {
                    let cname = scope.lookup_constant_view(cn@);
                    match scope.model.constant_def(cname) {
                        None => Err(TypeCheckErrorView::ConstantNotDefined(cname)),
                        Some(c) => if c.value_in_effect(scope.model.latest(), v) is None {
                            Err(TypeCheckErrorView::ConstantNotInVersion(cname, v))
                        } else {
                            Ok(same_types_spec(t, scope, c.value_type, constant_scope(scope, cname)))
                        },
                    }
                },
            },
        },
    }
}

/// Tries the literals `lits[i..]` of an extern type, in order, on a sequence
/// value: a sequence literal whose element type every element has admits it.
pub open spec fn sequence_literals_spec(scope: Scope, v: nat, s: Seq<ConstantValue>, lits: Seq<ExternLiteralSpecifier>, i: nat) -> Result<bool, TypeCheckErrorView>
    decreases s, 1nat, lits.len() - i,
{
    if i >= lits.len() {
        Ok(false)
    } else {
        match lits[i as int] {
            ExternLiteralSpecifier::Sequence(et) => match elements_spec(scope, v, et, s, 0) {
                Err(e) => Err(e),
                Ok(true) => Ok(true),
                Ok(false) => sequence_literals_spec(scope, v, s, lits, i + 1),
            },
            _ => sequence_literals_spec(scope, v, s, lits, i + 1),
        }
    }
}

/// Whether every element of `s[j..]` has type `et`, checked in order.
pub open spec fn elements_spec(scope: Scope, v: nat, et: Type, s: Seq<ConstantValue>, j: nat) -> Result<bool, TypeCheckErrorView>
    decreases s, 0nat, s.len() - j,
{
    if j >= s.len() {
        Ok(true)
    } else {
        match check_value_spec(scope, v, et, s[j as int]) {
            Err(e) => Err(e),
            Ok(false) => Ok(false),
            Ok(true) => elements_spec(scope, v, et, s, j + 1),
        }
    }
}

/// Tries the literals `lits[i..]` of an extern type, in order, on a case
/// value: a case literal of that name and arity whose parameter types the
/// arguments have admits it.
pub open spec fn case_literals_spec(scope: Scope, v: nat, name: Seq<char>, args: Seq<ConstantValue>, lits: Seq<ExternLiteralSpecifier>, i: nat) -> Result<bool, TypeCheckErrorView>
    decreases args, 1nat, lits.len() - i,
{
    if i >= lits.len() {
        Ok(false)
    } else {
        match lits[i as int] {
            ExternLiteralSpecifier::Case(name2, params) => if name2@ == name && params@.len() == args.len() {
                match arguments_spec(scope, v, args, params@, 0) {
                    Err(e) => Err(e),
                    Ok(true) => Ok(true),
                    Ok(false) => case_literals_spec(scope, v, name, args, lits, i + 1),
                }
            } else {
                case_literals_spec(scope, v, name, args, lits, i + 1)
            },
            _ => case_literals_spec(scope, v, name, args, lits, i + 1),
        }
    }
}

/// Whether each of `args[j..]` has the parameter type at its position,
/// checked in order.
pub open spec fn arguments_spec(scope: Scope, v: nat, args: Seq<ConstantValue>, params: Seq<Type>, j: nat) -> Result<bool, TypeCheckErrorView>
    decreases args, 0nat, args.len() - j,
{
    if j >= args.len() || j >= params.len() {
        Ok(true)
    } else {
        match check_value_spec(scope, v, params[j as int], args[j as int]) {
            Err(e) => Err(e),
            Ok(false) => Ok(false),
            Ok(true) => arguments_spec(scope, v, args, params, j + 1),
        }
    }
}

/// Tries the literals `lits[i..]` of an extern type, in order, on a record
/// value: a record literal whose fields the record matches admits it.
pub open spec fn record_literals_spec(scope: Scope, v: nat, fs: Seq<(String, ConstantValue)>, lits: Seq<ExternLiteralSpecifier>, i: nat) -> Result<bool, TypeCheckErrorView>
    decreases fs, 1nat, lits.len() - i,
{
    if i >= lits.len() {
        Ok(false)
    } else {
        match lits[i as int] {
            ExternLiteralSpecifier::Record(def) => match check_record_spec(scope, v, fs, def@, 0) {
                Err(e) => Err(e),
                Ok(true) => Ok(true),
                Ok(false) => record_literals_spec(scope, v, fs, lits, i + 1),
            },
            _ => record_literals_spec(scope, v, fs, lits, i + 1),
        }
    }
}

/// Whether the record value `fs` matches the fields `def[k..]`: each of
/// them, in order, takes the value given last under its name, which must
/// exist and have the field's type, and no field name comes twice; at the
/// end every value must belong to a field.
pub open spec fn check_record_spec(scope: Scope, v: nat, fs: Seq<(String, ConstantValue)>, def: Seq<(String, FieldInfo)>, k: nat) -> Result<bool, TypeCheckErrorView>
    decreases fs, 0nat, def.len() - k,
{
    if k >= def.len() {
        Ok(forall|j: int| 0 <= j < fs.len() ==> has_field_named(def, #[trigger] fs[j].0@))
    } else {
        let name = def[k as int].0@;
        let j = last_named(fs, name);
        if has_field_named(def.take(k as int), name) || j < 0 || j >= fs.len() {
            Ok(false)
        } else {
            match check_value_spec(scope, v, def[k as int].1.field_type, fs[j].1) {
                Err(e) => Err(e),
                Ok(false) => Ok(false),
                Ok(true) => check_record_spec(scope, v, fs, def, k + 1),
            }
        }
    }
}

/// Checks the types of `fields[i..]` at version `v`, in order.
pub open spec fn fields_spec(scope: Scope, v: nat, fields: Seq<(String, FieldInfo)>, i: nat) -> Result<(), TypeCheckErrorView>
    decreases fields.len() - i,
{
    if i >= fields.len() {
        Ok(())
    } else {
        match check_type_spec(scope, v, fields[i as int].1.field_type) {
            Err(e) => Err(e),
            Ok(()) => fields_spec(scope, v, fields, i + 1),
        }
    }
}

/// Checks, in order, that the types of `fields[i..]` are final at version `v`.
pub open spec fn final_fields_spec(scope: Scope, v: nat, fields: Seq<(String, FieldInfo)>, i: nat) -> Result<bool, TypeCheckErrorView>
    decreases fields.len() - i,
{
    if i >= fields.len() {
        Ok(true)
    } else {
        match check_is_final_spec(scope, v, fields[i as int].1.field_type) {
            Err(e) => Err(e),
            Ok(false) => Ok(false),
            Ok(true) => final_fields_spec(scope, v, fields, i + 1),
        }
    }
}

/// Checks the field types of a struct or enum at versions `v` to `max`:
/// at each version where it has a definition, that of the definition in
/// effect.
pub open spec fn versions_spec(scope: Scope, d: VersionedTypeDefinitionData, v: nat, max: nat) -> Result<(), TypeCheckErrorView>
    decreases max + 1 - v,
{
    if v > max {
        Ok(())
    } else if has_version_at(d.versions@, v) {
        match fields_spec(scope, v, d.versions@[version_index(d.versions@, v)].1.fields@, 0) {
            Err(e) => Err(e),
            Ok(()) => versions_spec(scope, d, v + 1, max),
        }
    } else {
        versions_spec(scope, d, v + 1, max)
    }
}

/// The scope inside the struct or enum named `n`.
pub open spec fn versioned_scope<'a>(model: &'a Verilization, n: &'a QualifiedName, d: &'a VersionedTypeDefinitionData) -> Scope<'a> {
    Scope { model, current_pkg: Some(&n.package), imports: Some(&d.imports), type_params: Some(&d.type_params) }
}

/// The scope inside the extern type named `n`.
pub open spec fn extern_scope<'a>(model: &'a Verilization, n: &'a QualifiedName, d: &'a ExternTypeDefinitionData) -> Scope<'a> {
    Scope { model, current_pkg: Some(&n.package), imports: Some(&d.imports), type_params: Some(&d.type_params) }
}

/// The scope inside the constant named `n`.
pub open spec fn constant_def_scope<'a>(model: &'a Verilization, n: &'a QualifiedName, c: &'a Constant) -> Scope<'a> {
    Scope { model, current_pkg: Some(&n.package), imports: Some(&c.imports), type_params: None }
}

/// Type checks a struct or enum: its field types at every version it runs
/// to, and for a final type, that the field types of its last definition
/// are final at that version.
pub open spec fn versioned_type_spec(model: &Verilization, n: &QualifiedName, d: &VersionedTypeDefinitionData) -> Result<(), TypeCheckErrorView> {
    let scope = versioned_scope(model, n, d);
    match versions_spec(scope, *d, 1, d.max_version()) {
        Err(e) => Err(e),
        Ok(()) => if d.is_final && d.versions@.len() > 0 {
            let l = choose|l: int| is_last_version(d.versions@, l);
            match final_fields_spec(scope, last_version(d.versions@), d.versions@[l].1.fields@, 0) {
                Err(e) => Err(e),
                Ok(false) => Err(TypeCheckErrorView::TypeNotFinal(n@)),
                Ok(true) => Ok(()),
            }
        } else {
            Ok(())
        },
    }
}

/// Two literals of an extern type of the same kind: both integer, both
/// string, both sequence, both record, or cases of the same name.
pub open spec fn same_literal_kind(a: ExternLiteralSpecifier, b: ExternLiteralSpecifier) -> bool {
    match (a, b) {
        (ExternLiteralSpecifier::Integer(..), ExternLiteralSpecifier::Integer(..)) => true,
        (ExternLiteralSpecifier::String, ExternLiteralSpecifier::String) => true,
        (ExternLiteralSpecifier::Sequence(_), ExternLiteralSpecifier::Sequence(_)) => true,
        (ExternLiteralSpecifier::Record(_), ExternLiteralSpecifier::Record(_)) => true,
        (ExternLiteralSpecifier::Case(x, _), ExternLiteralSpecifier::Case(y, _)) => x@ == y@,
        _ => false,
    }
}

/// Literal `i` repeats the kind of an earlier one.
pub open spec fn repeats_literal(lits: Seq<ExternLiteralSpecifier>, i: int) -> bool {
    exists|j: int| 0 <= j < i && same_literal_kind(lits[j], lits[i])
}

/// Checks the types named by the literal `lit`, at version 1.
pub open spec fn literal_types_spec(scope: Scope, lit: ExternLiteralSpecifier) -> Result<(), TypeCheckErrorView> {
    match lit {
        ExternLiteralSpecifier::Sequence(inner) => check_type_spec(scope, 1, inner),
        ExternLiteralSpecifier::Case(_, params) => check_types_spec(scope, 1, params@, 0),
        ExternLiteralSpecifier::Record(fields) => fields_spec(scope, 1, fields@, 0),
        _ => Ok(()),
    }
}

/// Checks the literals `lits[i..]` of the extern type `n`, in order: none
/// repeats an earlier kind, and the types they name exist at version 1.
pub open spec fn extern_literals_spec(scope: Scope, n: NameView, lits: Seq<ExternLiteralSpecifier>, i: nat) -> Result<(), TypeCheckErrorView>
    decreases lits.len() - i,
{
    if i >= lits.len() {
        Ok(())
    } else if repeats_literal(lits, i as int) {
        Err(TypeCheckErrorView::DuplicateLiteral(n))
    } else {
        match literal_types_spec(scope, lits[i as int]) {
            Err(e) => Err(e),
            Ok(()) => extern_literals_spec(scope, n, lits, i + 1),
        }
    }
}

/// Checks the value of a constant at versions `v` to `max`: at each version
/// where it has a value, the value in effect must have the constant's type.
pub open spec fn constant_versions_spec(scope: Scope, n: NameView, c: Constant, v: nat, max: nat) -> Result<(), TypeCheckErrorView>
    decreases max + 1 - v,
{
    if v > max {
        Ok(())
    } else if has_version_at(c.versions@, v) {
        match check_value_spec(scope, v, c.value_type, c.versions@[version_index(c.versions@, v)].1) {
            Err(e) => Err(e),
            Ok(false) => Err(TypeCheckErrorView::ConstantHasIncorrectType(n, v)),
            Ok(true) => constant_versions_spec(scope, n, c, v + 1, max),
        }
    } else {
        constant_versions_spec(scope, n, c, v + 1, max)
    }
}

/// Type checks the types `types[i..]` of the model, in order.
pub open spec fn model_types_spec(model: &Verilization, types: Seq<(QualifiedName, TypeDefinition)>, i: nat) -> Result<(), TypeCheckErrorView>
    decreases types.len() - i,
{
    if i >= types.len() {
        Ok(())
    } else {
        let r = match types[i as int].1 {
            TypeDefinition::StructType(d) => versioned_type_spec(model, &types[i as int].0, &d),
            TypeDefinition::EnumType(d) => versioned_type_spec(model, &types[i as int].0, &d),
            TypeDefinition::ExternType(d) => extern_literals_spec(extern_scope(model, &types[i as int].0, &d), types[i as int].0@, d.literals@, 0),
        };
        match r {
            Err(e) => Err(e),
            Ok(()) => model_types_spec(model, types, i + 1),
        }
    }
}

/// Type checks the constants `constants[i..]` of the model, in order.
pub open spec fn model_constants_spec(model: &Verilization, constants: Seq<(QualifiedName, Constant)>, i: nat) -> Result<(), TypeCheckErrorView>
    decreases constants.len() - i,
{
    if i >= constants.len() {
        Ok(())
    } else {
        let e = constants[i as int];
        match constant_versions_spec(constant_def_scope(model, &e.0, &e.1), e.0@, e.1, 1, model.latest()) {
            Err(err) => Err(err),
            Ok(()) => model_constants_spec(model, constants, i + 1),
        }
    }
}

/// Type checks a model: its types, then its constants, each in the order
/// they were added; the first error found is the result.
pub open spec fn type_check_spec(model: &Verilization) -> Result<(), TypeCheckErrorView> {
    match model_types_spec(model, model.type_entries(), 0) {
        Err(e) => Err(e),
        Ok(()) => model_constants_spec(model, model.constant_entries(), 0),
    }
}

/// Checks that type `t` is well formed at a version.
fn check_type(scope: &Scope, version: &BigNat, t: &Type) -> (r: Result<(), TypeCheckError>)
    ensures
        result_view(r) == check_type_spec(*scope, version@, *t),
    decreases t,
{
    match scope.lookup(t.name.copy()) {
        ScopeLookup::NamedType(name) => {
            let def = match scope.model.get_type(&name) {
                Some(d) => d,
                None => return Err(TypeCheckError::TypeNotDefined(name)),
            };
            if !def.has_version(version) {
                return Err(TypeCheckError::TypeNotInVersion(name, version.copy()));
            }
            let arity = def.arity();
            if arity != t.args.len() {
                return Err(TypeCheckError::ArityMismatch(arity, t.args.len()));
            }
            let mut i: usize = 0;
            while i < t.args.len()
                invariant
                    i <= t.args@.len(),
                    check_type_spec(*scope, version@, *t) == check_types_spec(*scope, version@, t.args@, 0),
                    check_types_spec(*scope, version@, t.args@, 0) == check_types_spec(*scope, version@, t.args@, i as nat),
                decreases t.args@.len() - i,
            {
                match check_type(scope, version, &t.args[i]) {
                    Err(e) => return Err(e),
                    Ok(()) => {},
                }
                i = i + 1;
            }
            Ok(())
        },
        ScopeLookup::TypeParameter(_) => {
            if t.args.len() != 0 {
                return Err(TypeCheckError::ArityMismatch(0, t.args.len()));
            }
            Ok(())
        },
    }
}

/// Checks whether type `t` is final at a version.
fn check_is_final(scope: &Scope, version: &BigNat, t: &Type) -> (r: Result<bool, TypeCheckError>)
    ensures
        result_view(r) == check_is_final_spec(*scope, version@, *t),
    decreases t,
{
    match scope.lookup(t.name.copy()) {
        ScopeLookup::NamedType(name) => {
            let def = match scope.model.get_type(&name) {
                Some(d) => d,
                None => return Err(TypeCheckError::TypeNotDefined(name)),
            };
            match def {
                NamedTypeDefinition::StructType(d) | NamedTypeDefinition::EnumType(d) => {
                    if !d.value.is_final {
                        return Ok(false);
                    }
                    match d.value.last_explicit_version() {
                        None => return Err(TypeCheckError::CouldNotFindLastVersion(name)),
                        Some(last) => {
                            if !last.le(version) {
                                return Ok(false);
                            }
                        },
                    }
                },
                NamedTypeDefinition::ExternType(_) => {},
            }
            let mut i: usize = 0;
            while i < t.args.len()
                invariant
                    i <= t.args@.len(),
                    check_is_final_spec(*scope, version@, *t) == args_final_spec(*scope, version@, t.args@, 0),
                    args_final_spec(*scope, version@, t.args@, 0) == args_final_spec(*scope, version@, t.args@, i as nat),
                decreases t.args@.len() - i,
            {
                match check_is_final(scope, version, &t.args[i]) {
                    Err(e) => return Err(e),
                    Ok(false) => return Ok(false),
                    Ok(true) => {},
                }
                i = i + 1;
            }
            Ok(true)
        },
        ScopeLookup::TypeParameter(_) => Ok(true),
    }
}

/// Whether two types, each in its scope, name the same thing with the same
/// arguments.
fn same_types(a: &Type, a_scope: &Scope, b: &Type, b_scope: &Scope) -> (r: bool)
    ensures
        r == same_types_spec(*a, *a_scope, *b, *b_scope),
    decreases a,
{
    if a.args.len() != b.args.len() {
        return false;
    }
    let a_res = a_scope.lookup(a.name.copy());
    let b_res = b_scope.lookup(b.name.copy());
    if !a_res.equals(&b_res) {
        return false;
    }
    let mut i: usize = 0;
    while i < a.args.len()
        invariant
            i <= a.args@.len(),
            a.args@.len() == b.args@.len(),
            same_args_spec(a.args@, *a_scope, b.args@, *b_scope, 0) == same_args_spec(a.args@, *a_scope, b.args@, *b_scope, i as nat),
        decreases a.args@.len() - i,
    {
        if !same_types(&a.args[i], a_scope, &b.args[i], b_scope) {
            return false;
        }
        i = i + 1;
    }
    true
}

/// Whether some integer literal of `lits` admits `x`.
fn any_integer_literal(lits: &Vec<ExternLiteralSpecifier>, x: &BigInt) -> (r: bool)
    ensures
        r == exists|i: int| 0 <= i < lits@.len() && int_literal_admits(lits@[i], x@),
{
    let mut i: usize = 0;
    while i < lits.len()
        invariant
            i <= lits@.len(),
            forall|j: int| 0 <= j < i ==> !int_literal_admits(lits@[j], x@),
        decreases lits@.len() - i,
    {
        if let ExternLiteralSpecifier::Integer(lb, lv, ub, uv) = &lits[i] {
            let lower_ok = match lv {
                None => true,
                Some(l) => match lb {
                    ExternLiteralIntBound::Inclusive => l.le(x),
                    ExternLiteralIntBound::Exclusive => l.lt(x),
                },
            };
            let upper_ok = match uv {
                None => true,
                Some(u) => match ub {
                    ExternLiteralIntBound::Inclusive => x.le(u),
                    ExternLiteralIntBound::Exclusive => x.lt(u),
                },
            };
            if lower_ok && upper_ok {
                assert(int_literal_admits(lits@[i as int], x@));
                return true;
            }
        }
        i = i + 1;
    }
    false
}

/// Whether `lits` has a string literal.
fn any_string_literal(lits: &Vec<ExternLiteralSpecifier>) -> (r: bool)
    ensures
        r == exists|i: int| 0 <= i < lits@.len() && lits@[i] is String,
{
    let mut i: usize = 0;
    while i < lits.len()
        invariant
            i <= lits@.len(),
            forall|j: int| 0 <= j < i ==> !(lits@[j] is String),
        decreases lits@.len() - i,
    {
        if let ExternLiteralSpecifier::String = &lits[i] {
            return true;
        }
        i = i + 1;
    }
    false
}

/// Whether `def[..k]` has a field named `n`.
fn prefix_has_field(def: &Vec<(String, FieldInfo)>, k: usize, n: &String) -> (r: bool)
    requires
        k <= def@.len(),
    ensures
        r == has_field_named(def@.take(k as int), n@),
{
    let mut i: usize = 0;
    while i < k
        invariant
            k <= def@.len(),
            i <= k,
            forall|j: int| 0 <= j < i ==> def@[j].0@ != n@,
        decreases k - i,
    {
        if def[i].0 == *n {
            assert(def@.take(k as int)[i as int].0@ == n@);
            return true;
        }
        i = i + 1;
    }
    assert(!has_field_named(def@.take(k as int), n@)) by {
        if has_field_named(def@.take(k as int), n@) {
            let j = choose|j: int| 0 <= j < k && def@.take(k as int)[j].0@ == n@;
            assert(def@[j].0@ == n@);
        }
    }
    false
}

/// Finds the last entry named `n`.
pub(crate) fn find_last_named<A>(fs: &Vec<(String, A)>, n: &String) -> (r: Option<usize>)
    ensures
        r is None <==> last_named(fs@, n@) < 0,
        r matches Some(j) ==> j == last_named(fs@, n@),
{
    let mut i: usize = fs.len();
    assert(fs@.take(i as int) =~= fs@);
    while i > 0
        invariant
            i <= fs@.len(),
            last_named(fs@, n@) == last_named(fs@.take(i as int), n@),
        decreases i,
    {
        assert(fs@.take(i as int).last() == fs@[i - 1]);
        if fs[i - 1].0 == *n {
            return Some(i - 1);
        }
        assert(fs@.take(i as int).drop_last() =~= fs@.take(i - 1));
        i = i - 1;
    }
    None
}

/// Checks that constant value `value` has type `t` at a version.
fn check_value_type(scope: &Scope, version: &BigNat, t: &Type, value: &ConstantValue) -> (r: Result<bool, TypeCheckError>)
    ensures
        result_view(r) == check_value_spec(*scope, version@, *t, *value),
    decreases value, 0nat, 0nat,
{
    let (named_type, def) = match scope.lookup(t.name.copy()) {
        ScopeLookup::NamedType(name) => match scope.model.get_type(&name) {
            Some(d) => (name, d),
            None => return Err(TypeCheckError::TypeNotDefined(name)),
        },
        ScopeLookup::TypeParameter(_) => return Ok(false),
    };
    match value {
        ConstantValue::Integer(x) => match def {
            NamedTypeDefinition::ExternType(e) => Ok(any_integer_literal(&e.value.literals, x)),
            _ => Ok(false),
        },
        ConstantValue::String(_) => match def {
            NamedTypeDefinition::ExternType(e) => Ok(any_string_literal(&e.value.literals)),
            _ => Ok(false),
        },
        ConstantValue::Sequence(s) => match def {
            NamedTypeDefinition::ExternType(e) => sequence_literals(scope, version, s, &e.value.literals),
            _ => Ok(false),
        },
        ConstantValue::Case(name, args) => match def {
            NamedTypeDefinition::ExternType(e) => case_literals(scope, version, name, args, &e.value.literals),
            NamedTypeDefinition::EnumType(et) => {
                if args.len() != 1 {
                    return Ok(false);
                }
                match et.value.versioned(version) {
                    None => Err(TypeCheckError::TypeNotInVersion(named_type, version.copy())),
                    Some(tv) => match find_named(&tv.ver_type.fields, name) {
                        Some(k) => {
                            proof {
                                lemma_first_named(tv.ver_type.fields@, k as int, name@);
                            }
                            check_value_type(scope, version, &tv.ver_type.fields[k].1.field_type, &args[0])
                        },
                        None => Ok(false),
                    },
                }
            },
            _ => Ok(false),
        },
        ConstantValue::Record(fs) => match def {
            NamedTypeDefinition::ExternType(e) => record_literals(scope, version, fs, &e.value.literals),
            NamedTypeDefinition::StructType(st) => match st.value.versioned(version) {
                None => Err(TypeCheckError::TypeNotInVersion(named_type, version.copy())),
                Some(tv) => check_record(scope, version, fs, &tv.ver_type.fields),
            },
            _ => Ok(false),
        },
        ConstantValue::Constant(cn) => {
            let cname = scope.lookup_constant(cn.copy());
            let c = match scope.model.get_constant(&cname) {
                Some(c) => c,
                None => return Err(TypeCheckError::ConstantNotDefined(cname)),
            };
            if !c.has_version(version) {
                return Err(TypeCheckError::ConstantNotInVersion(cname, version.copy()));
            }
            let c_scope = Scope::of_constant(&c);
            Ok(same_types(t, scope, &c.value.value_type, &c_scope))
        },
    }
}

/// Tries the literals of an extern type, in order, on a sequence value.
fn sequence_literals(scope: &Scope, version: &BigNat, s: &Vec<ConstantValue>, lits: &Vec<ExternLiteralSpecifier>) -> (r: Result<bool, TypeCheckError>)
    ensures
        result_view(r) == sequence_literals_spec(*scope, version@, s@, lits@, 0),
    decreases s@, 1nat, 0nat,
{
    let mut i: usize = 0;
    while i < lits.len()
        invariant
            i <= lits@.len(),
            sequence_literals_spec(*scope, version@, s@, lits@, 0) == sequence_literals_spec(*scope, version@, s@, lits@, i as nat),
        decreases lits@.len() - i,
    {
        if let ExternLiteralSpecifier::Sequence(et) = &lits[i] {
            match elements(scope, version, et, s) {
                Err(e) => return Err(e),
                Ok(true) => return Ok(true),
                Ok(false) => {},
            }
        }
        i = i + 1;
    }
    Ok(false)
}

/// Checks, in order, that every element of `s` has type `et`.
fn elements(scope: &Scope, version: &BigNat, et: &Type, s: &Vec<ConstantValue>) -> (r: Result<bool, TypeCheckError>)
    ensures
        result_view(r) == elements_spec(*scope, version@, *et, s@, 0),
    decreases s@, 0nat, 0nat,
{
    let mut j: usize = 0;
    while j < s.len()
        invariant
            j <= s@.len(),
            elements_spec(*scope, version@, *et, s@, 0) == elements_spec(*scope, version@, *et, s@, j as nat),
        decreases s@.len() - j,
    {
        match check_value_type(scope, version, et, &s[j]) {
            Err(e) => return Err(e),
            Ok(false) => return Ok(false),
            Ok(true) => {},
        }
        j = j + 1;
    }
    Ok(true)
}

/// Tries the literals of an extern type, in order, on a case value.
fn case_literals(scope: &Scope, version: &BigNat, name: &String, args: &Vec<ConstantValue>, lits: &Vec<ExternLiteralSpecifier>) -> (r: Result<bool, TypeCheckError>)
    ensures
        result_view(r) == case_literals_spec(*scope, version@, name@, args@, lits@, 0),
    decreases args@, 1nat, 0nat,
{
    let mut i: usize = 0;
    while i < lits.len()
        invariant
            i <= lits@.len(),
            case_literals_spec(*scope, version@, name@, args@, lits@, 0) == case_literals_spec(*scope, version@, name@, args@, lits@, i as nat),
        decreases lits@.len() - i,
    {
        if let ExternLiteralSpecifier::Case(name2, params) = &lits[i] {
            if *name2 == *name && params.len() == args.len() {
                match arguments(scope, version, args, params) {
                    Err(e) => return Err(e),
                    Ok(true) => return Ok(true),
                    Ok(false) => {},
                }
            }
        }
        i = i + 1;
    }
    Ok(false)
}

/// Checks, in order, that each argument has the parameter type at its position.
fn arguments(scope: &Scope, version: &BigNat, args: &Vec<ConstantValue>, params: &Vec<Type>) -> (r: Result<bool, TypeCheckError>)
    ensures
        result_view(r) == arguments_spec(*scope, version@, args@, params@, 0),
    decreases args@, 0nat, 0nat,
{
    let mut j: usize = 0;
    while j < args.len() && j < params.len()
        invariant
            j <= args@.len(),
            arguments_spec(*scope, version@, args@, params@, 0) == arguments_spec(*scope, version@, args@, params@, j as nat),
        decreases args@.len() - j,
    {
        match check_value_type(scope, version, &params[j], &args[j]) {
            Err(e) => return Err(e),
            Ok(false) => return Ok(false),
            Ok(true) => {},
        }
        j = j + 1;
    }
    Ok(true)
}

/// Tries the literals of an extern type, in order, on a record value.
fn record_literals(scope: &Scope, version: &BigNat, fs: &Vec<(String, ConstantValue)>, lits: &Vec<ExternLiteralSpecifier>) -> (r: Result<bool, TypeCheckError>)
    ensures
        result_view(r) == record_literals_spec(*scope, version@, fs@, lits@, 0),
    decreases fs@, 1nat, 0nat,
{
    let mut i: usize = 0;
    while i < lits.len()
        invariant
            i <= lits@.len(),
            record_literals_spec(*scope, version@, fs@, lits@, 0) == record_literals_spec(*scope, version@, fs@, lits@, i as nat),
        decreases lits@.len() - i,
    {
        if let ExternLiteralSpecifier::Record(def) = &lits[i] {
            match check_record(scope, version, fs, def) {
                Err(e) => return Err(e),
                Ok(true) => return Ok(true),
                Ok(false) => {},
            }
        }
        i = i + 1;
    }
    Ok(false)
}

/// Checks a record value against the fields of a record.
fn check_record(scope: &Scope, version: &BigNat, fs: &Vec<(String, ConstantValue)>, def: &Vec<(String, FieldInfo)>) -> (r: Result<bool, TypeCheckError>)
    ensures
        result_view(r) == check_record_spec(*scope, version@, fs@, def@, 0),
    decreases fs@, 0nat, 0nat,
{
    let mut k: usize = 0;
    while k < def.len()
        invariant
            k <= def@.len(),
            check_record_spec(*scope, version@, fs@, def@, 0) == check_record_spec(*scope, version@, fs@, def@, k as nat),
        decreases def@.len() - k,
    {
        let name = &def[k].0;
        proof {
            lemma_last_named(fs@, name@);
        }
        if prefix_has_field(def, k, name) {
            return Ok(false);
        }
        match find_last_named(fs, name) {
            None => return Ok(false),
            Some(j) => match check_value_type(scope, version, &def[k].1.field_type, &fs[j].1) {
                Err(e) => return Err(e),
                Ok(false) => return Ok(false),
                Ok(true) => {},
            },
        }
        k = k + 1;
    }
    let mut j: usize = 0;
    while j < fs.len()
        invariant
            j <= fs@.len(),
            k == def@.len(),
            check_record_spec(*scope, version@, fs@, def@, 0) == check_record_spec(*scope, version@, fs@, def@, k as nat),
            forall|l: int| 0 <= l < j ==> has_field_named(def@, #[trigger] fs@[l].0@),
        decreases fs@.len() - j,
    {
        if !contains_field_named(def, &fs[j].0) {
            return Ok(false);
        }
        j = j + 1;
    }
    Ok(true)
}

/// Checks the types of the fields at a version, in order.
fn check_fields(scope: &Scope, version: &BigNat, fields: &Vec<(String, FieldInfo)>) -> (r: Result<(), TypeCheckError>)
    ensures
        result_view(r) == fields_spec(*scope, version@, fields@, 0),
{
    let mut i: usize = 0;
    while i < fields.len()
        invariant
            i <= fields@.len(),
            fields_spec(*scope, version@, fields@, 0) == fields_spec(*scope, version@, fields@, i as nat),
        decreases fields@.len() - i,
    {
        match check_type(scope, version, &fields[i].1.field_type) {
            Err(e) => return Err(e),
            Ok(()) => {},
        }
        i = i + 1;
    }
    Ok(())
}

/// Checks, in order, that the field types are final at a version.
fn final_fields(scope: &Scope, version: &BigNat, fields: &Vec<(String, FieldInfo)>) -> (r: Result<bool, TypeCheckError>)
    ensures
        result_view(r) == final_fields_spec(*scope, version@, fields@, 0),
{
    let mut i: usize = 0;
    while i < fields.len()
        invariant
            i <= fields@.len(),
            final_fields_spec(*scope, version@, fields@, 0) == final_fields_spec(*scope, version@, fields@, i as nat),
        decreases fields@.len() - i,
    {
        match check_is_final(scope, version, &fields[i].1.field_type) {
            Err(e) => return Err(e),
            Ok(false) => return Ok(false),
            Ok(true) => {},
        }
        i = i + 1;
    }
    Ok(true)
}

/// Type checks a struct or enum.
fn type_check_versioned_type(t: &Named<VersionedTypeDefinitionData>) -> (r: Result<(), TypeCheckError>)
    ensures
        result_view(r) == versioned_type_spec(t.model, t.name, t.value),
{
    let scope = Scope::of_versioned_type(t);
    let ghost d = *t.value;
    let max = t.value.max_version_exec();
    let mut v = BigNat::one();
    while v.le(&max)
        invariant
            scope == versioned_scope(t.model, t.name, t.value),
            d == *t.value,
            max@ == d.max_version(),
            1 <= v@ <= max@ + 1,
            versions_spec(scope, d, 1, max@) == versions_spec(scope, d, v@, max@),
        decreases max@ + 1 - v@,
    {
        match find_version_at(&t.value.versions, &v) {
            Some(i) => {
                proof {
                    lemma_version_index(d.versions@, v@, i as int);
                }
                match check_fields(&scope, &v, &t.value.versions[i].1.fields) {
                    Err(e) => return Err(e),
                    Ok(()) => {},
                }
            },
            None => {},
        }
        v = v.add_one();
    }
    if t.value.is_final {
        match find_last_version(&t.value.versions) {
            Some(l) => {
                proof {
                    lemma_last_version(d.versions@, l as int);
                }
                match final_fields(&scope, &t.value.versions[l].0, &t.value.versions[l].1.fields) {
                    Err(e) => Err(e),
                    Ok(false) => Err(TypeCheckError::TypeNotFinal(t.name.copy())),
                    Ok(true) => Ok(()),
                }
            },
            None => Ok(()),
        }
    } else {
        Ok(())
    }
}

/// Whether two literals are of the same kind.
fn same_kind(a: &ExternLiteralSpecifier, b: &ExternLiteralSpecifier) -> (r: bool)
    ensures
        r == same_literal_kind(*a, *b),
{
    match (a, b) {
        (ExternLiteralSpecifier::Integer(..), ExternLiteralSpecifier::Integer(..)) => true,
        (ExternLiteralSpecifier::String, ExternLiteralSpecifier::String) => true,
        (ExternLiteralSpecifier::Sequence(_), ExternLiteralSpecifier::Sequence(_)) => true,
        (ExternLiteralSpecifier::Record(_), ExternLiteralSpecifier::Record(_)) => true,
        (ExternLiteralSpecifier::Case(x, _), ExternLiteralSpecifier::Case(y, _)) => *x == *y,
        _ => false,
    }
}

/// Whether literal `i` repeats the kind of an earlier one.
fn repeats_earlier(lits: &Vec<ExternLiteralSpecifier>, i: usize) -> (r: bool)
    requires
        i < lits@.len(),
    ensures
        r == repeats_literal(lits@, i as int),
{
    let mut j: usize = 0;
    while j < i
        invariant
            i < lits@.len(),
            j <= i,
            forall|k: int| 0 <= k < j ==> !same_literal_kind(lits@[k], lits@[i as int]),
        decreases i - j,
    {
        if same_kind(&lits[j], &lits[i]) {
            return true;
        }
        j = j + 1;
    }
    false
}

/// Type checks an extern type.
fn type_check_extern_type(t: &Named<ExternTypeDefinitionData>) -> (r: Result<(), TypeCheckError>)
    ensures
        result_view(r) == extern_literals_spec(extern_scope(t.model, t.name, t.value), t.name@, t.value.literals@, 0),
{
    let scope = Scope::of_extern_type(t);
    let one = BigNat::one();
    let lits = &t.value.literals;
    let mut i: usize = 0;
    while i < lits.len()
        invariant
            scope == extern_scope(t.model, t.name, t.value),
            one@ == 1,
            lits == &t.value.literals,
            i <= lits@.len(),
            extern_literals_spec(scope, t.name@, lits@, 0) == extern_literals_spec(scope, t.name@, lits@, i as nat),
        decreases lits@.len() - i,
    {
        if repeats_earlier(lits, i) {
            return Err(TypeCheckError::DuplicateLiteral(t.name.copy()));
        }
        match &lits[i] {
            ExternLiteralSpecifier::Sequence(inner) => {
                match check_type(&scope, &one, inner) {
                    Err(e) => return Err(e),
                    Ok(()) => {},
                }
            },
            ExternLiteralSpecifier::Case(_, params) => {
                let mut k: usize = 0;
                while k < params.len()
                    invariant
                        one@ == 1,
                        scope == extern_scope(t.model, t.name, t.value),
                        lits == &t.value.literals,
                        i < lits@.len(),
                        lits@[i as int] matches ExternLiteralSpecifier::Case(_, ps) && ps == *params,
                        !repeats_literal(lits@, i as int),
                        extern_literals_spec(scope, t.name@, lits@, 0) == extern_literals_spec(scope, t.name@, lits@, i as nat),
                        k <= params@.len(),
                        check_types_spec(scope, 1, params@, 0) == check_types_spec(scope, 1, params@, k as nat),
                    decreases params@.len() - k,
                {
                    match check_type(&scope, &one, &params[k]) {
                        Err(e) => return Err(e),
                        Ok(()) => {},
                    }
                    k = k + 1;
                }
            },
            ExternLiteralSpecifier::Record(fields) => {
                match check_fields(&scope, &one, fields) {
                    Err(e) => return Err(e),
                    Ok(()) => {},
                }
            },
            _ => {},
        }
        i = i + 1;
    }
    Ok(())
}

/// Type checks a constant.
fn type_check_constant(c: &Named<Constant>) -> (r: Result<(), TypeCheckError>)
    ensures
        result_view(r) == constant_versions_spec(constant_def_scope(c.model, c.name, c.value), c.name@, *c.value, 1, c.model.latest()),
{
    let scope = Scope::of_constant(c);
    let ghost cv = *c.value;
    let max = c.model.latest_version();
    let mut v = BigNat::one();
    while v.le(max)
        invariant
            scope == constant_def_scope(c.model, c.name, c.value),
            cv == *c.value,
            max@ == c.model.latest(),
            1 <= v@ <= max@ + 1,
            constant_versions_spec(scope, c.name@, cv, 1, max@) == constant_versions_spec(scope, c.name@, cv, v@, max@),
        decreases max@ + 1 - v@,
    {
        match find_version_at(&c.value.versions, &v) {
            Some(i) => {
                proof {
                    lemma_version_index(cv.versions@, v@, i as int);
                }
                match check_value_type(&scope, &v, &c.value.value_type, &c.value.versions[i].1) {
                    Err(e) => return Err(e),
                    Ok(false) => return Err(TypeCheckError::ConstantHasIncorrectType(c.name.copy(), v)),
                    Ok(true) => {},
                }
            },
            None => {},
        }
        v = v.add_one();
    }
    Ok(())
}

/// Type checks a model: its types, then its constants, each in the order they
/// were added; fails with the first error found.
pub fn type_check_verilization(model: &Verilization) -> (r: Result<(), TypeCheckError>)
    ensures
        result_view(r) == type_check_spec(model),
{
    let mut i: usize = 0;
    while i < model.type_count()
        invariant
            i <= model.type_entries().len(),
            model_types_spec(model, model.type_entries(), 0) == model_types_spec(model, model.type_entries(), i as nat),
        decreases model.type_entries().len() - i,
    {
        let t = model.type_at(i);
        let r = match &t {
            NamedTypeDefinition::StructType(d) => type_check_versioned_type(d),
            NamedTypeDefinition::EnumType(d) => type_check_versioned_type(d),
            NamedTypeDefinition::ExternType(d) => type_check_extern_type(d),
        };
        match r {
            Err(e) => return Err(e),
            Ok(()) => {},
        }
        i = i + 1;
    }
    let mut k: usize = 0;
    while k < model.constant_count()
        invariant
            k <= model.constant_entries().len(),
            model_types_spec(model, model.type_entries(), 0) == Ok::<(), TypeCheckErrorView>(()),
            model_constants_spec(model, model.constant_entries(), 0) == model_constants_spec(model, model.constant_entries(), k as nat),
        decreases model.constant_entries().len() - k,
    {
        let c = model.constant_at(k);
        match type_check_constant(&c) {
            Err(e) => return Err(e),
            Ok(()) => {},
        }
        k = k + 1;
    }
    Ok(())
}

/// The data of a struct or enum definition.
pub open spec fn versioned_data(t: TypeDefinition) -> Option<VersionedTypeDefinitionData> {
    match t {
        TypeDefinition::StructType(d) => Some(d),
        TypeDefinition::EnumType(d) => Some(d),
        TypeDefinition::ExternType(_) => None,
    }
}

/// Checks that pass on a list of fields pass on each field.
proof fn lemma_fields_ok(scope: Scope, v: nat, fields: Seq<(String, FieldInfo)>, i: nat, k: int)
    requires
        fields_spec(scope, v, fields, i) is Ok,
        i <= k < fields.len(),
    ensures
        check_type_spec(scope, v, fields[k].1.field_type) is Ok,
    decreases k - i,
{
    if k > i {
        lemma_fields_ok(scope, v, fields, i + 1, k);
    }
}

/// Checks that pass on versions `v..=max` pass at each of them.
proof fn lemma_versions_ok(scope: Scope, d: VersionedTypeDefinitionData, v: nat, max: nat, w: nat)
    requires
        versions_spec(scope, d, v, max) is Ok,
        v <= w <= max,
        has_version_at(d.versions@, w),
    ensures
        fields_spec(scope, w, d.versions@[version_index(d.versions@, w)].1.fields@, 0) is Ok,
    decreases w - v,
{
    if w > v {
        lemma_versions_ok(scope, d, v + 1, max, w);
    }
}

/// Checks that pass on the types `types[k..]` pass on each of them.
proof fn lemma_model_types_ok(model: &Verilization, types: Seq<(QualifiedName, TypeDefinition)>, k: nat, i: int)
    requires
        model_types_spec(model, types, k) is Ok,
        k <= i < types.len(),
    ensures
        match types[i].1 {
            TypeDefinition::StructType(d) => versioned_type_spec(model, &types[i].0, &d) is Ok,
            TypeDefinition::EnumType(d) => versioned_type_spec(model, &types[i].0, &d) is Ok,
            TypeDefinition::ExternType(d) => extern_literals_spec(extern_scope(model, &types[i].0, &d), types[i].0@, d.literals@, 0) is Ok,
        },
    decreases i - k,
{
    if i > k {
        lemma_model_types_ok(model, types, k + 1, i);
    }
}

/// Checks that pass on the versions `v..=max` of a constant pass at each of
/// them.
proof fn lemma_constant_versions_ok(scope: Scope, n: NameView, c: Constant, v: nat, max: nat, w: nat)
    requires
        constant_versions_spec(scope, n, c, v, max) is Ok,
        v <= w <= max,
        has_version_at(c.versions@, w),
    ensures
        check_value_spec(scope, w, c.value_type, c.versions@[version_index(c.versions@, w)].1) == Ok::<bool, TypeCheckErrorView>(true),
    decreases w - v,
{
    if w > v {
        lemma_constant_versions_ok(scope, n, c, v + 1, max, w);
    }
}

/// Checks that pass on the constants `constants[k..]` pass on each of them.
proof fn lemma_model_constants_ok(model: &Verilization, constants: Seq<(QualifiedName, Constant)>, k: nat, i: int)
    requires
        model_constants_spec(model, constants, k) is Ok,
        k <= i < constants.len(),
    ensures
        constant_versions_spec(constant_def_scope(model, &constants[i].0, &constants[i].1), constants[i].0@,
            constants[i].1, 1, model.latest()) is Ok,
    decreases i - k,
{
    if i > k {
        lemma_model_constants_ok(model, constants, k + 1, i);
    }
}

/// In a model that type checks, every field of every struct or enum, at
/// every version from 1 to the last the type runs to where it has a
/// definition, has a type that is well formed at that version.
pub proof fn lemma_checked_field_types(model: &Verilization, i: int, d: VersionedTypeDefinitionData, v: nat, k: int)
    requires
        type_check_spec(model) is Ok,
        0 <= i < model.type_entries().len(),
        versioned_data(model.type_entries()[i].1) == Some(d),
        1 <= v <= d.max_version(),
        has_version_at(d.versions@, v),
        0 <= k < d.versions@[version_index(d.versions@, v)].1.fields@.len(),
    ensures
        check_type_spec(versioned_scope(model, &model.type_entries()[i].0, &d), v,
            d.versions@[version_index(d.versions@, v)].1.fields@[k].1.field_type) is Ok,
{
    let types = model.type_entries();
    lemma_model_types_ok(model, types, 0, i);
    let scope = versioned_scope(model, &types[i].0, &d);
    lemma_versions_ok(scope, d, 1, d.max_version(), v);
    lemma_fields_ok(scope, v, d.versions@[version_index(d.versions@, v)].1.fields@, 0, k);
}

/// In a model that type checks, every constant has its type at every version
/// from 1 to the latest version of the model where it has a value: the value
/// in effect there.
pub proof fn lemma_checked_constants(model: &Verilization, i: int, v: nat)
    requires
        type_check_spec(model) is Ok,
        0 <= i < model.constant_entries().len(),
        1 <= v <= model.latest(),
        has_version_at(model.constant_entries()[i].1.versions@, v),
    ensures
        ({
            let e = model.constant_entries()[i];
            check_value_spec(constant_def_scope(model, &e.0, &e.1), v, e.1.value_type,
                e.1.versions@[version_index(e.1.versions@, v)].1) == Ok::<bool, TypeCheckErrorView>(true)
        }),
{
    let cs = model.constant_entries();
    lemma_model_constants_ok(model, cs, 0, i);
    let e = cs[i];
    lemma_constant_versions_ok(constant_def_scope(model, &e.0, &e.1), e.0@, e.1, 1, model.latest(), v);
}

/// The arguments of a case value are checked each against the parameter at
/// its own position: where there are as many arguments as parameters and
/// every check of the `k`-th argument against the `k`-th parameter type from
/// `j` on gives `Ok(true)`, so do the arguments from `j` on; where the first
/// check that does not give `Ok(true)` is that of position `k`, its result is
/// theirs.
pub proof fn lemma_arguments_by_position(scope: Scope, v: nat, args: Seq<ConstantValue>, params: Seq<Type>, j: nat)
    requires
        args.len() == params.len(),
        j <= args.len(),
    ensures
        (forall|k: int| j <= k < args.len() ==> check_value_spec(scope, v, #[trigger] params[k], args[k]) == Ok::<bool, TypeCheckErrorView>(true))
            ==> arguments_spec(scope, v, args, params, j) == Ok::<bool, TypeCheckErrorView>(true),
        forall|k: int| #![trigger check_value_spec(scope, v, params[k], args[k])]
            j <= k < args.len()
            && (forall|i: int| j <= i < k ==> check_value_spec(scope, v, #[trigger] params[i], args[i]) == Ok::<bool, TypeCheckErrorView>(true))
            && check_value_spec(scope, v, params[k], args[k]) != Ok::<bool, TypeCheckErrorView>(true)
            ==> arguments_spec(scope, v, args, params, j) == check_value_spec(scope, v, params[k], args[k]),
    decreases args.len() - j,
{
    if j < args.len() {
        lemma_arguments_by_position(scope, v, args, params, j + 1);
        assert forall|k: int| #![trigger check_value_spec(scope, v, params[k], args[k])]
            j <= k < args.len()
            && (forall|i: int| j <= i < k ==> check_value_spec(scope, v, #[trigger] params[i], args[i]) == Ok::<bool, TypeCheckErrorView>(true))
            && check_value_spec(scope, v, params[k], args[k]) != Ok::<bool, TypeCheckErrorView>(true)
            implies arguments_spec(scope, v, args, params, j) == check_value_spec(scope, v, params[k], args[k]) by {
            if k > j {
                assert(check_value_spec(scope, v, params[j as int], args[j as int]) == Ok::<bool, TypeCheckErrorView>(true));
            }
        }
    }
}

/// The elements of a list value are each checked against the element type:
/// where every check from `j` on gives `Ok(true)`, so do the elements from
/// `j` on; where the first check that does not is that of position `k`, its
/// result is theirs.
pub proof fn lemma_elements_each(scope: Scope, v: nat, et: Type, s: Seq<ConstantValue>, j: nat)
    requires
        j <= s.len(),
    ensures
        (forall|k: int| j <= k < s.len() ==> check_value_spec(scope, v, et, #[trigger] s[k]) == Ok::<bool, TypeCheckErrorView>(true))
            ==> elements_spec(scope, v, et, s, j) == Ok::<bool, TypeCheckErrorView>(true),
        forall|k: int| #![trigger check_value_spec(scope, v, et, s[k])]
            j <= k < s.len()
            && (forall|i: int| j <= i < k ==> check_value_spec(scope, v, et, #[trigger] s[i]) == Ok::<bool, TypeCheckErrorView>(true))
            && check_value_spec(scope, v, et, s[k]) != Ok::<bool, TypeCheckErrorView>(true)
            ==> elements_spec(scope, v, et, s, j) == check_value_spec(scope, v, et, s[k]),
    decreases s.len() - j,
{
    if j < s.len() {
        lemma_elements_each(scope, v, et, s, j + 1);
        assert forall|k: int| #![trigger check_value_spec(scope, v, et, s[k])]
            j <= k < s.len()
            && (forall|i: int| j <= i < k ==> check_value_spec(scope, v, et, #[trigger] s[i]) == Ok::<bool, TypeCheckErrorView>(true))
            && check_value_spec(scope, v, et, s[k]) != Ok::<bool, TypeCheckErrorView>(true)
            implies elements_spec(scope, v, et, s, j) == check_value_spec(scope, v, et, s[k]) by {
            if k > j {
                assert(check_value_spec(scope, v, et, s[j as int]) == Ok::<bool, TypeCheckErrorView>(true));
            }
        }
    }
}

/// Whether field `i` of `def` takes a value of its own type from the record
/// value `fs`: its name is not that of an earlier field, and the last value
/// given under its name has the field's type.
pub open spec fn record_field_ok(scope: Scope, v: nat, fs: Seq<(String, ConstantValue)>, def: Seq<(String, FieldInfo)>, i: int) -> bool {
    let j = last_named(fs, def[i].0@);
    &&& !has_field_named(def.take(i), def[i].0@)
    &&& 0 <= j < fs.len()
    &&& check_value_spec(scope, v, def[i].1.field_type, fs[j].1) == Ok::<bool, TypeCheckErrorView>(true)
}

/// A record value has a struct version's type exactly when each field of the
/// version, from `k` on, takes a value of its own type under its own name,
/// and every value of the record belongs to some field.
pub proof fn lemma_record_fields_each(scope: Scope, v: nat, fs: Seq<(String, ConstantValue)>, def: Seq<(String, FieldInfo)>, k: nat)
    requires
        k <= def.len(),
    ensures
        check_record_spec(scope, v, fs, def, k) == Ok::<bool, TypeCheckErrorView>(true) <==> (
            (forall|i: int| k <= i < def.len() ==> #[trigger] record_field_ok(scope, v, fs, def, i))
            && (forall|j: int| 0 <= j < fs.len() ==> has_field_named(def, #[trigger] fs[j].0@))),
    decreases def.len() - k,
{
    if k < def.len() {
        lemma_record_fields_each(scope, v, fs, def, k + 1);
        if check_record_spec(scope, v, fs, def, k) == Ok::<bool, TypeCheckErrorView>(true) {
            assert(record_field_ok(scope, v, fs, def, k as int));
        }
        if forall|i: int| k <= i < def.len() ==> #[trigger] record_field_ok(scope, v, fs, def, i) {
            assert(record_field_ok(scope, v, fs, def, k as int));
        }
    }
}

} // verus!



