//! The model of a versioned serialization format: its types, constants and
//! the scopes that names are looked up in.
use vstd::prelude::*;
use crate::bignum::{BigNat, BigInt};
use crate::names::{QualifiedName, upper_name, make_name_uppercase};
use crate::versions::{is_version_at, lemma_version_at_exists, has_exact_version, contains_version, has_version_at, version_index, last_version, lemma_version_index, lemma_last_version, find_version_at, find_last_version};

verus! {

/// The view of a qualified name.
pub type NameView = (Seq<Seq<char>>, Seq<char>);

/// A data type: the name of the type and the type arguments.
#[derive(Debug)]
pub struct Type {
    pub name: QualifiedName,
    pub args: Vec<Type>,
}

/// A field of a struct or enum. An enum field represents a single case.
#[derive(Debug)]
pub struct FieldInfo {
    pub field_type: Type,
}

/// The contents of a type for one format version.
#[derive(Debug)]
pub struct TypeVersionDefinition {
    pub fields: Vec<(String, FieldInfo)>,
}

/// Whether a bound of an integer literal includes its value.
#[derive(Copy, Clone, Debug, PartialEq, Eq)]
pub enum ExternLiteralIntBound {
    Inclusive,
    Exclusive,
}

/// A literal that an extern type accepts.
#[derive(Debug)]
pub enum ExternLiteralSpecifier {
    Integer(ExternLiteralIntBound, Option<BigInt>, ExternLiteralIntBound, Option<BigInt>),
    String,
    Sequence(Type),
    Case(String, Vec<Type>),
    Record(Vec<(String, FieldInfo)>),
}

/// The value of a constant.
#[derive(Debug)]
pub enum ConstantValue {
    Integer(BigInt),
    String(String),
    Sequence(Vec<ConstantValue>),
    Case(String, Vec<ConstantValue>),
    Record(Vec<(String, ConstantValue)>),
    Constant(QualifiedName),
}

/// The result of looking up a name.
#[derive(Clone, Debug)]
pub enum ScopeLookup {
    NamedType(QualifiedName),
    TypeParameter(String),
}

/// The view of a lookup result.
pub enum ScopeLookupView {
    NamedType(NameView),
    TypeParameter(Seq<char>),
}

impl View for ScopeLookup {
    type V = ScopeLookupView;

    open spec fn view(&self) -> ScopeLookupView {
        match self {
            ScopeLookup::NamedType(n) => ScopeLookupView::NamedType(n@),
            ScopeLookup::TypeParameter(p) => ScopeLookupView::TypeParameter(p@),
        }
    }
}

impl ScopeLookup {
    /// A copy of the lookup result.
    pub fn copy(&self) -> (r: ScopeLookup)
        ensures
            r@ == self@,
    {
        match self {
            ScopeLookup::NamedType(n) => ScopeLookup::NamedType(n.copy()),
            ScopeLookup::TypeParameter(p) => ScopeLookup::TypeParameter(p.clone()),
        }
    }

    /// Whether two lookup results are the same.
    pub fn equals(&self, other: &ScopeLookup) -> (r: bool)
        ensures
            r == (self@ == other@),
    {
        match (self, other) {
            (ScopeLookup::NamedType(a), ScopeLookup::NamedType(b)) => a.equals(b),
            (ScopeLookup::TypeParameter(a), ScopeLookup::TypeParameter(b)) => *a == *b,
            _ => false,
        }
    }
}

/// A constant definition: its type and its value in each version where it
/// was given one. A constant runs from its first value to the latest
/// version of the model that holds it (see the methods of
/// `Named<Constant>`).
#[derive(Debug)]
pub struct Constant {
    pub imports: Vec<(String, ScopeLookup)>,
    pub value_type: Type,
    pub versions: Vec<(BigNat, ConstantValue)>,
}

/// The definition of a struct or enum type: its contents in each version
/// where they were given. `latest_version` is the latest version of the file
/// that defined it; merging models does not raise it.
#[derive(Debug)]
pub struct VersionedTypeDefinitionData {
    pub imports: Vec<(String, ScopeLookup)>,
    pub type_params: Vec<String>,
    pub versions: Vec<(BigNat, TypeVersionDefinition)>,
    pub is_final: bool,
    pub latest_version: BigNat,
}

/// The definition of an extern type.
#[derive(Debug)]
pub struct ExternTypeDefinitionData {
    pub imports: Vec<(String, ScopeLookup)>,
    pub type_params: Vec<String>,
    pub literals: Vec<ExternLiteralSpecifier>,
}

/// A definition of a type.
#[derive(Debug)]
pub enum TypeDefinition {
    StructType(VersionedTypeDefinitionData),
    EnumType(VersionedTypeDefinitionData),
    ExternType(ExternTypeDefinitionData),
}

impl TypeDefinition {
    /// The parameters of the type.
    pub open spec fn params(self) -> Seq<String> {
        match self {
            TypeDefinition::StructType(t) => t.type_params@,
            TypeDefinition::EnumType(t) => t.type_params@,
            TypeDefinition::ExternType(t) => t.type_params@,
        }
    }
}

/// The view of the information about one version of a type.
pub struct TypeVersionInfo<'a> {
    pub version: BigNat,
    pub explicit_version: bool,
    pub ver_type: &'a TypeVersionDefinition,
}

impl VersionedTypeDefinitionData {
    /// Whether the type exists at version `v`, and if so the version it
    /// reports there and the index of the definition in effect. A final type
    /// past its last definition reports that last version; any other type
    /// exists up to the latest version of its format.
    pub open spec fn version_in_effect(self, v: nat) -> Option<(nat, int)> {
        if !has_version_at(self.versions@, v) {
            None
        } else {
            let i = version_index(self.versions@, v);
            let found = self.versions@[i].0@;
            if self.is_final && found == last_version(self.versions@) {
                Some((found, i))
            } else if v <= self.latest_version@ {
                Some((v, i))
            } else {
                None
            }
        }
    }

    /// The last version that the type's versions run to: the last defined
    /// version for a final type, the latest version of the format otherwise.
    pub open spec fn max_version(self) -> nat {
        if self.is_final {
            if self.versions@.len() == 0 {
                0
            } else {
                last_version(self.versions@)
            }
        } else {
            self.latest_version@
        }
    }

    /// The definition of the type at a version.
    pub fn versioned<'a>(&'a self, version: &BigNat) -> (r: Option<TypeVersionInfo<'a>>)
        ensures
            match self.version_in_effect(version@) {
                None => r is None,
                Some((ev, i)) => r matches Some(info) && info.version@ == ev
                    && info.explicit_version == (self.versions@[i].0@ == version@)
                    && *info.ver_type == self.versions@[i].1,
            },
    {
        match find_version_at(&self.versions, version) {
            None => None,
            Some(i) => {
                proof {
                    lemma_version_index(self.versions@, version@, i as int);
                }
                let last = find_last_version(&self.versions);
                let l = match last {
                    Some(l) => l,
                    None => i,
                };
                proof {
                    lemma_last_version(self.versions@, l as int);
                }
                let explicit = self.versions[i].0.equals(version);
                if self.is_final && self.versions[i].0.equals(&self.versions[l].0) {
                    Some(TypeVersionInfo {
                        version: self.versions[i].0.copy(),
                        explicit_version: explicit,
                        ver_type: &self.versions[i].1,
                    })
                } else if version.le(&self.latest_version) {
                    Some(TypeVersionInfo {
                        version: version.copy(),
                        explicit_version: explicit,
                        ver_type: &self.versions[i].1,
                    })
                } else {
                    None
                }
            },
        }
    }

    /// The last version at which the type was given a definition.
    pub fn last_explicit_version(&self) -> (r: Option<&BigNat>)
        ensures
            r is None <==> self.versions@.len() == 0,
            r matches Some(v) ==> v@ == last_version(self.versions@),
    {
        match find_last_version(&self.versions) {
            None => None,
            Some(i) => {
                proof {
                    lemma_last_version(self.versions@, i as int);
                }
                Some(&self.versions[i].0)
            },
        }
    }

    /// The last version that the type's versions run to.
    pub fn max_version_exec(&self) -> (r: BigNat)
        ensures
            r@ == self.max_version(),
    {
        if self.is_final {
            match self.last_explicit_version() {
                None => BigNat::zero(),
                Some(v) => v.copy(),
            }
        } else {
            self.latest_version.copy()
        }
    }
}

/// The versions from `v` to `max` at which some definition is in effect.
pub open spec fn version_list<X>(vs: Seq<(BigNat, X)>, v: nat, max: nat) -> Seq<nat>
    decreases max + 1 - v,
{
    if v > max {
        Seq::empty()
    } else if has_version_at(vs, v) {
        seq![v] + version_list(vs, v + 1, max)
    } else {
        version_list(vs, v + 1, max)
    }
}

impl VersionedTypeDefinitionData {
    /// The versions of the type, from the first one it has a definition at to
    /// the last it runs to, each with the definition in effect there and
    /// whether that definition was given at exactly that version.
    pub fn versions<'a>(&'a self) -> (r: Vec<TypeVersionInfo<'a>>)
        ensures
            r@.len() == version_list(self.versions@, 1, self.max_version()).len(),
            forall|k: int| 0 <= k < r@.len() ==> {
                let v = version_list(self.versions@, 1, self.max_version())[k];
                &&& (#[trigger] r@[k]).version@ == v
                &&& *r@[k].ver_type == self.versions@[version_index(self.versions@, v)].1
                &&& r@[k].explicit_version == has_exact_version(self.versions@, v)
            },
    {
        let max = self.max_version_exec();
        let ghost full = version_list(self.versions@, 1, max@);
        let mut out: Vec<TypeVersionInfo<'a>> = Vec::new();
        let mut v = BigNat::one();
        while v.le(&max)
            invariant
                max@ == self.max_version(),
                full == version_list(self.versions@, 1, max@),
                1 <= v@ <= max@ + 1,
                full == out@.map_values(|i: TypeVersionInfo<'a>| i.version@) + version_list(self.versions@, v@, max@),
                forall|k: int| 0 <= k < out@.len() ==> {
                    let w = (#[trigger] out@[k]).version@;
                    &&& has_version_at(self.versions@, w)
                    &&& *out@[k].ver_type == self.versions@[version_index(self.versions@, w)].1
                    &&& out@[k].explicit_version == has_exact_version(self.versions@, w)
                },
            decreases max@ + 1 - v@,
        {
            let ghost before = out@;
            match find_version_at(&self.versions, &v) {
                Some(i) => {
                    proof {
                        lemma_version_index(self.versions@, v@, i as int);
                    }
                    let explicit = contains_version(&self.versions, &v);
                    let info = TypeVersionInfo { version: v.copy(), explicit_version: explicit, ver_type: &self.versions[i].1 };
                    out.push(info);
                    assert(out@.map_values(|i: TypeVersionInfo<'a>| i.version@) =~= before.map_values(|i: TypeVersionInfo<'a>| i.version@).push(v@));
                    assert(seq![v@] + version_list(self.versions@, v@ + 1, max@) =~= seq![v@].add(version_list(self.versions@, v@ + 1, max@)));
                    assert(full =~= out@.map_values(|i: TypeVersionInfo<'a>| i.version@) + version_list(self.versions@, v@ + 1, max@));
                },
                None => {},
            }
            v = v.add_one();
        }
        proof {
            assert(out@.map_values(|i: TypeVersionInfo<'a>| i.version@) =~= full);
            assert forall|k: int| 0 <= k < out@.len() implies (#[trigger] out@[k]).version@ == full[k] by {
                assert(out@.map_values(|i: TypeVersionInfo<'a>| i.version@)[k] == out@[k].version@);
            }
        }
        out
    }
}

/// A version of a constant, and the value given at exactly that version.
pub struct ConstantVersionInfo<'a> {
    pub version: BigNat,
    pub value: Option<&'a ConstantValue>,
}

impl Constant {
    /// The index of the value in effect at version `v` in a model whose
    /// latest version is `latest`, if the constant exists there: some value
    /// was given at or before `v`, and `v` is not past `latest`.
    pub open spec fn value_in_effect(self, latest: nat, v: nat) -> Option<int> {
        if has_version_at(self.versions@, v) && v <= latest {
            Some(version_index(self.versions@, v))
        } else {
            None
        }
    }
}

impl<'a> Named<'a, Constant> {
    /// The versions of the constant, from the first one it has a value at to
    /// the latest version of the model, each with the value given at exactly
    /// that version, if one was.
    pub fn versions(&self) -> (r: Vec<ConstantVersionInfo<'a>>)
        ensures
            r@.len() == version_list(self.value.versions@, 1, self.model.latest()).len(),
            forall|k: int| 0 <= k < r@.len() ==> {
                let v = version_list(self.value.versions@, 1, self.model.latest())[k];
                &&& (#[trigger] r@[k]).version@ == v
                &&& (r@[k].value is Some <==> has_exact_version(self.value.versions@, v))
                &&& r@[k].value matches Some(x) ==> *x == self.value.versions@[version_index(self.value.versions@, v)].1
            },
    {
        let c: &'a Constant = self.value;
        let max = self.model.latest_version();
        let ghost full = version_list(c.versions@, 1, max@);
        let mut out: Vec<ConstantVersionInfo<'a>> = Vec::new();
        let mut v = BigNat::one();
        while v.le(max)
            invariant
                c == self.value,
                max@ == self.model.latest(),
                full == version_list(c.versions@, 1, max@),
                1 <= v@ <= max@ + 1,
                full == out@.map_values(|i: ConstantVersionInfo<'a>| i.version@) + version_list(c.versions@, v@, max@),
                forall|k: int| 0 <= k < out@.len() ==> {
                    let w = (#[trigger] out@[k]).version@;
                    &&& (out@[k].value is Some <==> has_exact_version(c.versions@, w))
                    &&& out@[k].value matches Some(x) ==> *x == c.versions@[version_index(c.versions@, w)].1
                },
            decreases max@ + 1 - v@,
        {
            let ghost before = out@;
            match find_version_at(&c.versions, &v) {
                Some(i) => {
                    proof {
                        lemma_version_index(c.versions@, v@, i as int);
                    }
                    let explicit = c.versions[i].0.equals(&v);
                    assert(explicit <==> has_exact_version(c.versions@, v@)) by {
                        if has_exact_version(c.versions@, v@) {
                            let j = choose|j: int| 0 <= j < c.versions@.len() && c.versions@[j].0@ == v@;
                            assert(c.versions@[j].0@ <= c.versions@[i as int].0@);
                        }
                    }
                    let value = if explicit { Some(&c.versions[i].1) } else { None };
                    out.push(ConstantVersionInfo { version: v.copy(), value });
                    assert(out@.map_values(|i: ConstantVersionInfo<'a>| i.version@) =~= before.map_values(|i: ConstantVersionInfo<'a>| i.version@).push(v@));
                    assert(full =~= out@.map_values(|i: ConstantVersionInfo<'a>| i.version@) + version_list(c.versions@, v@ + 1, max@));
                },
                None => {},
            }
            v = v.add_one();
        }
        proof {
            assert(out@.map_values(|i: ConstantVersionInfo<'a>| i.version@) =~= full);
            assert forall|k: int| 0 <= k < out@.len() implies (#[trigger] out@[k]).version@ == full[k] by {
                assert(out@.map_values(|i: ConstantVersionInfo<'a>| i.version@)[k] == out@[k].version@);
            }
        }
        out
    }

    /// Whether the constant exists at a version of its model.
    pub fn has_version(&self, version: &BigNat) -> (r: bool)
        ensures
            r == self.value.value_in_effect(self.model.latest(), version@) is Some,
    {
        version.le(self.model.latest_version()) && find_version_at(&self.value.versions, version).is_some()
    }

    /// The value in effect at a version, if the constant exists there.
    pub fn value_at(&self, version: &BigNat) -> (r: Option<&'a ConstantValue>)
        ensures
            match self.value.value_in_effect(self.model.latest(), version@) {
                None => r is None,
                Some(i) => r == Some(&self.value.versions@[i].1),
            },
    {
        let c: &'a Constant = self.value;
        if !version.le(self.model.latest_version()) {
            return None;
        }
        match find_version_at(&c.versions, version) {
            None => None,
            Some(i) => {
                proof {
                    lemma_version_index(c.versions@, version@, i as int);
                }
                Some(&c.versions[i].1)
            },
        }
    }
}

/// An error in building a model: something defined twice.
#[derive(Debug)]
pub enum ModelError {
    DuplicateConstant(QualifiedName),
    DuplicateType(QualifiedName),
    DuplicateVersion(QualifiedName, BigNat),
    DuplicateField(QualifiedName, BigNat, String),
    DuplicateRecordField(QualifiedName, String),
    DuplicateFieldValue(String),
}

/// Some entry of `fields` has the name `n`.
pub open spec fn has_field_named<A>(fields: Seq<(String, A)>, n: Seq<char>) -> bool {
    exists|i: int| 0 <= i < fields.len() && fields[i].0@ == n
}

/// Whether some entry of `fields` has the name `n`.
pub fn contains_field_named<A>(fields: &Vec<(String, A)>, n: &String) -> (r: bool)
    ensures
        r == has_field_named(fields@, n@),
{
    let mut i: usize = 0;
    while i < fields.len()
        invariant
            i <= fields@.len(),
            forall|j: int| 0 <= j < i ==> fields@[j].0@ != n@,
        decreases fields@.len() - i,
    {
        if fields[i].0 == *n {
            return true;
        }
        i = i + 1;
    }
    false
}

/// Builds a constant one version at a time.
pub struct ConstantBuilder {
    pub name: QualifiedName,
    pub constant: Constant,
}

impl ConstantBuilder {
    /// A constant with no values yet.
    pub fn new(name: QualifiedName, value_type: Type, imports: Vec<(String, ScopeLookup)>) -> (r: ConstantBuilder)
        ensures
            r.name == name,
            r.constant.value_type == value_type,
            r.constant.imports == imports,
            r.constant.versions@.len() == 0,
    {
        ConstantBuilder {
            name,
            constant: Constant { imports, value_type, versions: Vec::new() },
        }
    }

    /// Gives the constant a value at a version; fails when it already has one
    /// there.
    pub fn add_version(&mut self, version: BigNat, value: ConstantValue) -> (r: Result<(), ModelError>)
        ensures
            r is Ok <==> !has_exact_version(old(self).constant.versions@, version@),
            r matches Err(e) ==> e matches ModelError::DuplicateVersion(n, v) && n@ == old(self).name@ && v@ == version@,
            final(self).name == old(self).name,
            final(self).constant.value_type == old(self).constant.value_type,
            final(self).constant.imports == old(self).constant.imports,
            r is Ok ==> final(self).constant.versions@ == old(self).constant.versions@.push((version, value)),
            r is Err ==> final(self).constant.versions@ == old(self).constant.versions@,
    {
        if contains_version(&self.constant.versions, &version) {
            return Err(ModelError::DuplicateVersion(self.name.copy(), version));
        }
        self.constant.versions.push((version, value));
        Ok(())
    }
}

/// Builds an extern type one literal at a time.
pub struct ExternTypeDefinitionBuilder {
    pub name: QualifiedName,
    pub data: ExternTypeDefinitionData,
}

impl ExternTypeDefinitionBuilder {
    /// An extern type with no literals yet.
    pub fn new(name: QualifiedName, type_params: Vec<String>, imports: Vec<(String, ScopeLookup)>) -> (r: ExternTypeDefinitionBuilder)
        ensures
            r.name == name,
            r.data.type_params == type_params,
            r.data.imports == imports,
            r.data.literals@.len() == 0,
    {
        ExternTypeDefinitionBuilder {
            name,
            data: ExternTypeDefinitionData { imports, type_params, literals: Vec::new() },
        }
    }

    /// Adds a literal. A record literal fails, naming the field, when one of
    /// its fields repeats the name of an earlier one; every other literal is
    /// added as it is.
    pub fn add_literal(&mut self, literal: ExternLiteralSpecifier) -> (r: Result<(), ModelError>)
        ensures
            r is Ok <==> !(literal matches ExternLiteralSpecifier::Record(fs) && first_repeat(fs@, 0) is Some),
            r matches Err(e) ==> literal matches ExternLiteralSpecifier::Record(fs) && first_repeat(fs@, 0) matches Some(k)
                && e matches ModelError::DuplicateRecordField(n, f) && n@ == old(self).name@ && f@ == fs@[k as int].0@,
            final(self).name == old(self).name,
            final(self).data.type_params == old(self).data.type_params,
            final(self).data.imports == old(self).data.imports,
            r is Ok ==> final(self).data.literals@ == old(self).data.literals@.push(literal),
            r is Err ==> final(self).data.literals@ == old(self).data.literals@,
    {
        if let ExternLiteralSpecifier::Record(fields) = &literal {
            match find_repeat(fields) {
                Some(k) => {
                    return Err(ModelError::DuplicateRecordField(self.name.copy(), fields[k].0.clone()));
                },
                None => {},
            }
        }
        self.data.literals.push(literal);
        Ok(())
    }
}

/// The first entry of `fs[i..]` whose name an earlier entry of `fs` has.
pub open spec fn first_repeat<A>(fs: Seq<(String, A)>, i: nat) -> Option<nat>
    decreases fs.len() - i,
{
    if i >= fs.len() {
        None
    } else if has_field_named(fs.take(i as int), fs[i as int].0@) {
        Some(i)
    } else {
        first_repeat(fs, i + 1)
    }
}

/// The first repeat lies within the list.
pub proof fn lemma_first_repeat_bound<A>(fs: Seq<(String, A)>, i: nat)
    ensures
        first_repeat(fs, i) matches Some(k) ==> i <= k < fs.len(),
    decreases fs.len() - i,
{
    if i < fs.len() {
        lemma_first_repeat_bound(fs, i + 1);
    }
}

/// Finds the first entry whose name an earlier entry has.
pub fn find_repeat<A>(fs: &Vec<(String, A)>) -> (r: Option<usize>)
    ensures
        match first_repeat(fs@, 0) {
            None => r is None,
            Some(k) => r matches Some(rk) && rk as nat == k,
        },
        r matches Some(k) ==> k < fs@.len(),
{
    let mut i: usize = 0;
    while i < fs.len()
        invariant
            i <= fs@.len(),
            first_repeat(fs@, 0) == first_repeat(fs@, i as nat),
        decreases fs@.len() - i,
    {
        let mut j: usize = 0;
        while j < i
            invariant
                i < fs@.len(),
                j <= i,
                first_repeat(fs@, 0) == first_repeat(fs@, i as nat),
                forall|k: int| 0 <= k < j ==> fs@[k].0@ != fs@[i as int].0@,
            decreases i - j,
        {
            if fs[j].0 == fs[i].0 {
                assert(fs@.take(i as int)[j as int].0@ == fs@[i as int].0@);
                return Some(i);
            }
            j = j + 1;
        }
        assert(!has_field_named(fs@.take(i as int), fs@[i as int].0@)) by {
            if has_field_named(fs@.take(i as int), fs@[i as int].0@) {
                let k = choose|k: int| 0 <= k < i && fs@.take(i as int)[k].0@ == fs@[i as int].0@;
                assert(fs@[k].0@ == fs@[i as int].0@);
            }
        }
        i = i + 1;
    }
    None
}

/// Metadata about the format.
#[derive(Debug)]
pub struct VerilizationMetadata {
    pub latest_version: BigNat,
}

/// Whether a sequence of names holds `n`.
pub open spec fn names_contain(names: Seq<NameView>, n: NameView) -> bool {
    exists|i: int| 0 <= i < names.len() && names[i] == n
}

/// Whether the key of entry `i` of `entries` is `n`.
pub open spec fn key_is<A>(entries: Seq<(QualifiedName, A)>, i: int, n: NameView) -> bool {
    0 <= i < entries.len() && entries[i].0@ == n
}

/// Whether some entry has the key `n`.
pub open spec fn has_key<A>(entries: Seq<(QualifiedName, A)>, n: NameView) -> bool {
    exists|i: int| key_is(entries, i, n)
}

/// No two entries have the same key.
pub open spec fn keys_distinct<A>(entries: Seq<(QualifiedName, A)>) -> bool {
    forall|i: int, j: int| 0 <= i < j < entries.len() ==> entries[i].0@ != entries[j].0@
}

/// The first entry with key `n`, if any.
pub fn find_entry<A>(entries: &Vec<(QualifiedName, A)>, n: &QualifiedName) -> (r: Option<usize>)
    ensures
        r is None <==> !has_key(entries@, n@),
        r matches Some(i) ==> key_is(entries@, i as int, n@) && forall|j: int| 0 <= j < i ==> entries@[j].0@ != n@,
{
    let mut i: usize = 0;
    while i < entries.len()
        invariant
            i <= entries@.len(),
            forall|j: int| 0 <= j < i ==> entries@[j].0@ != n@,
        decreases entries@.len() - i,
    {
        if entries[i].0.equals(n) {
            assert(key_is(entries@, i as int, n@));
            return Some(i);
        }
        i = i + 1;
    }
    assert(!has_key(entries@, n@)) by {
        if has_key(entries@, n@) {
            let k = choose|k: int| key_is(entries@, k, n@);
            assert(entries@[k].0@ != n@);
        }
    }
    None
}

/// Every name in `names` is still there after one more is added.
proof fn lemma_names_grow(names: Seq<NameView>, n: NameView)
    ensures
        forall|m: NameView| names_contain(names, m) ==> names_contain(names.push(n), m),
        names_contain(names.push(n), n),
{
    assert forall|m: NameView| names_contain(names, m) implies names_contain(names.push(n), m) by {
        let k = choose|k: int| 0 <= k < names.len() && names[k] == m;
        assert(names.push(n)[k] == m);
    }
    assert(names.push(n)[names.len() as int] == n);
}

/// One more constant or type, whose upper-cased name was not taken and is
/// now recorded as taken, keeps the model invariant.
proof fn lemma_added_keeps_wf(before: Verilization, after: Verilization, key: NameView)
    requires
        before.wf(),
        !names_contain(before.taken_names(), upper_name(key)),
        after.names@.len() == before.names@.len() + 1,
        forall|j: int| 0 <= j < before.names@.len() ==> after.names@[j] == before.names@[j],
        after.names@[before.names@.len() as int]@ == upper_name(key),
        ({
            ||| after.constants@.len() == before.constants@.len() + 1
                && (forall|i: int| 0 <= i < before.constants@.len() ==> after.constants@[i] == before.constants@[i])
                && after.constants@[before.constants@.len() as int].0@ == key
                && after.type_definitions@ == before.type_definitions@
            ||| after.type_definitions@.len() == before.type_definitions@.len() + 1
                && (forall|i: int| 0 <= i < before.type_definitions@.len() ==> after.type_definitions@[i] == before.type_definitions@[i])
                && after.type_definitions@[before.type_definitions@.len() as int].0@ == key
                && after.constants@ == before.constants@
        }),
    ensures
        after.wf(),
{
    let u = upper_name(key);
    let bc = before.constants@;
    let bt = before.type_definitions@;
    let ac = after.constants@;
    let at = after.type_definitions@;
    assert forall|i: int| 0 <= i < bc.len() implies upper_name(#[trigger] bc[i].0@) != u by {
        assert(names_contain(before.taken_names(), upper_name(bc[i].0@)));
    }
    assert forall|i: int| 0 <= i < bt.len() implies upper_name(#[trigger] bt[i].0@) != u by {
        assert(names_contain(before.taken_names(), upper_name(bt[i].0@)));
    }
    assert forall|i: int| 0 <= i < ac.len() implies ac[i] == bc[i] || (i == bc.len() && ac[i].0@ == key) by {}
    assert forall|i: int| 0 <= i < at.len() implies at[i] == bt[i] || (i == bt.len() && at[i].0@ == key) by {}
    assert(before.names_unique());
    assert(after.constant_entries() == ac && after.type_entries() == at);
    assert(before.constant_entries() == bc && before.type_entries() == bt);
    assert forall|i: int, j: int| 0 <= i < j < ac.len()
        implies upper_name(#[trigger] ac[i].0@) != upper_name(#[trigger] ac[j].0@) by {
        if j < bc.len() {
            assert(ac[i] == bc[i] && ac[j] == bc[j]);
            assert(upper_name(bc[i].0@) != upper_name(bc[j].0@));
        } else {
            assert(ac[i] == bc[i]);
        }
    }
    assert forall|i: int, j: int| 0 <= i < j < at.len()
        implies upper_name(#[trigger] at[i].0@) != upper_name(#[trigger] at[j].0@) by {
        if j < bt.len() {
            assert(at[i] == bt[i] && at[j] == bt[j]);
            assert(upper_name(bt[i].0@) != upper_name(bt[j].0@));
        } else {
            assert(at[i] == bt[i]);
        }
    }
    assert forall|i: int, j: int| 0 <= i < ac.len() && 0 <= j < at.len()
        implies upper_name(#[trigger] ac[i].0@) != upper_name(#[trigger] at[j].0@) by {
        if i < bc.len() && j < bt.len() {
            assert(ac[i] == bc[i] && at[j] == bt[j]);
            assert(upper_name(bc[i].0@) != upper_name(bt[j].0@));
        } else if i < bc.len() {
            assert(ac[i] == bc[i]);
        } else {
            assert(at[j] == bt[j]);
        }
    }
    assert(after.names_unique());
    assert(keys_distinct(ac));
    assert(keys_distinct(at));
    let bn = before.names@;
    let an = after.names@;
    assert forall|j: int| 0 <= j < bn.len() implies bn[j]@ != u by {
        assert(before.taken_names()[j] == bn[j]@);
    }
    assert forall|i: int, j: int| 0 <= i < j < an.len() implies an[i]@ != an[j]@ by {
        if j == bn.len() {
            assert(an[i] == bn[i]);
        }
    }
    assert forall|j: int| 0 <= j < an.len() implies after.defines_upper(#[trigger] an[j]@) by {
        if j < bn.len() {
            assert(an[j] == bn[j]);
            assert(before.defines_upper(bn[j]@));
            if exists|i: int| 0 <= i < bc.len() && upper_name(#[trigger] bc[i].0@) == bn[j]@ {
                let i = choose|i: int| 0 <= i < bc.len() && upper_name(#[trigger] bc[i].0@) == bn[j]@;
                assert(ac[i] == bc[i]);
                assert(upper_name(after.constant_entries()[i].0@) == an[j]@);
            } else {
                let i = choose|i: int| 0 <= i < bt.len() && upper_name(#[trigger] bt[i].0@) == bn[j]@;
                assert(at[i] == bt[i]);
                assert(upper_name(after.type_entries()[i].0@) == an[j]@);
            }
        } else {
            if ac.len() == bc.len() + 1 && ac[bc.len() as int].0@ == key {
                assert(upper_name(after.constant_entries()[bc.len() as int].0@) == an[j]@);
            } else {
                assert(upper_name(after.type_entries()[bt.len() as int].0@) == an[j]@);
            }
        }
    }
    assert forall|i: int| 0 <= i < ac.len() implies names_contain(after.taken_names(), upper_name(#[trigger] ac[i].0@)) by {
        if i < bc.len() {
            assert(names_contain(before.taken_names(), upper_name(bc[i].0@)));
            let k = choose|k: int| 0 <= k < before.taken_names().len() && before.taken_names()[k] == upper_name(bc[i].0@);
            assert(after.taken_names()[k] == before.taken_names()[k]);
        } else {
            assert(after.taken_names()[bn.len() as int] == u);
        }
    }
    assert forall|i: int| 0 <= i < at.len() implies names_contain(after.taken_names(), upper_name(#[trigger] at[i].0@)) by {
        if i < bt.len() {
            assert(names_contain(before.taken_names(), upper_name(bt[i].0@)));
            let k = choose|k: int| 0 <= k < before.taken_names().len() && before.taken_names()[k] == upper_name(bt[i].0@);
            assert(after.taken_names()[k] == before.taken_names()[k]);
        } else {
            assert(after.taken_names()[bn.len() as int] == u);
        }
    }
}

/// The model invariant holds of any model with the same definitions and
/// taken names.
proof fn lemma_wf_same_entries(a: Verilization, b: Verilization)
    requires
        a.wf(),
        a.constants@ == b.constants@,
        a.type_definitions@ == b.type_definitions@,
        a.names@ == b.names@,
    ensures
        b.wf(),
{
    assert(a.constant_entries() == b.constant_entries());
    assert(a.type_entries() == b.type_entries());
    assert(a.taken_names() == b.taken_names());
    assert forall|j: int| 0 <= j < b.names@.len() implies b.defines_upper(#[trigger] b.names@[j]@) by {
        assert(a.defines_upper(a.names@[j]@));
    }
}

/// In a well-formed model, an upper-cased name is taken exactly when a
/// constant or type has it.
proof fn lemma_taken_iff_defined(m: Verilization, u: NameView)
    requires
        m.wf(),
    ensures
        names_contain(m.taken_names(), u) <==> m.defines_upper(u),
{
    if names_contain(m.taken_names(), u) {
        let j = choose|j: int| 0 <= j < m.taken_names().len() && m.taken_names()[j] == u;
        assert(m.names@[j]@ == u);
        assert(m.defines_upper(m.names@[j]@));
    }
    if m.defines_upper(u) {
        if exists|i: int| 0 <= i < m.constant_entries().len() && upper_name(#[trigger] m.constant_entries()[i].0@) == u {
            let i = choose|i: int| 0 <= i < m.constant_entries().len() && upper_name(#[trigger] m.constant_entries()[i].0@) == u;
            assert(names_contain(m.taken_names(), upper_name(m.constants@[i].0@)));
        } else {
            let i = choose|i: int| 0 <= i < m.type_entries().len() && upper_name(#[trigger] m.type_entries()[i].0@) == u;
            assert(names_contain(m.taken_names(), upper_name(m.type_definitions@[i].0@)));
        }
    }
}

/// Defines a versioned serialization format.
#[derive(Debug)]
pub struct Verilization {
    metadata: VerilizationMetadata,
    constants: Vec<(QualifiedName, Constant)>,
    type_definitions: Vec<(QualifiedName, TypeDefinition)>,
    names: Vec<QualifiedName>,
}

impl Verilization {
    /// The constants of the model, in the order they were added.
    pub closed spec fn constant_entries(&self) -> Seq<(QualifiedName, Constant)> {
        self.constants@
    }

    /// The types of the model, in the order they were added.
    pub closed spec fn type_entries(&self) -> Seq<(QualifiedName, TypeDefinition)> {
        self.type_definitions@
    }

    /// The upper-cased names taken by constants and types.
    pub closed spec fn taken_names(&self) -> Seq<NameView> {
        self.names@.map_values(|q: QualifiedName| q@)
    }

    /// The latest version of the format.
    pub closed spec fn latest(&self) -> nat {
        self.metadata.latest_version@
    }

    /// Whether a constant or type of the model has a name that is `n` once
    /// both are upper-cased (ASCII letters only).
    pub open spec fn clashes(&self, n: NameView) -> bool {
        self.defines_upper(upper_name(n))
    }

    /// Whether a constant or type of the model has a name that is `u` once
    /// upper-cased.
    pub open spec fn defines_upper(&self, u: NameView) -> bool {
        ||| exists|i: int| 0 <= i < self.constant_entries().len()
            && upper_name(#[trigger] self.constant_entries()[i].0@) == u
        ||| exists|i: int| 0 <= i < self.type_entries().len()
            && upper_name(#[trigger] self.type_entries()[i].0@) == u
    }

    /// Whether no two constants or types of the model have names that are
    /// the same once upper-cased.
    pub open spec fn names_unique(&self) -> bool {
        &&& forall|i: int, j: int| 0 <= i < j < self.constant_entries().len()
            ==> upper_name(#[trigger] self.constant_entries()[i].0@) != upper_name(#[trigger] self.constant_entries()[j].0@)
        &&& forall|i: int, j: int| 0 <= i < j < self.type_entries().len()
            ==> upper_name(#[trigger] self.type_entries()[i].0@) != upper_name(#[trigger] self.type_entries()[j].0@)
        &&& forall|i: int, j: int| 0 <= i < self.constant_entries().len() && 0 <= j < self.type_entries().len()
            ==> upper_name(#[trigger] self.constant_entries()[i].0@) != upper_name(#[trigger] self.type_entries()[j].0@)
    }

    /// The model invariant: no two names are the same once upper-cased, and
    /// the taken names are exactly the upper-cased names defined, each once.
    pub closed spec fn wf(&self) -> bool {
        &&& keys_distinct(self.constants@)
        &&& keys_distinct(self.type_definitions@)
        &&& self.names_unique()
        &&& forall|i: int, j: int| 0 <= i < j < self.names@.len() ==> self.names@[i]@ != self.names@[j]@
        &&& forall|j: int| 0 <= j < self.names@.len() ==> self.defines_upper(#[trigger] self.names@[j]@)
        &&& forall|i: int| 0 <= i < self.constants@.len() ==> names_contain(
            self.taken_names(),
            upper_name(#[trigger] self.constants@[i].0@),
        )
        &&& forall|i: int| 0 <= i < self.type_definitions@.len() ==> names_contain(
            self.taken_names(),
            upper_name(#[trigger] self.type_definitions@[i].0@),
        )
    }

    /// Creates a new versioned format.
    pub fn new(metadata: VerilizationMetadata) -> (r: Verilization)
        ensures
            r.wf(),
            r.names_unique(),
            r.constant_entries().len() == 0,
            r.type_entries().len() == 0,
            r.taken_names().len() == 0,
            r.latest() == metadata.latest_version@,
    {
        Verilization {
            metadata,
            constants: Vec::new(),
            type_definitions: Vec::new(),
            names: Vec::new(),
        }
    }

    /// The latest version of the format.
    pub fn latest_version(&self) -> (r: &BigNat)
        ensures
            r@ == self.latest(),
    {
        &self.metadata.latest_version
    }

    fn name_is_taken(&self, upper: &QualifiedName) -> (r: bool)
        ensures
            r == names_contain(self.taken_names(), upper@),
    {
        let mut i: usize = 0;
        while i < self.names.len()
            invariant
                i <= self.names@.len(),
                forall|j: int| 0 <= j < i ==> self.names@[j]@ != upper@,
            decreases self.names@.len() - i,
        {
            if self.names[i].equals(upper) {
                assert(self.taken_names()[i as int] == upper@);
                return true;
            }
            i = i + 1;
        }
        assert(!names_contain(self.taken_names(), upper@)) by {
            if names_contain(self.taken_names(), upper@) {
                let k = choose|k: int| 0 <= k < self.taken_names().len() && self.taken_names()[k] == upper@;
                assert(self.names@[k]@ == upper@);
            }
        }
        false
    }

    /// Adds a constant; fails with the name, and leaves the model as it was,
    /// exactly when a constant or type already has that name, ASCII case
    /// ignored.
    pub fn add_constant(&mut self, name: QualifiedName, constant: Constant) -> (r: Result<(), QualifiedName>)
        requires
            old(self).wf(),
        ensures
            final(self).wf(),
            final(self).names_unique(),
            r is Ok <==> !old(self).clashes(name@),
            r is Ok <==> !names_contain(old(self).taken_names(), upper_name(name@)),
            r matches Err(n) ==> n@ == name@ && *final(self) == *old(self),
            r is Ok ==> final(self).constant_entries() == old(self).constant_entries().push((name, constant))
                && final(self).type_entries() == old(self).type_entries()
                && final(self).taken_names() == old(self).taken_names().push(upper_name(name@))
                && final(self).latest() == old(self).latest(),
    {
        proof {
            lemma_taken_iff_defined(*old(self), upper_name(name@));
        }
        let mut case_name = name.copy();
        make_name_uppercase(&mut case_name);
        if self.name_is_taken(&case_name) {
            return Err(name);
        }
        let ghost old_names = self.taken_names();
        let ghost old_self = *self;
        let ghost key = name@;
        self.names.push(case_name);
        assert(self.taken_names() =~= old_names.push(upper_name(name@)));
        self.constants.push((name, constant));
        proof {
            lemma_added_keeps_wf(old_self, *self, key);
        }
        Ok(())
    }

    /// Adds a type definition; fails with the name, and leaves the model as
    /// it was, exactly when a constant or type already has that name, ASCII
    /// case ignored.
    pub fn add_type(&mut self, name: QualifiedName, t: TypeDefinition) -> (r: Result<(), QualifiedName>)
        requires
            old(self).wf(),
        ensures
            final(self).wf(),
            final(self).names_unique(),
            r is Ok <==> !old(self).clashes(name@),
            r is Ok <==> !names_contain(old(self).taken_names(), upper_name(name@)),
            r matches Err(n) ==> n@ == name@ && *final(self) == *old(self),
            r is Ok ==> final(self).type_entries() == old(self).type_entries().push((name, t))
                && final(self).constant_entries() == old(self).constant_entries()
                && final(self).taken_names() == old(self).taken_names().push(upper_name(name@))
                && final(self).latest() == old(self).latest(),
    {
        proof {
            lemma_taken_iff_defined(*old(self), upper_name(name@));
        }
        let mut case_name = name.copy();
        make_name_uppercase(&mut case_name);
        if self.name_is_taken(&case_name) {
            return Err(name);
        }
        let ghost old_names = self.taken_names();
        let ghost old_self = *self;
        let ghost key = name@;
        self.names.push(case_name);
        assert(self.taken_names() =~= old_names.push(upper_name(name@)));
        self.type_definitions.push((name, t));
        proof {
            lemma_added_keeps_wf(old_self, *self, key);
        }
        Ok(())
    }
}

/// Entry `i` is the first whose key is `n`.
pub open spec fn is_first_key<A>(entries: Seq<(QualifiedName, A)>, i: int, n: NameView) -> bool {
    key_is(entries, i, n) && forall|j: int| 0 <= j < i ==> entries[j].0@ != n
}

/// The index of the first entry whose key is `n` (meaningful when there is one).
pub open spec fn first_key_index<A>(entries: Seq<(QualifiedName, A)>, n: NameView) -> int {
    choose|i: int| is_first_key(entries, i, n)
}

/// The first entry with a given key is unique.
pub proof fn lemma_first_key<A>(entries: Seq<(QualifiedName, A)>, i: int, n: NameView)
    requires
        is_first_key(entries, i, n),
    ensures
        first_key_index(entries, n) == i,
{
    let k = first_key_index(entries, n);
    assert(is_first_key(entries, k, n));
    if k < i {
        assert(entries[k].0@ != n);
    } else if i < k {
        assert(entries[i].0@ != n);
    }
}

/// Something of the model together with its name.
pub struct Named<'a, A> {
    pub model: &'a Verilization,
    pub name: &'a QualifiedName,
    pub value: &'a A,
}

impl<'a, A> Named<'a, A> {
    /// The name.
    pub fn name(&self) -> (r: &'a QualifiedName)
        ensures
            r == self.name,
    {
        self.name
    }

    /// Another handle on the same named item.
    pub fn share(&self) -> (r: Named<'a, A>)
        ensures
            r == *self,
    {
        Named { model: self.model, name: self.name, value: self.value }
    }
}

/// A type definition of the model together with its name.
pub enum NamedTypeDefinition<'a> {
    StructType(Named<'a, VersionedTypeDefinitionData>),
    EnumType(Named<'a, VersionedTypeDefinitionData>),
    ExternType(Named<'a, ExternTypeDefinitionData>),
}

impl<'a> NamedTypeDefinition<'a> {
    /// The name of the type.
    pub open spec fn name_view(self) -> NameView {
        match self {
            NamedTypeDefinition::StructType(t) => t.name@,
            NamedTypeDefinition::EnumType(t) => t.name@,
            NamedTypeDefinition::ExternType(t) => t.name@,
        }
    }

    /// The definition itself.
    pub open spec fn definition(self) -> TypeDefinition {
        match self {
            NamedTypeDefinition::StructType(t) => TypeDefinition::StructType(*t.value),
            NamedTypeDefinition::EnumType(t) => TypeDefinition::EnumType(*t.value),
            NamedTypeDefinition::ExternType(t) => TypeDefinition::ExternType(*t.value),
        }
    }

    /// The type belongs to `model`, under exactly the name `n`.
    pub open spec fn is_in(self, model: &Verilization, n: QualifiedName) -> bool {
        match self {
            NamedTypeDefinition::StructType(t) => t.model == model && *t.name == n,
            NamedTypeDefinition::EnumType(t) => t.model == model && *t.name == n,
            NamedTypeDefinition::ExternType(t) => t.model == model && *t.name == n,
        }
    }

    /// The name of the type.
    pub fn name(&self) -> (r: &'a QualifiedName)
        ensures
            r@ == self.name_view(),
    {
        match self {
            NamedTypeDefinition::StructType(t) => t.name,
            NamedTypeDefinition::EnumType(t) => t.name,
            NamedTypeDefinition::ExternType(t) => t.name,
        }
    }

    /// The parameters of the type.
    pub fn type_params(&self) -> (r: &'a Vec<String>)
        ensures
            r@ == self.definition().params(),
    {
        match self {
            NamedTypeDefinition::StructType(t) => &t.value.type_params,
            NamedTypeDefinition::EnumType(t) => &t.value.type_params,
            NamedTypeDefinition::ExternType(t) => &t.value.type_params,
        }
    }

    /// The number of parameters of the type.
    pub fn arity(&self) -> (r: usize)
        ensures
            r == self.definition().params().len(),
    {
        self.type_params().len()
    }

    /// Whether the type exists at a version: a struct or enum exists where
    /// it has a definition in effect, an extern type in every version.
    pub fn has_version(&self, version: &BigNat) -> (r: bool)
        ensures
            r == self.definition().exists_at(version@),
    {
        match self {
            NamedTypeDefinition::StructType(t) => t.value.versioned(version).is_some(),
            NamedTypeDefinition::EnumType(t) => t.value.versioned(version).is_some(),
            NamedTypeDefinition::ExternType(_) => true,
        }
    }
}

impl TypeDefinition {
    /// Whether the type exists at version `v`.
    pub open spec fn exists_at(self, v: nat) -> bool {
        match self {
            TypeDefinition::StructType(t) => t.version_in_effect(v) is Some,
            TypeDefinition::EnumType(t) => t.version_in_effect(v) is Some,
            TypeDefinition::ExternType(_) => true,
        }
    }
}

impl Verilization {
    /// The definition of the type named `n`, if there is one.
    pub open spec fn type_def(&self, n: NameView) -> Option<TypeDefinition> {
        if has_key(self.type_entries(), n) {
            Some(self.type_entries()[first_key_index(self.type_entries(), n)].1)
        } else {
            None
        }
    }

    /// The constant named `n`, if there is one.
    pub open spec fn constant_def(&self, n: NameView) -> Option<Constant> {
        if has_key(self.constant_entries(), n) {
            Some(self.constant_entries()[first_key_index(self.constant_entries(), n)].1)
        } else {
            None
        }
    }

    /// The type named `n` together with its name, as found in the model.
    pub open spec fn named_type<'a>(&'a self, n: NameView) -> Option<NamedTypeDefinition<'a>> {
        if has_key(self.type_entries(), n) {
            let e = self.type_entries()[first_key_index(self.type_entries(), n)];
            Some(match e.1 {
                TypeDefinition::StructType(d) => NamedTypeDefinition::StructType(Named { model: self, name: &e.0, value: &d }),
                TypeDefinition::EnumType(d) => NamedTypeDefinition::EnumType(Named { model: self, name: &e.0, value: &d }),
                TypeDefinition::ExternType(d) => NamedTypeDefinition::ExternType(Named { model: self, name: &e.0, value: &d }),
            })
        } else {
            None
        }
    }

    /// The named type is the type definition of that name, under that name.
    pub proof fn lemma_named_type(&self, n: NameView)
        ensures
            match self.named_type(n) {
                None => self.type_def(n) is None,
                Some(nt) => self.type_def(n) == Some(nt.definition()) && nt.name_view() == n,
            },
    {
        if has_key(self.type_entries(), n) {
            let k = choose|k: int| key_is(self.type_entries(), k, n);
            lemma_first_key_exists(self.type_entries(), n, k);
        }
    }

    /// Finds a type in the model.
    pub fn get_type<'a>(&'a self, name: &QualifiedName) -> (r: Option<NamedTypeDefinition<'a>>)
        ensures
            match self.type_def(name@) {
                None => r is None,
                Some(d) => r matches Some(nt) && nt.definition() == d && nt.name_view() == name@,
            },
            r == self.named_type(name@),
    {
        match find_entry(&self.type_definitions, name) {
            None => None,
            Some(i) => {
                proof {
                    lemma_first_key(self.type_entries(), i as int, name@);
                }
                let entry = &self.type_definitions[i];
                Some(match &entry.1 {
                    TypeDefinition::StructType(t) => NamedTypeDefinition::StructType(Named { model: self, name: &entry.0, value: t }),
                    TypeDefinition::EnumType(t) => NamedTypeDefinition::EnumType(Named { model: self, name: &entry.0, value: t }),
                    TypeDefinition::ExternType(t) => NamedTypeDefinition::ExternType(Named { model: self, name: &entry.0, value: t }),
                })
            },
        }
    }

    /// Finds a constant in the model.
    pub fn get_constant<'a>(&'a self, name: &QualifiedName) -> (r: Option<Named<'a, Constant>>)
        ensures
            match self.constant_def(name@) {
                None => r is None,
                Some(c) => r matches Some(nc) && *nc.value == c && nc.name@ == name@ && nc.model == self
                    && *nc.name == self.constant_entries()[first_key_index(self.constant_entries(), name@)].0,
            },
    {
        match find_entry(&self.constants, name) {
            None => None,
            Some(i) => {
                proof {
                    lemma_first_key(self.constant_entries(), i as int, name@);
                }
                let entry = &self.constants[i];
                Some(Named { model: self, name: &entry.0, value: &entry.1 })
            },
        }
    }

    /// Whether a type with this name exists.
    pub fn has_type(&self, name: &QualifiedName) -> (r: bool)
        ensures
            r == has_key(self.type_entries(), name@),
    {
        find_entry(&self.type_definitions, name).is_some()
    }

    /// Whether a constant with this name exists.
    pub fn has_constant(&self, name: &QualifiedName) -> (r: bool)
        ensures
            r == has_key(self.constant_entries(), name@),
    {
        find_entry(&self.constants, name).is_some()
    }

    /// The number of types in the model.
    pub fn type_count(&self) -> (r: usize)
        ensures
            r == self.type_entries().len(),
    {
        self.type_definitions.len()
    }

    /// The number of constants in the model.
    pub fn constant_count(&self) -> (r: usize)
        ensures
            r == self.constant_entries().len(),
    {
        self.constants.len()
    }

    /// The type added `i`-th.
    pub fn type_at<'a>(&'a self, i: usize) -> (r: NamedTypeDefinition<'a>)
        requires
            i < self.type_entries().len(),
        ensures
            r.definition() == self.type_entries()[i as int].1,
            r.name_view() == self.type_entries()[i as int].0@,
            r.is_in(self, self.type_entries()[i as int].0),
    {
        let entry = &self.type_definitions[i];
        match &entry.1 {
            TypeDefinition::StructType(t) => NamedTypeDefinition::StructType(Named { model: self, name: &entry.0, value: t }),
            TypeDefinition::EnumType(t) => NamedTypeDefinition::EnumType(Named { model: self, name: &entry.0, value: t }),
            TypeDefinition::ExternType(t) => NamedTypeDefinition::ExternType(Named { model: self, name: &entry.0, value: t }),
        }
    }

    /// The constant added `i`-th.
    pub fn constant_at<'a>(&'a self, i: usize) -> (r: Named<'a, Constant>)
        requires
            i < self.constant_entries().len(),
        ensures
            *r.value == self.constant_entries()[i as int].1,
            r.name@ == self.constant_entries()[i as int].0@,
            r.model == self,
            *r.name == self.constant_entries()[i as int].0,
    {
        let entry = &self.constants[i];
        Named { model: self, name: &entry.0, value: &entry.1 }
    }
}

/// The names that entries have, in order.
pub open spec fn keys_of<A>(entries: Seq<(QualifiedName, A)>) -> Seq<NameView> {
    entries.map_values(|e: (QualifiedName, A)| e.0@)
}

/// The position of the first incoming name that clashes, ASCII case ignored,
/// with a name taken before it: one of `taken`, or an earlier incoming name.
pub open spec fn first_clash(taken: Seq<NameView>, incoming: Seq<NameView>) -> Option<nat>
    decreases incoming.len(),
{
    if incoming.len() == 0 {
        None
    } else if names_contain(taken, upper_name(incoming[0])) {
        Some(0)
    } else {
        match first_clash(taken.push(upper_name(incoming[0])), incoming.drop_first()) {
            Some(k) => Some(k + 1),
            None => None,
        }
    }
}

/// `c` shifted by `k` positions.
pub open spec fn shift_clash(c: Option<nat>, k: nat) -> Option<nat> {
    match c {
        Some(j) => Some(j + k),
        None => None,
    }
}

/// The greater of two versions.
pub open spec fn max_nat(a: nat, b: nat) -> nat {
    if a < b { b } else { a }
}

impl Verilization {
    /// The names that the other model brings, constants first, in the order
    /// they were added there.
    pub open spec fn incoming_names(other: Verilization) -> Seq<NameView> {
        keys_of(other.constant_entries()) + keys_of(other.type_entries())
    }

    /// Adds the constants and then the types of another model, in the order
    /// they were added there, and keeps the later of the two latest versions.
    /// Stops at the first name that is already taken, ASCII case ignored, and
    /// fails with it; what was added before it stays.
    pub fn merge(&mut self, other: Verilization) -> (r: Result<(), QualifiedName>)
        requires
            old(self).wf(),
        ensures
            final(self).wf(),
            final(self).names_unique(),
            final(self).latest() == max_nat(old(self).latest(), other.latest()),
            ({
                let incoming = Verilization::incoming_names(other);
                let clash = first_clash(old(self).taken_names(), incoming);
                let nc = other.constant_entries().len();
                &&& r is Ok <==> clash is None
                &&& r matches Err(n) ==> clash matches Some(k) && n@ == incoming[k as int]
                &&& clash is None ==> final(self).constant_entries() == old(self).constant_entries() + other.constant_entries()
                    && final(self).type_entries() == old(self).type_entries() + other.type_entries()
                    && final(self).taken_names() == old(self).taken_names() + incoming.map_values(|n: NameView| upper_name(n))
                &&& clash is Some && clash.unwrap() < nc ==> final(self).constant_entries()
                    == old(self).constant_entries() + other.constant_entries().take(clash.unwrap() as int)
                    && final(self).type_entries() == old(self).type_entries()
                &&& clash is Some && clash.unwrap() >= nc ==> final(self).constant_entries()
                    == old(self).constant_entries() + other.constant_entries()
                    && final(self).type_entries() == old(self).type_entries() + other.type_entries().take(clash.unwrap() - nc)
            }),
    {
        let ghost old_self = *self;
        let ghost incoming = Verilization::incoming_names(other);
        let ghost oc = other.constants@;
        let ghost ot = other.type_definitions@;
        let Verilization { metadata: other_metadata, constants: mut other_constants, type_definitions: mut other_types, names: _ } = other;
        if self.metadata.latest_version.lt(&other_metadata.latest_version) {
            self.metadata.latest_version = other_metadata.latest_version;
        }
        proof {
            lemma_wf_same_entries(old_self, *self);
        }
        let ghost nc = oc.len();
        assert(incoming.len() == oc.len() + ot.len());
        let mut k: usize = 0;
        let const_total = other_constants.len();
        assert(const_total == oc.len());
        assert(incoming.skip(0) =~= incoming);
        assert(self.taken_names() == old_self.taken_names());
        assert(self.taken_names() =~= old_self.taken_names() + incoming.take(0).map_values(|n: NameView| upper_name(n)));
        while other_constants.len() > 0
            invariant
                self.wf(),
                *old(self) == old_self,
                incoming == Verilization::incoming_names(other),
                oc == other.constants@,
                ot == other.type_definitions@,
                self.latest() == max_nat(old_self.latest(), other.latest()),
                nc == oc.len(),
                oc.len() <= usize::MAX,
                k + other_constants@.len() == nc,
                self.taken_names() == old_self.taken_names() + incoming.take(k as int).map_values(|n: NameView| upper_name(n)),
                other_constants@ == oc.skip(k as int),
                self.constants@ == old_self.constants@ + oc.take(k as int),
                self.type_definitions@ == old_self.type_definitions@,
                incoming == keys_of(oc) + keys_of(ot),
                incoming.len() == oc.len() + ot.len(),
                first_clash(old_self.taken_names(), incoming) == shift_clash(first_clash(self.taken_names(), incoming.skip(k as int)), k as nat),
            decreases other_constants@.len(),
        {
            let (name, constant) = other_constants.remove(0);
            let ghost rest = incoming.skip(k as int);
            assert(name@ == oc[k as int].0@);
            assert(keys_of(oc)[k as int] == oc[k as int].0@);
            assert(incoming[k as int] == keys_of(oc)[k as int]);
            assert(rest[0] == name@);
            assert(rest.drop_first() =~= incoming.skip(k as int + 1));
            let ghost taken = self.taken_names();
            match self.add_constant(name, constant) {
                Err(n) => {
                    assert(first_clash(taken, rest) == Some(0nat));
                    assert(self.constants@ == old_self.constants@ + oc.take(k as int));
                    assert(self.latest() == max_nat(old(self).latest(), other.latest()));
                    assert(first_clash(old_self.taken_names(), incoming) == Some(k as nat));
                    assert(n@ == incoming[k as int]);
                        return Err(n);
                },
                Ok(()) => {},
            }
            proof {
                assert(oc.take(k as int + 1) =~= oc.take(k as int).push(oc[k as int]));
                assert(other_constants@ =~= oc.skip(k as int + 1));
                assert(incoming.take(k as int + 1).map_values(|n: NameView| upper_name(n))
                    =~= incoming.take(k as int).map_values(|n: NameView| upper_name(n)).push(upper_name(incoming[k as int])));
                assert(self.taken_names() =~= old_self.taken_names() + incoming.take(k as int + 1).map_values(|n: NameView| upper_name(n)));
            }
            k = k + 1;
        }
        let mut m: usize = 0;
        let type_total = other_types.len();
        assert(type_total == ot.len());
        while other_types.len() > 0
            invariant
                self.wf(),
                *old(self) == old_self,
                incoming == Verilization::incoming_names(other),
                oc == other.constants@,
                ot == other.type_definitions@,
                self.latest() == max_nat(old_self.latest(), other.latest()),
                k == nc,
                nc == oc.len(),
                ot.len() <= usize::MAX,
                m + other_types@.len() == ot.len(),
                self.taken_names() == old_self.taken_names() + incoming.take(k + m).map_values(|n: NameView| upper_name(n)),
                other_types@ == ot.skip(m as int),
                self.constants@ == old_self.constants@ + oc,
                self.type_definitions@ == old_self.type_definitions@ + ot.take(m as int),
                incoming == keys_of(oc) + keys_of(ot),
                incoming.len() == oc.len() + ot.len(),
                first_clash(old_self.taken_names(), incoming) == shift_clash(first_clash(self.taken_names(), incoming.skip(k + m)), (k + m) as nat),
            decreases other_types@.len(),
        {
            let (name, t) = other_types.remove(0);
            let ghost rest = incoming.skip(k + m);
            assert(name@ == ot[m as int].0@);
            assert(keys_of(ot)[m as int] == ot[m as int].0@);
            assert(incoming[k + m] == keys_of(ot)[m as int]);
            assert(rest[0] == name@);
            assert(rest.drop_first() =~= incoming.skip(k + m + 1));
            let ghost taken = self.taken_names();
            match self.add_type(name, t) {
                Err(n) => {
                    assert(first_clash(taken, rest) == Some(0nat));
                    assert(self.latest() == max_nat(old_self.latest(), other.latest()));
                    assert(first_clash(old_self.taken_names(), incoming) == Some((k + m) as nat));
                    assert(n@ == incoming[k + m]);
                    assert(self.constants@ == old_self.constants@ + oc);
                    assert(self.type_definitions@ == old_self.type_definitions@ + ot.take(m as int));
                    return Err(n);
                },
                Ok(()) => {},
            }
            proof {
                assert(ot.take(m as int + 1) =~= ot.take(m as int).push(ot[m as int]));
                assert(other_types@ =~= ot.skip(m as int + 1));
                assert(incoming.take(k + m + 1).map_values(|n: NameView| upper_name(n))
                    =~= incoming.take(k + m).map_values(|n: NameView| upper_name(n)).push(upper_name(incoming[k + m])));
                assert(self.taken_names() =~= old_self.taken_names() + incoming.take(k + m + 1).map_values(|n: NameView| upper_name(n)));
            }
            m = m + 1;
        }
        proof {
            assert(oc.take(k as int) =~= oc);
            assert(ot.take(m as int) =~= ot);
            assert(incoming.take(k + m) =~= incoming);
            assert(incoming.skip(k + m).len() == 0);
        }
        Ok(())
    }
}

/// Whatever the model, a type added under a name that no constant or type
/// takes, ASCII case ignored, is what looking that name up finds afterwards.
pub proof fn lemma_added_type_found(before: Verilization, after: Verilization, name: QualifiedName, t: TypeDefinition)
    requires
        before.wf(),
        !names_contain(before.taken_names(), upper_name(name@)),
        after.type_entries() == before.type_entries().push((name, t)),
    ensures
        after.type_def(name@) == Some(t),
{
    let es = after.type_entries();
    let k = before.type_entries().len() as int;
    assert forall|j: int| 0 <= j < k implies es[j].0@ != name@ by {
        assert(es[j] == before.type_definitions@[j]);
        if es[j].0@ == name@ {
            assert(names_contain(before.taken_names(), upper_name(before.type_definitions@[j].0@)));
        }
    }
    assert(is_first_key(es, k, name@));
    lemma_first_key(es, k, name@);
}

/// Whatever the model, a constant added under a name that no constant or
/// type takes, ASCII case ignored, is what looking that name up finds
/// afterwards.
pub proof fn lemma_added_constant_found(before: Verilization, after: Verilization, name: QualifiedName, c: Constant)
    requires
        before.wf(),
        !names_contain(before.taken_names(), upper_name(name@)),
        after.constant_entries() == before.constant_entries().push((name, c)),
    ensures
        after.constant_def(name@) == Some(c),
{
    let es = after.constant_entries();
    let k = before.constant_entries().len() as int;
    assert forall|j: int| 0 <= j < k implies es[j].0@ != name@ by {
        assert(es[j] == before.constants@[j]);
        if es[j].0@ == name@ {
            assert(names_contain(before.taken_names(), upper_name(before.constants@[j].0@)));
        }
    }
    assert(is_first_key(es, k, name@));
    lemma_first_key(es, k, name@);
}

/// An entry with a key means there is a first entry with that key.
proof fn lemma_first_key_exists<A>(entries: Seq<(QualifiedName, A)>, n: NameView, k: int)
    requires
        key_is(entries, k, n),
    ensures
        is_first_key(entries, first_key_index(entries, n), n),
    decreases k,
{
    if exists|j: int| 0 <= j < k && key_is(entries, j, n) {
        let j = choose|j: int| 0 <= j < k && key_is(entries, j, n);
        lemma_first_key_exists(entries, n, j);
    } else {
        assert forall|j: int| 0 <= j < k implies entries[j].0@ != n by {
            if entries[j].0@ == n {
                assert(key_is(entries, j, n));
            }
        }
        assert(is_first_key(entries, k, n));
    }
}

/// With no clash, no incoming name is among the taken names.
proof fn lemma_no_clash(taken: Seq<NameView>, incoming: Seq<NameView>)
    requires
        first_clash(taken, incoming) is None,
    ensures
        forall|j: int| 0 <= j < incoming.len() ==> !names_contain(taken, upper_name(#[trigger] incoming[j])),
    decreases incoming.len(),
{
    if incoming.len() > 0 {
        let next = taken.push(upper_name(incoming[0]));
        lemma_no_clash(next, incoming.drop_first());
        lemma_names_grow(taken, upper_name(incoming[0]));
        assert forall|j: int| 0 <= j < incoming.len() implies !names_contain(taken, upper_name(#[trigger] incoming[j])) by {
            if j > 0 {
                assert(incoming.drop_first()[j - 1] == incoming[j]);
            }
        }
    }
}

/// Whatever the model, no two of its constants and types have names that
/// are the same once upper-cased: each of `new`, `add_constant`,
/// `add_type` and `merge` keeps this.
pub proof fn lemma_names_stay_unique(m: Verilization)
    requires
        m.wf(),
    ensures
        m.names_unique(),
{
}

/// A name not pushed is held by a list with one more name exactly when it
/// is held by the list.
proof fn lemma_contain_push(t: Seq<NameView>, x: NameView, y: NameView)
    requires
        x != y,
    ensures
        names_contain(t.push(x), y) <==> names_contain(t, y),
{
    if names_contain(t.push(x), y) {
        let k = choose|k: int| 0 <= k < t.push(x).len() && t.push(x)[k] == y;
        assert(k < t.len());
        assert(t[k] == y);
    }
    if names_contain(t, y) {
        let k = choose|k: int| 0 <= k < t.len() && t[k] == y;
        assert(t.push(x)[k] == y);
    }
}

/// Where the incoming names differ once upper-cased, the first clash is the
/// first incoming name whose upper-cased form is taken.
proof fn lemma_first_clash_distinct(taken: Seq<NameView>, inc: Seq<NameView>)
    requires
        forall|i: int, j: int| 0 <= i < j < inc.len() ==> upper_name(#[trigger] inc[i]) != upper_name(#[trigger] inc[j]),
    ensures
        match first_clash(taken, inc) {
            None => forall|i: int| 0 <= i < inc.len() ==> !names_contain(taken, upper_name(#[trigger] inc[i])),
            Some(k) => k < inc.len() && names_contain(taken, upper_name(inc[k as int]))
                && forall|i: int| 0 <= i < k ==> !names_contain(taken, upper_name(#[trigger] inc[i])),
        },
    decreases inc.len(),
{
    if inc.len() > 0 && !names_contain(taken, upper_name(inc[0])) {
        let u0 = upper_name(inc[0]);
        let rest = inc.drop_first();
        assert forall|i: int, j: int| 0 <= i < j < rest.len() implies upper_name(#[trigger] rest[i]) != upper_name(#[trigger] rest[j]) by {
            assert(rest[i] == inc[i + 1] && rest[j] == inc[j + 1]);
        }
        lemma_first_clash_distinct(taken.push(u0), rest);
        assert forall|i: int| 0 <= i < rest.len() implies (names_contain(taken.push(u0), upper_name(#[trigger] rest[i]))
            <==> names_contain(taken, upper_name(rest[i]))) by {
            assert(rest[i] == inc[i + 1]);
            lemma_contain_push(taken, u0, upper_name(rest[i]));
        }
        match first_clash(taken.push(u0), rest) {
            None => {
                assert forall|i: int| 0 <= i < inc.len() implies !names_contain(taken, upper_name(#[trigger] inc[i])) by {
                    if i > 0 {
                        assert(inc[i] == rest[i - 1]);
                    }
                }
            },
            Some(k) => {
                assert(inc[k + 1 as int] == rest[k as int]);
                assert forall|i: int| 0 <= i < k + 1 implies !names_contain(taken, upper_name(#[trigger] inc[i])) by {
                    if i > 0 {
                        assert(inc[i] == rest[i - 1]);
                    }
                }
            },
        }
    }
}

/// Whatever the two well-formed models, merging the second into the first
/// fails exactly when one of the second's names clashes, ASCII case
/// ignored, with a name of the first, and then with the first such name, in
/// the order of the second's constants and then its types.
pub proof fn lemma_merge_clash(before: Verilization, other: Verilization)
    requires
        before.wf(),
        other.wf(),
    ensures
        ({
            let inc = Verilization::incoming_names(other);
            match first_clash(before.taken_names(), inc) {
                None => forall|i: int| 0 <= i < inc.len() ==> !before.clashes(#[trigger] inc[i]),
                Some(k) => k < inc.len() && before.clashes(inc[k as int])
                    && forall|i: int| 0 <= i < k ==> !before.clashes(#[trigger] inc[i]),
            }
        }),
{
    let inc = Verilization::incoming_names(other);
    let oc = other.constant_entries();
    let ot = other.type_entries();
    assert(other.names_unique());
    assert forall|i: int, j: int| 0 <= i < j < inc.len() implies upper_name(#[trigger] inc[i]) != upper_name(#[trigger] inc[j]) by {
        if j < oc.len() {
            assert(inc[i] == oc[i].0@ && inc[j] == oc[j].0@);
        } else if i < oc.len() {
            assert(inc[i] == oc[i].0@ && inc[j] == ot[j - oc.len()].0@);
        } else {
            assert(inc[i] == ot[i - oc.len()].0@ && inc[j] == ot[j - oc.len()].0@);
        }
    }
    lemma_first_clash_distinct(before.taken_names(), inc);
    assert forall|i: int| 0 <= i < inc.len() implies (names_contain(before.taken_names(), upper_name(#[trigger] inc[i]))
        <==> before.clashes(inc[i])) by {
        lemma_taken_iff_defined(before, upper_name(inc[i]));
    }
}

/// A merge that succeeds keeps what every name of the model meant, and every
/// name the other model brings means there what it meant in the other model.
pub proof fn lemma_merge_lookups(before: Verilization, other: Verilization, after: Verilization)
    requires
        before.wf(),
        other.wf(),
        first_clash(before.taken_names(), Verilization::incoming_names(other)) is None,
        after.constant_entries() == before.constant_entries() + other.constant_entries(),
        after.type_entries() == before.type_entries() + other.type_entries(),
    ensures
        forall|n: NameView| #[trigger] before.type_def(n) is Some ==> after.type_def(n) == before.type_def(n),
        forall|n: NameView| #[trigger] before.constant_def(n) is Some ==> after.constant_def(n) == before.constant_def(n),
        forall|n: NameView| #[trigger] other.type_def(n) is Some ==> after.type_def(n) == other.type_def(n),
        forall|n: NameView| #[trigger] other.constant_def(n) is Some ==> after.constant_def(n) == other.constant_def(n),
{
    let incoming = Verilization::incoming_names(other);
    let nc = other.constant_entries().len();
    lemma_no_clash(before.taken_names(), incoming);
    let bt = before.type_entries();
    let bc = before.constant_entries();
    let ot = other.type_entries();
    let oc = other.constant_entries();
    let at = after.type_entries();
    let ac = after.constant_entries();
    assert forall|n: NameView| #[trigger] before.type_def(n) is Some implies after.type_def(n) == before.type_def(n) by {
        lemma_first_key_exists(bt, n, choose|k: int| key_is(bt, k, n));
        let i = first_key_index(bt, n);
        assert(at[i] == bt[i]);
        assert(is_first_key(at, i, n));
        lemma_first_key(at, i, n);
    }
    assert forall|n: NameView| #[trigger] before.constant_def(n) is Some implies after.constant_def(n) == before.constant_def(n) by {
        lemma_first_key_exists(bc, n, choose|k: int| key_is(bc, k, n));
        let i = first_key_index(bc, n);
        assert(ac[i] == bc[i]);
        assert(is_first_key(ac, i, n));
        lemma_first_key(ac, i, n);
    }
    assert forall|n: NameView| #[trigger] other.type_def(n) is Some implies after.type_def(n) == other.type_def(n) by {
        lemma_first_key_exists(ot, n, choose|k: int| key_is(ot, k, n));
        let i = first_key_index(ot, n);
        assert(incoming[nc + i] == ot[i].0@);
        assert forall|j: int| 0 <= j < bt.len() implies at[j].0@ != n by {
            assert(at[j] == before.type_definitions@[j]);
            if at[j].0@ == n {
                assert(names_contain(before.taken_names(), upper_name(before.type_definitions@[j].0@)));
            }
        }
        assert forall|j: int| 0 <= j < i implies ot[j].0@ != n by {
            assert(other.type_definitions@[j].0@ != other.type_definitions@[i].0@);
        }
        assert(is_first_key(at, bt.len() + i, n));
        lemma_first_key(at, bt.len() + i, n);
    }
    assert forall|n: NameView| #[trigger] other.constant_def(n) is Some implies after.constant_def(n) == other.constant_def(n) by {
        lemma_first_key_exists(oc, n, choose|k: int| key_is(oc, k, n));
        let i = first_key_index(oc, n);
        assert(incoming[i] == oc[i].0@);
        assert forall|j: int| 0 <= j < bc.len() implies ac[j].0@ != n by {
            assert(ac[j] == before.constants@[j]);
            if ac[j].0@ == n {
                assert(names_contain(before.taken_names(), upper_name(before.constants@[j].0@)));
            }
        }
        assert forall|j: int| 0 <= j < i implies oc[j].0@ != n by {
            assert(other.constants@[j].0@ != other.constants@[i].0@);
        }
        assert(is_first_key(ac, bc.len() + i, n));
        lemma_first_key(ac, bc.len() + i, n);
    }
}

/// A struct or enum without a new definition between two versions uses, at
/// the later one, the definition in effect at the earlier one, as long as
/// the later one does not pass the latest version of its format; a type that
/// is not final reports the later version as its own.
pub proof fn lemma_definition_carried_forward(d: VersionedTypeDefinitionData, v1: nat, v2: nat)
    requires
        has_version_at(d.versions@, v1),
        v1 <= v2 <= d.latest_version@,
        forall|j: int| 0 <= j < d.versions@.len() ==> !(v1 < #[trigger] d.versions@[j].0@ <= v2),
    ensures
        d.version_in_effect(v2) matches Some((_, i)) && i == version_index(d.versions@, v1),
        !d.is_final ==> d.version_in_effect(v2) == Some((v2, version_index(d.versions@, v1))),
{
    let vs = d.versions@;
    lemma_version_at_exists(vs, v1);
    let i = version_index(vs, v1);
    assert(is_version_at(vs, v2, i));
    lemma_version_index(vs, v2, i);
}

/// The names written in a type: its own, then those of its arguments in
/// order, each argument's own before those of its arguments.
pub open spec fn type_names(t: Type) -> Seq<NameView>
    decreases t, 0nat,
{
    seq![t.name@] + types_names(t.args@)
}

/// The names written in a list of types, in order.
pub open spec fn types_names(ts: Seq<Type>) -> Seq<NameView>
    decreases ts, ts.len(),
{
    if ts.len() == 0 {
        Seq::empty()
    } else {
        types_names(ts.subrange(0, ts.len() - 1)) + type_names(ts[ts.len() - 1])
    }
}

/// The names written in the types of a list of fields, in order.
pub open spec fn fields_names(fs: Seq<(String, FieldInfo)>) -> Seq<NameView>
    decreases fs.len(),
{
    if fs.len() == 0 {
        Seq::empty()
    } else {
        fields_names(fs.drop_last()) + type_names(fs.last().1.field_type)
    }
}

/// The names written in the field types of the versions of a type, in order.
pub open spec fn versions_names(vs: Seq<(BigNat, TypeVersionDefinition)>) -> Seq<NameView>
    decreases vs.len(),
{
    if vs.len() == 0 {
        Seq::empty()
    } else {
        versions_names(vs.drop_last()) + fields_names(vs.last().1.fields@)
    }
}

/// `acc` followed by the names of `s` that are not in it yet, each once, in
/// the order they first come.
pub open spec fn add_unseen(acc: Seq<NameView>, s: Seq<NameView>) -> Seq<NameView>
    decreases s.len(),
{
    if s.len() == 0 {
        acc
    } else {
        let a = add_unseen(acc, s.drop_last());
        if a.contains(s.last()) {
            a
        } else {
            a.push(s.last())
        }
    }
}

/// The views of a list of names.
pub open spec fn names_of(v: Seq<QualifiedName>) -> Seq<NameView> {
    v.map_values(|q: QualifiedName| q@)
}

/// Adding the names of two lists one after the other adds those of both.
pub proof fn lemma_add_unseen_concat(acc: Seq<NameView>, a: Seq<NameView>, b: Seq<NameView>)
    ensures
        add_unseen(acc, a + b) == add_unseen(add_unseen(acc, a), b),
    decreases b.len(),
{
    if b.len() == 0 {
        assert(a + b =~= a);
    } else {
        assert((a + b).drop_last() =~= a + b.drop_last());
        assert((a + b).last() == b.last());
        lemma_add_unseen_concat(acc, a, b.drop_last());
    }
}

/// Whatever the names, the list of those not seen yet holds every name of
/// both lists and, when the first list has no name twice, no name twice.
pub proof fn lemma_add_unseen_members(acc: Seq<NameView>, s: Seq<NameView>)
    ensures
        forall|x: NameView| add_unseen(acc, s).contains(x) <==> (acc.contains(x) || s.contains(x)),
        acc.no_duplicates() ==> add_unseen(acc, s).no_duplicates(),
    decreases s.len(),
{
    if s.len() > 0 {
        let p = s.drop_last();
        lemma_add_unseen_members(acc, p);
        let a = add_unseen(acc, p);
        assert forall|x: NameView| add_unseen(acc, s).contains(x) <==> (acc.contains(x) || s.contains(x)) by {
            if s.contains(x) && !p.contains(x) {
                assert(x == s.last()) by {
                    let i = choose|i: int| 0 <= i < s.len() && s[i] == x;
                    if i < s.len() - 1 {
                        assert(p[i] == x);
                    }
                }
            }
            if p.contains(x) {
                let i = choose|i: int| 0 <= i < p.len() && p[i] == x;
                assert(s[i] == x);
            }
            if !a.contains(s.last()) && a.push(s.last()).contains(x) && x != s.last() {
                let i = choose|i: int| 0 <= i < a.len() + 1 && a.push(s.last())[i] == x;
                assert(a[i] == x);
            }
            if a.contains(x) && !a.contains(s.last()) {
                let i = choose|i: int| 0 <= i < a.len() && a[i] == x;
                assert(a.push(s.last())[i] == x);
            }
            if x == s.last() && !a.contains(s.last()) {
                assert(a.push(s.last())[a.len() as int] == x);
            }
            assert(s.last() == s[s.len() - 1]);
        }
    }
}

/// Whether some name of the list is `n`.
fn contains_name(v: &Vec<QualifiedName>, n: &QualifiedName) -> (r: bool)
    ensures
        r == names_of(v@).contains(n@),
{
    let mut i: usize = 0;
    while i < v.len()
        invariant
            i <= v@.len(),
            forall|j: int| 0 <= j < i ==> v@[j]@ != n@,
        decreases v@.len() - i,
    {
        if v[i].equals(n) {
            assert(names_of(v@)[i as int] == n@);
            return true;
        }
        i = i + 1;
    }
    assert(!names_of(v@).contains(n@)) by {
        if names_of(v@).contains(n@) {
            let j = choose|j: int| 0 <= j < v@.len() && names_of(v@)[j] == n@;
            assert(v@[j]@ == n@);
        }
    }
    false
}

/// Adds the names written in `t` that `acc` does not hold yet.
fn collect_type_names(t: &Type, acc: &mut Vec<QualifiedName>)
    ensures
        names_of(final(acc)@) == add_unseen(names_of(old(acc)@), type_names(*t)),
    decreases t,
{
    let ghost start = names_of(acc@);
    if !contains_name(acc, &t.name) {
        acc.push(t.name.copy());
        assert(names_of(acc@) =~= start.push(t.name@));
    }
    assert(seq![t.name@].drop_last() =~= Seq::<NameView>::empty());
    assert(add_unseen(start, Seq::<NameView>::empty()) == start);
    assert(seq![t.name@].last() == t.name@);
    assert(names_of(acc@) == add_unseen(start, seq![t.name@]));
    assert(seq![t.name@] + types_names(t.args@.subrange(0, 0)) =~= seq![t.name@]);
    let mut i: usize = 0;
    while i < t.args.len()
        invariant
            i <= t.args@.len(),
            names_of(acc@) == add_unseen(start, seq![t.name@] + types_names(t.args@.subrange(0, i as int))),
        decreases t.args@.len() - i,
    {
        let ghost before = names_of(acc@);
        let ghost pre = seq![t.name@] + types_names(t.args@.subrange(0, i as int));
        collect_type_names(&t.args[i], acc);
        proof {
            lemma_add_unseen_concat(start, pre, type_names(t.args@[i as int]));
            assert(t.args@.subrange(0, i as int + 1).subrange(0, i as int) =~= t.args@.subrange(0, i as int));
            assert(pre + type_names(t.args@[i as int]) =~= seq![t.name@] + types_names(t.args@.subrange(0, i as int + 1)));
        }
        i = i + 1;
    }
    assert(t.args@.subrange(0, i as int) =~= t.args@);
}

/// Adds the names written in the types of the fields that `acc` does not
/// hold yet.
fn collect_field_names(fs: &Vec<(String, FieldInfo)>, acc: &mut Vec<QualifiedName>)
    ensures
        names_of(final(acc)@) == add_unseen(names_of(old(acc)@), fields_names(fs@)),
{
    let ghost start = names_of(acc@);
    assert(fields_names(fs@.take(0)) =~= Seq::<NameView>::empty());
    let mut i: usize = 0;
    while i < fs.len()
        invariant
            i <= fs@.len(),
            names_of(acc@) == add_unseen(start, fields_names(fs@.take(i as int))),
        decreases fs@.len() - i,
    {
        let ghost pre = fields_names(fs@.take(i as int));
        collect_type_names(&fs[i].1.field_type, acc);
        proof {
            lemma_add_unseen_concat(start, pre, type_names(fs@[i as int].1.field_type));
            assert(fs@.take(i as int + 1).drop_last() =~= fs@.take(i as int));
        }
        i = i + 1;
    }
    assert(fs@.take(i as int) =~= fs@);
}

impl VersionedTypeDefinitionData {
    /// The names written in the field types of all versions of the type, each
    /// once, in the order they first come.
    pub fn referenced_types(&self) -> (r: Vec<QualifiedName>)
        ensures
            names_of(r@) == add_unseen(Seq::empty(), versions_names(self.versions@)),
            names_of(r@).no_duplicates(),
            forall|x: NameView| names_of(r@).contains(x) <==> versions_names(self.versions@).contains(x),
    {
        let mut acc: Vec<QualifiedName> = Vec::new();
        assert(names_of(acc@) =~= Seq::<NameView>::empty());
        assert(versions_names(self.versions@.take(0)) =~= Seq::<NameView>::empty());
        let mut i: usize = 0;
        while i < self.versions.len()
            invariant
                i <= self.versions@.len(),
                names_of(acc@) == add_unseen(Seq::empty(), versions_names(self.versions@.take(i as int))),
            decreases self.versions@.len() - i,
        {
            let ghost pre = versions_names(self.versions@.take(i as int));
            collect_field_names(&self.versions[i].1.fields, &mut acc);
            proof {
                lemma_add_unseen_concat(Seq::empty(), pre, fields_names(self.versions@[i as int].1.fields@));
                assert(self.versions@.take(i as int + 1).drop_last() =~= self.versions@.take(i as int));
            }
            i = i + 1;
        }
        assert(self.versions@.take(i as int) =~= self.versions@);
        proof {
            lemma_add_unseen_members(Seq::empty(), versions_names(self.versions@));
            assert(Seq::<NameView>::empty().no_duplicates());
        }
        acc
    }
}

impl Constant {
    /// The names written in the type of the constant, each once, in the order
    /// they first come.
    pub fn referenced_types(&self) -> (r: Vec<QualifiedName>)
        ensures
            names_of(r@) == add_unseen(Seq::empty(), type_names(self.value_type)),
            names_of(r@).no_duplicates(),
            forall|x: NameView| names_of(r@).contains(x) <==> type_names(self.value_type).contains(x),
    {
        let mut acc: Vec<QualifiedName> = Vec::new();
        assert(names_of(acc@) =~= Seq::<NameView>::empty());
        collect_type_names(&self.value_type, &mut acc);
        proof {
            lemma_add_unseen_members(Seq::empty(), type_names(self.value_type));
            assert(Seq::<NameView>::empty().no_duplicates());
        }
        acc
    }
}

impl Verilization {
    /// The types of the model with their names, in the order they were added.
    pub fn types<'a>(&'a self) -> (r: Vec<NamedTypeDefinition<'a>>)
        ensures
            r@.len() == self.type_entries().len(),
            forall|i: int| 0 <= i < r@.len() ==> (#[trigger] r@[i]).definition() == self.type_entries()[i].1
                && r@[i].is_in(self, self.type_entries()[i].0),
    {
        let mut out: Vec<NamedTypeDefinition<'a>> = Vec::new();
        let mut i: usize = 0;
        while i < self.type_count()
            invariant
                i <= self.type_entries().len(),
                out@.len() == i,
                forall|k: int| 0 <= k < i ==> (#[trigger] out@[k]).definition() == self.type_entries()[k].1
                    && out@[k].is_in(self, self.type_entries()[k].0),
            decreases self.type_entries().len() - i,
        {
            out.push(self.type_at(i));
            i = i + 1;
        }
        out
    }

    /// The constants of the model with their names, in the order they were
    /// added.
    pub fn constants<'a>(&'a self) -> (r: Vec<Named<'a, Constant>>)
        ensures
            r@.len() == self.constant_entries().len(),
            forall|i: int| 0 <= i < r@.len() ==> *(#[trigger] r@[i]).value == self.constant_entries()[i].1
                && *r@[i].name == self.constant_entries()[i].0 && r@[i].model == self,
    {
        let mut out: Vec<Named<'a, Constant>> = Vec::new();
        let mut i: usize = 0;
        while i < self.constant_count()
            invariant
                i <= self.constant_entries().len(),
                out@.len() == i,
                forall|k: int| 0 <= k < i ==> *(#[trigger] out@[k]).value == self.constant_entries()[k].1
                    && *out@[k].name == self.constant_entries()[k].0 && out@[k].model == self,
            decreases self.constant_entries().len() - i,
        {
            out.push(self.constant_at(i));
            i = i + 1;
        }
        out
    }
}

} // verus!
