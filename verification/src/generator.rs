//! The language-neutral form of generated code: the types, expressions and
//! statements that each language's generator writes out, and how they are
//! built from the model.
use vstd::prelude::*;
use crate::bignum::{BigNat, decimal_text};
use crate::names::{QualifiedName, PackageName};
use crate::bignum::BigInt;
use crate::model::{
    Verilization, NameView, Type, ScopeLookup, ScopeLookupView, VersionedTypeDefinitionData,
    ExternTypeDefinitionData, TypeVersionDefinition, Named, NamedTypeDefinition, FieldInfo,
    ExternLiteralIntBound, ExternLiteralSpecifier, TypeDefinition, ConstantValue, TypeVersionInfo,
    version_list, Constant,
};
use crate::type_check::{last_named, lemma_last_named, find_last_named};
use crate::versions::{last_version, has_exact_version, version_index};
use crate::scope::Scope;
use crate::lang::VersionedTypeKind;
use crate::text::append_str;

verus! {

/// An error that stops code generation.
#[derive(Debug)]
pub enum GeneratorError {
    InvalidOptions(String),
    UnmappedPackage(PackageName),
    CouldNotFind(QualifiedName),
    CouldNotFindVersion(QualifiedName, BigNat),
    CouldNotResolveTypeParameter(String),
    TypeCannotBeSequence(QualifiedName),
    TypeDoesNotHaveCase(QualifiedName, Option<BigNat>, String),
    IncorrectCaseArity(QualifiedName, String),
    ArityMismatch(usize, usize),
    RecordLiteralNotForStruct,
    ExternTypeDoesNotHaveRecordLiteral(QualifiedName),
    CouldNotFindRecordField(QualifiedName, Option<BigNat>, String),
    CouldNotGenerateType,
    InvalidTypeForConstant,
    InvalidTypeForCodec,
    InvalidTypeForIntValue,
    InvalidTypeForString,
    TypeMismatch,
}

/// The view of a generation error.
pub enum GeneratorErrorV {
    InvalidOptions(Seq<char>),
    UnmappedPackage(Seq<Seq<char>>),
    CouldNotFind(NameView),
    CouldNotFindVersion(NameView, nat),
    CouldNotResolveTypeParameter(Seq<char>),
    TypeCannotBeSequence(NameView),
    TypeDoesNotHaveCase(NameView, Option<nat>, Seq<char>),
    IncorrectCaseArity(NameView, Seq<char>),
    ArityMismatch(nat, nat),
    RecordLiteralNotForStruct,
    ExternTypeDoesNotHaveRecordLiteral(NameView),
    CouldNotFindRecordField(NameView, Option<nat>, Seq<char>),
    CouldNotGenerateType,
    InvalidTypeForConstant,
    InvalidTypeForCodec,
    InvalidTypeForIntValue,
    InvalidTypeForString,
    TypeMismatch,
}

/// The view of an optional version.
pub open spec fn opt_nat(v: Option<BigNat>) -> Option<nat> {
    match v {
        Some(x) => Some(x@),
        None => None,
    }
}

impl View for GeneratorError {
    type V = GeneratorErrorV;

    open spec fn view(&self) -> GeneratorErrorV {
        match self {
            GeneratorError::InvalidOptions(m) => GeneratorErrorV::InvalidOptions(m@),
            GeneratorError::UnmappedPackage(p) => GeneratorErrorV::UnmappedPackage(p@),
            GeneratorError::CouldNotFind(n) => GeneratorErrorV::CouldNotFind(n@),
            GeneratorError::CouldNotFindVersion(n, v) => GeneratorErrorV::CouldNotFindVersion(n@, v@),
            GeneratorError::CouldNotResolveTypeParameter(p) => GeneratorErrorV::CouldNotResolveTypeParameter(p@),
            GeneratorError::TypeCannotBeSequence(n) => GeneratorErrorV::TypeCannotBeSequence(n@),
            GeneratorError::TypeDoesNotHaveCase(n, v, c) => GeneratorErrorV::TypeDoesNotHaveCase(n@, opt_nat(*v), c@),
            GeneratorError::IncorrectCaseArity(n, c) => GeneratorErrorV::IncorrectCaseArity(n@, c@),
            GeneratorError::ArityMismatch(a, b) => GeneratorErrorV::ArityMismatch(*a as nat, *b as nat),
            GeneratorError::RecordLiteralNotForStruct => GeneratorErrorV::RecordLiteralNotForStruct,
            GeneratorError::ExternTypeDoesNotHaveRecordLiteral(n) => GeneratorErrorV::ExternTypeDoesNotHaveRecordLiteral(n@),
            GeneratorError::CouldNotFindRecordField(n, v, f) => GeneratorErrorV::CouldNotFindRecordField(n@, opt_nat(*v), f@),
            GeneratorError::CouldNotGenerateType => GeneratorErrorV::CouldNotGenerateType,
            GeneratorError::InvalidTypeForConstant => GeneratorErrorV::InvalidTypeForConstant,
            GeneratorError::InvalidTypeForCodec => GeneratorErrorV::InvalidTypeForCodec,
            GeneratorError::InvalidTypeForIntValue => GeneratorErrorV::InvalidTypeForIntValue,
            GeneratorError::InvalidTypeForString => GeneratorErrorV::InvalidTypeForString,
            GeneratorError::TypeMismatch => GeneratorErrorV::TypeMismatch,
        }
    }
}

/// A type as the generated code uses it: a struct or enum at one of its
/// versions, an extern type, a type parameter, a converter between two types
/// or a codec of a type. The fields of a struct or enum and the literals of an
/// extern type are built only when asked for, so recursive types are fine.
pub enum LangType<'a> {
    Versioned(VersionedTypeKind, &'a QualifiedName, BigNat, Vec<LangType<'a>>, LangVerTypeFields<'a>),
    Extern(&'a QualifiedName, Vec<LangType<'a>>, LangExternTypeLiterals<'a>),
    TypeParameter(String),
    Converter(Box<LangType<'a>>, Box<LangType<'a>>),
    Codec(Box<LangType<'a>>),
}

/// What is needed to build the fields of a struct or enum at a version: the
/// types its parameters stand for, its definition and the definition in
/// effect at that version.
pub struct LangVerTypeFields<'a> {
    pub type_args: Vec<(String, LangType<'a>)>,
    pub type_def: Named<'a, VersionedTypeDefinitionData>,
    pub version: BigNat,
    pub ver_type: &'a TypeVersionDefinition,
}

/// What is needed to build the literals of an extern type: the types its
/// parameters stand for and its definition.
pub struct LangExternTypeLiterals<'a> {
    pub type_args: Vec<(String, LangType<'a>)>,
    pub type_def: Named<'a, ExternTypeDefinitionData>,
}

/// The view of a type of the generated code.
pub enum LangTypeV<'a> {
    Versioned(VersionedTypeKind, NameView, nat, Seq<LangTypeV<'a>>, FieldsV<'a>),
    Extern(NameView, Seq<LangTypeV<'a>>, LiteralsV<'a>),
    TypeParameter(Seq<char>),
    Converter(Box<LangTypeV<'a>>, Box<LangTypeV<'a>>),
    Codec(Box<LangTypeV<'a>>),
}

/// The view of what builds the fields of a struct or enum.
pub struct FieldsV<'a> {
    pub type_args: Seq<(Seq<char>, LangTypeV<'a>)>,
    pub type_def: Named<'a, VersionedTypeDefinitionData>,
    pub version: nat,
    pub ver_type: TypeVersionDefinition,
}

/// The view of what builds the literals of an extern type.
pub struct LiteralsV<'a> {
    pub type_args: Seq<(Seq<char>, LangTypeV<'a>)>,
    pub type_def: Named<'a, ExternTypeDefinitionData>,
}

/// The view of a type of the generated code.
pub open spec fn lang_type_view<'a>(t: LangType<'a>) -> LangTypeV<'a>
    decreases t, 0nat,
{
    match t {
        LangType::Versioned(k, n, v, args, f) => LangTypeV::Versioned(
            k,
            n@,
            v@,
            lang_types_view(args@),
            FieldsV { type_args: type_args_view(f.type_args@), type_def: f.type_def, version: f.version@, ver_type: *f.ver_type },
        ),
        LangType::Extern(n, args, l) => LangTypeV::Extern(
            n@,
            lang_types_view(args@),
            LiteralsV { type_args: type_args_view(l.type_args@), type_def: l.type_def },
        ),
        LangType::TypeParameter(p) => LangTypeV::TypeParameter(p@),
        LangType::Converter(a, b) => LangTypeV::Converter(Box::new(lang_type_view(*a)), Box::new(lang_type_view(*b))),
        LangType::Codec(a) => LangTypeV::Codec(Box::new(lang_type_view(*a))),
    }
}

/// The views of a list of types.
pub open spec fn lang_types_view<'a>(ts: Seq<LangType<'a>>) -> Seq<LangTypeV<'a>>
    decreases ts, ts.len(),
{
    if ts.len() == 0 {
        Seq::empty()
    } else {
        lang_types_view(ts.drop_last()).push(lang_type_view(ts.last()))
    }
}

/// The views of the types that type parameters stand for.
pub open spec fn type_args_view<'a>(ts: Seq<(String, LangType<'a>)>) -> Seq<(Seq<char>, LangTypeV<'a>)>
    decreases ts, ts.len(),
{
    if ts.len() == 0 {
        Seq::empty()
    } else {
        type_args_view(ts.drop_last()).push((ts.last().0@, lang_type_view(ts.last().1)))
    }
}

impl<'a> View for LangType<'a> {
    type V = LangTypeV<'a>;

    open spec fn view(&self) -> LangTypeV<'a> {
        lang_type_view(*self)
    }
}

/// `lang_types_view` element by element.
pub proof fn lemma_lang_types_view<'a>(ts: Seq<LangType<'a>>)
    ensures
        lang_types_view(ts).len() == ts.len(),
        forall|i: int| 0 <= i < ts.len() ==> #[trigger] lang_types_view(ts)[i] == lang_type_view(ts[i]),
    decreases ts.len(),
{
    if ts.len() > 0 {
        lemma_lang_types_view(ts.drop_last());
    }
}

/// `type_args_view` element by element.
pub proof fn lemma_type_args_view<'a>(ts: Seq<(String, LangType<'a>)>)
    ensures
        type_args_view(ts).len() == ts.len(),
        forall|i: int| 0 <= i < ts.len() ==> #[trigger] type_args_view(ts)[i] == (ts[i].0@, lang_type_view(ts[i].1)),
    decreases ts.len(),
{
    if ts.len() > 0 {
        lemma_type_args_view(ts.drop_last());
    }
}

/// The type arguments that pair each parameter with the argument in the same
/// place, as far as both lists go.
pub open spec fn zip_args<'a>(params: Seq<String>, args: Seq<LangTypeV<'a>>) -> Seq<(Seq<char>, LangTypeV<'a>)> {
    Seq::new(
        if params.len() <= args.len() { params.len() } else { args.len() },
        |i: int| (params[i]@, args[i]),
    )
}

/// The index of the last type argument for parameter `p`, or -1 when there
/// is none: a later entry for a parameter replaces an earlier one.
pub open spec fn arg_index<'a>(targs: Seq<(Seq<char>, LangTypeV<'a>)>, p: Seq<char>) -> int
    decreases targs.len(),
{
    if targs.len() == 0 {
        -1
    } else if targs.last().0 == p {
        targs.len() - 1
    } else {
        arg_index(targs.drop_last(), p)
    }
}

/// What `arg_index` finds.
pub proof fn lemma_arg_index<'a>(targs: Seq<(Seq<char>, LangTypeV<'a>)>, p: Seq<char>)
    ensures
        -1 <= arg_index(targs, p) < targs.len(),
        arg_index(targs, p) >= 0 ==> targs[arg_index(targs, p)].0 == p,
        forall|j: int| arg_index(targs, p) < j < targs.len() ==> #[trigger] targs[j].0 != p,
    decreases targs.len(),
{
    if targs.len() > 0 && targs.last().0 != p {
        lemma_arg_index(targs.drop_last(), p);
        assert forall|j: int| arg_index(targs, p) < j < targs.len() implies #[trigger] targs[j].0 != p by {
            if j < targs.len() - 1 {
                assert(targs.drop_last()[j] == targs[j]);
            }
        }
    }
}

/// `arg_index` is determined by the last entry named `p`.
pub proof fn lemma_arg_index_at<'a>(targs: Seq<(Seq<char>, LangTypeV<'a>)>, p: Seq<char>, k: int)
    requires
        -1 <= k < targs.len(),
        k >= 0 ==> targs[k].0 == p,
        forall|j: int| k < j < targs.len() ==> #[trigger] targs[j].0 != p,
    ensures
        arg_index(targs, p) == k,
    decreases targs.len(),
{
    if targs.len() > 0 && k != targs.len() - 1 {
        assert(targs.last().0 != p);
        assert forall|j: int| k < j < targs.drop_last().len() implies #[trigger] targs.drop_last()[j].0 != p by {
            assert(targs[j].0 != p);
        }
        lemma_arg_index_at(targs.drop_last(), p, k);
    }
}

/// What a type parameter stands for, when it stands for something.
pub open spec fn arg_of<'a>(targs: Seq<(Seq<char>, LangTypeV<'a>)>, p: Seq<char>) -> Option<LangTypeV<'a>> {
    if arg_index(targs, p) < 0 {
        None
    } else {
        Some(targs[arg_index(targs, p)].1)
    }
}

/// The view of a result that holds a type.
pub open spec fn type_result<'a>(r: Result<LangType<'a>, GeneratorError>) -> Result<LangTypeV<'a>, GeneratorErrorV> {
    match r {
        Ok(t) => Ok(t@),
        Err(e) => Err(e@),
    }
}

/// The view of a result that holds a list of types.
pub open spec fn types_result<'a>(r: Result<Vec<LangType<'a>>, GeneratorError>) -> Result<Seq<LangTypeV<'a>>, GeneratorErrorV> {
    match r {
        Ok(t) => Ok(lang_types_view(t@)),
        Err(e) => Err(e@),
    }
}

/// The type that `t` stands for at `version`, with names looked up in
/// `scope` and type parameters replaced as `targs` says. The arguments are
/// built first, in order; then the name decides: a struct or enum at the
/// version in effect (a struct only with as many arguments as parameters), an
/// extern type, or what the type parameter stands for.
pub open spec fn build_type_spec<'a>(
    model: &'a Verilization,
    version: nat,
    t: Type,
    scope: Scope<'a>,
    targs: Seq<(Seq<char>, LangTypeV<'a>)>,
) -> Result<LangTypeV<'a>, GeneratorErrorV>
    decreases t, 1nat,
{
    match build_types_upto(model, version, t.args@, scope, targs, t.args@.len()) {
        Err(e) => Err(e),
        Ok(largs) => resolve_type_spec(model, version, scope.lookup_view(t.name@), largs, targs),
    }
}

/// The types of `args[..n]`, built in order; the first error stops.
pub open spec fn build_types_upto<'a>(
    model: &'a Verilization,
    version: nat,
    args: Seq<Type>,
    scope: Scope<'a>,
    targs: Seq<(Seq<char>, LangTypeV<'a>)>,
    n: nat,
) -> Result<Seq<LangTypeV<'a>>, GeneratorErrorV>
    decreases args, n,
{
    if n == 0 || n > args.len() {
        Ok(Seq::empty())
    } else {
        match build_types_upto(model, version, args, scope, targs, (n - 1) as nat) {
            Err(e) => Err(e),
            Ok(prev) => match build_type_spec(model, version, args[n - 1], scope, targs) {
                Err(e) => Err(e),
                Ok(x) => Ok(prev.push(x)),
            },
        }
    }
}

/// The type that a looked-up name stands for, given its built arguments.
pub open spec fn resolve_type_spec<'a>(
    model: &'a Verilization,
    version: nat,
    lookup: ScopeLookupView,
    largs: Seq<LangTypeV<'a>>,
    targs: Seq<(Seq<char>, LangTypeV<'a>)>,
) -> Result<LangTypeV<'a>, GeneratorErrorV> {
    match lookup {
        ScopeLookupView::NamedType(n) => match model.named_type(n) {
            None => Err(GeneratorErrorV::CouldNotFind(n)),
            Some(NamedTypeDefinition::StructType(td)) => match td.value.version_in_effect(version) {
                None => Err(GeneratorErrorV::CouldNotFindVersion(n, version)),
                Some((ev, i)) => if td.value.type_params@.len() != largs.len() {
                    Err(GeneratorErrorV::ArityMismatch(td.value.type_params@.len(), largs.len()))
                } else {
                    Ok(LangTypeV::Versioned(VersionedTypeKind::Struct, td.name@, ev, largs, FieldsV {
                        type_args: zip_args(td.value.type_params@, largs),
                        type_def: td,
                        version: ev,
                        ver_type: td.value.versions@[i].1,
                    }))
                },
            },
            Some(NamedTypeDefinition::EnumType(td)) => match td.value.version_in_effect(version) {
                None => Err(GeneratorErrorV::CouldNotFindVersion(n, version)),
                Some((ev, i)) => Ok(LangTypeV::Versioned(VersionedTypeKind::Enum, td.name@, ev, largs, FieldsV {
                    type_args: zip_args(td.value.type_params@, largs),
                    type_def: td,
                    version: ev,
                    ver_type: td.value.versions@[i].1,
                })),
            },
            Some(NamedTypeDefinition::ExternType(td)) => Ok(LangTypeV::Extern(td.name@, largs, LiteralsV {
                type_args: zip_args(td.value.type_params@, largs),
                type_def: td,
            })),
        },
        ScopeLookupView::TypeParameter(p) => if largs.len() != 0 {
            Err(GeneratorErrorV::ArityMismatch(0, largs.len()))
        } else {
            match arg_of(targs, p) {
                None => Err(GeneratorErrorV::CouldNotResolveTypeParameter(p)),
                Some(x) => Ok(x),
            }
        },
    }
}

/// Once the arguments before `k` fail, so do those before any later `n`.
pub proof fn lemma_types_upto_err<'a>(
    model: &'a Verilization,
    version: nat,
    args: Seq<Type>,
    scope: Scope<'a>,
    targs: Seq<(Seq<char>, LangTypeV<'a>)>,
    k: nat,
    n: nat,
)
    requires
        k <= n <= args.len(),
        build_types_upto(model, version, args, scope, targs, k) is Err,
    ensures
        build_types_upto(model, version, args, scope, targs, n) == build_types_upto(model, version, args, scope, targs, k),
    decreases n,
{
    if n > k {
        lemma_types_upto_err(model, version, args, scope, targs, k, (n - 1) as nat);
    }
}

impl<'a> LangType<'a> {
    /// A copy of the type.
    pub fn copy(&self) -> (r: LangType<'a>)
        ensures
            r@ == self@,
        decreases self,
    {
        match self {
            LangType::Versioned(k, n, v, args, f) => {
                let args2 = copy_types(args);
                let targs = copy_type_args(&f.type_args);
                LangType::Versioned(*k, *n, v.copy(), args2, LangVerTypeFields {
                    type_args: targs,
                    type_def: f.type_def.share(),
                    version: f.version.copy(),
                    ver_type: f.ver_type,
                })
            },
            LangType::Extern(n, args, l) => {
                let args2 = copy_types(args);
                let targs = copy_type_args(&l.type_args);
                LangType::Extern(*n, args2, LangExternTypeLiterals { type_args: targs, type_def: l.type_def.share() })
            },
            LangType::TypeParameter(p) => LangType::TypeParameter(p.clone()),
            LangType::Converter(a, b) => {
                let a2 = (**a).copy();
                let b2 = (**b).copy();
                LangType::Converter(Box::new(a2), Box::new(b2))
            },
            LangType::Codec(a) => {
                let a2 = (**a).copy();
                LangType::Codec(Box::new(a2))
            },
        }
    }
}

/// A copy of a list of types.
pub fn copy_types<'a>(ts: &Vec<LangType<'a>>) -> (r: Vec<LangType<'a>>)
    ensures
        lang_types_view(r@) == lang_types_view(ts@),
    decreases ts,
{
    let mut out: Vec<LangType<'a>> = Vec::new();
    let mut i: usize = 0;
    while i < ts.len()
        invariant
            i <= ts@.len(),
            lang_types_view(out@) == lang_types_view(ts@.take(i as int)),
        decreases ts@.len() - i,
    {
        let x = ts[i].copy();
        let ghost before = out@;
        out.push(x);
        assert(out@.drop_last() =~= before);
        assert(ts@.take(i + 1).drop_last() =~= ts@.take(i as int));
        i = i + 1;
    }
    assert(ts@.take(ts@.len() as int) =~= ts@);
    out
}

/// A copy of a list of type arguments.
pub fn copy_type_args<'a>(ts: &Vec<(String, LangType<'a>)>) -> (r: Vec<(String, LangType<'a>)>)
    ensures
        type_args_view(r@) == type_args_view(ts@),
    decreases ts,
{
    let mut out: Vec<(String, LangType<'a>)> = Vec::new();
    let mut i: usize = 0;
    while i < ts.len()
        invariant
            i <= ts@.len(),
            type_args_view(out@) == type_args_view(ts@.take(i as int)),
        decreases ts@.len() - i,
    {
        let x = ts[i].1.copy();
        let ghost before = out@;
        out.push((ts[i].0.clone(), x));
        assert(out@.drop_last() =~= before);
        assert(ts@.take(i + 1).drop_last() =~= ts@.take(i as int));
        i = i + 1;
    }
    assert(ts@.take(ts@.len() as int) =~= ts@);
    out
}

/// Pairs each parameter with the argument in the same place.
fn zip_type_args<'a>(params: &Vec<String>, args: &Vec<LangType<'a>>) -> (r: Vec<(String, LangType<'a>)>)
    ensures
        type_args_view(r@) == zip_args(params@, lang_types_view(args@)),
{
    proof {
        lemma_lang_types_view(args@);
    }
    let mut out: Vec<(String, LangType<'a>)> = Vec::new();
    let mut i: usize = 0;
    while i < params.len() && i < args.len()
        invariant
            i <= params@.len(),
            i <= args@.len(),
            lang_types_view(args@).len() == args@.len(),
            forall|j: int| 0 <= j < args@.len() ==> #[trigger] lang_types_view(args@)[j] == lang_type_view(args@[j]),
            type_args_view(out@) =~= zip_args(params@, lang_types_view(args@)).take(i as int),
        decreases params@.len() - i,
    {
        let x = args[i].copy();
        let ghost before = out@;
        out.push((params[i].clone(), x));
        assert(out@.drop_last() =~= before);
        assert(type_args_view(out@) =~= zip_args(params@, lang_types_view(args@)).take(i + 1));
        i = i + 1;
    }
    assert(zip_args(params@, lang_types_view(args@)).take(i as int) =~= zip_args(params@, lang_types_view(args@)));
    out
}

/// The position of the last type argument for parameter `p`.
fn find_type_arg<'a>(type_args: &Vec<(String, LangType<'a>)>, p: &String) -> (r: Option<usize>)
    ensures
        match r {
            None => arg_index(type_args_view(type_args@), p@) == -1,
            Some(i) => i < type_args@.len() && i as int == arg_index(type_args_view(type_args@), p@),
        },
{
    proof {
        lemma_type_args_view(type_args@);
    }
    let ghost tv = type_args_view(type_args@);
    let mut i: usize = type_args.len();
    while i > 0
        invariant
            i <= type_args@.len(),
            tv == type_args_view(type_args@),
            tv.len() == type_args@.len(),
            forall|j: int| 0 <= j < type_args@.len() ==> #[trigger] tv[j] == (type_args@[j].0@, lang_type_view(type_args@[j].1)),
            forall|j: int| i <= j < type_args@.len() ==> #[trigger] tv[j].0 != p@,
        decreases i,
    {
        if type_args[i - 1].0 == *p {
            proof {
                lemma_arg_index_at(tv, p@, i - 1);
            }
            return Some(i - 1);
        }
        i = i - 1;
    }
    proof {
        lemma_arg_index_at(tv, p@, -1);
    }
    None
}

/// The type that `t` stands for at `version`, with names looked up in
/// `scope` and type parameters replaced by the types `type_args` gives them.
pub fn build_type_impl<'a>(
    model: &'a Verilization,
    version: &BigNat,
    t: &Type,
    scope: &Scope<'a>,
    type_args: &Vec<(String, LangType<'a>)>,
) -> (r: Result<LangType<'a>, GeneratorError>)
    ensures
        type_result(r) == build_type_spec(model, version@, *t, *scope, type_args_view(type_args@)),
    decreases t,
{
    let ghost targs = type_args_view(type_args@);
    let mut lang_args: Vec<LangType<'a>> = Vec::new();
    let mut i: usize = 0;
    while i < t.args.len()
        invariant
            i <= t.args@.len(),
            targs == type_args_view(type_args@),
            build_types_upto(model, version@, t.args@, *scope, targs, i as nat) == Ok::<Seq<LangTypeV<'a>>, GeneratorErrorV>(lang_types_view(lang_args@)),
        decreases t.args@.len() - i,
    {
        let a = match build_type_impl(model, version, &t.args[i], scope, type_args) {
            Ok(a) => a,
            Err(e) => {
                proof {
                    lemma_types_upto_err(model, version@, t.args@, *scope, targs, (i + 1) as nat, t.args@.len());
                }
                return Err(e);
            },
        };
        let ghost before = lang_args@;
        lang_args.push(a);
        assert(lang_args@.drop_last() =~= before);
        i = i + 1;
    }
    let ghost largs = lang_types_view(lang_args@);
    match scope.lookup(t.name.copy()) {
        ScopeLookup::NamedType(name) => {
            match model.get_type(&name) {
                None => Err(GeneratorError::CouldNotFind(name)),
                Some(NamedTypeDefinition::StructType(td)) => {
                    let ver_type = match td.value.versioned(version) {
                        Some(v) => v,
                        None => return Err(GeneratorError::CouldNotFindVersion(name, version.copy())),
                    };
                    proof {
                        lemma_lang_types_view(lang_args@);
                    }
                    if td.value.type_params.len() != lang_args.len() {
                        return Err(GeneratorError::ArityMismatch(td.value.type_params.len(), lang_args.len()));
                    }
                    let targs2 = zip_type_args(&td.value.type_params, &lang_args);
                    let fields = LangVerTypeFields {
                        type_args: targs2,
                        type_def: td.share(),
                        version: ver_type.version.copy(),
                        ver_type: ver_type.ver_type,
                    };
                    Ok(LangType::Versioned(VersionedTypeKind::Struct, td.name, ver_type.version, lang_args, fields))
                },
                Some(NamedTypeDefinition::EnumType(td)) => {
                    let targs2 = zip_type_args(&td.value.type_params, &lang_args);
                    let ver_type = match td.value.versioned(version) {
                        Some(v) => v,
                        None => return Err(GeneratorError::CouldNotFindVersion(name, version.copy())),
                    };
                    let fields = LangVerTypeFields {
                        type_args: targs2,
                        type_def: td.share(),
                        version: ver_type.version.copy(),
                        ver_type: ver_type.ver_type,
                    };
                    Ok(LangType::Versioned(VersionedTypeKind::Enum, td.name, ver_type.version, lang_args, fields))
                },
                Some(NamedTypeDefinition::ExternType(td)) => {
                    let targs2 = zip_type_args(&td.value.type_params, &lang_args);
                    let literals = LangExternTypeLiterals { type_args: targs2, type_def: td.share() };
                    Ok(LangType::Extern(td.name, lang_args, literals))
                },
            }
        },
        ScopeLookup::TypeParameter(name) => {
            if lang_args.len() != 0 {
                proof {
                    lemma_lang_types_view(lang_args@);
                }
                return Err(GeneratorError::ArityMismatch(0, lang_args.len()));
            }
            match find_type_arg(type_args, &name) {
                None => Err(GeneratorError::CouldNotResolveTypeParameter(name)),
                Some(k) => {
                    proof {
                        lemma_type_args_view(type_args@);
                    }
                    Ok(type_args[k].1.copy())
                },
            }
        },
    }
}

impl<'a> View for LangVerTypeFields<'a> {
    type V = FieldsV<'a>;

    open spec fn view(&self) -> FieldsV<'a> {
        FieldsV { type_args: type_args_view(self.type_args@), type_def: self.type_def, version: self.version@, ver_type: *self.ver_type }
    }
}

impl<'a> View for LangExternTypeLiterals<'a> {
    type V = LiteralsV<'a>;

    open spec fn view(&self) -> LiteralsV<'a> {
        LiteralsV { type_args: type_args_view(self.type_args@), type_def: self.type_def }
    }
}

/// A field of a struct, a case of an enum or a field of a record literal,
/// with the type it has in the generated code.
pub struct LangField<'a> {
    pub name: &'a String,
    pub field_type: LangType<'a>,
}

/// A literal that an extern type accepts, with the types it is made of.
pub enum LangLiteral<'a> {
    Integer(ExternLiteralIntBound, Option<BigInt>, ExternLiteralIntBound, Option<BigInt>),
    String,
    Sequence(LangType<'a>),
    Case(String, Vec<LangType<'a>>),
    Record(Vec<LangField<'a>>),
}

/// The view of a literal of an extern type.
pub enum LangLiteralV<'a> {
    Integer(ExternLiteralIntBound, Option<int>, ExternLiteralIntBound, Option<int>),
    Str,
    Sequence(LangTypeV<'a>),
    Case(Seq<char>, Seq<LangTypeV<'a>>),
    Record(Seq<(Seq<char>, LangTypeV<'a>)>),
}

/// The view of an optional integer.
pub open spec fn opt_int(v: Option<BigInt>) -> Option<int> {
    match v {
        Some(x) => Some(x@),
        None => None,
    }
}

/// The views of a list of fields.
pub open spec fn lang_fields_view<'a>(fs: Seq<LangField<'a>>) -> Seq<(Seq<char>, LangTypeV<'a>)> {
    fs.map_values(|f: LangField<'a>| (f.name@, f.field_type@))
}

impl<'a> View for LangLiteral<'a> {
    type V = LangLiteralV<'a>;

    open spec fn view(&self) -> LangLiteralV<'a> {
        match self {
            LangLiteral::Integer(lb, lv, ub, uv) => LangLiteralV::Integer(*lb, opt_int(*lv), *ub, opt_int(*uv)),
            LangLiteral::String => LangLiteralV::Str,
            LangLiteral::Sequence(t) => LangLiteralV::Sequence(t@),
            LangLiteral::Case(n, ps) => LangLiteralV::Case(n@, lang_types_view(ps@)),
            LangLiteral::Record(fs) => LangLiteralV::Record(lang_fields_view(fs@)),
        }
    }
}

/// The scope inside a struct or enum definition.
pub open spec fn versioned_scope<'a>(t: Named<'a, VersionedTypeDefinitionData>) -> Scope<'a> {
    Scope { model: t.model, current_pkg: Some(&t.name.package), imports: Some(&t.value.imports), type_params: Some(&t.value.type_params) }
}

/// The scope inside an extern type definition.
pub open spec fn extern_scope<'a>(t: Named<'a, ExternTypeDefinitionData>) -> Scope<'a> {
    Scope { model: t.model, current_pkg: Some(&t.name.package), imports: Some(&t.value.imports), type_params: Some(&t.value.type_params) }
}

/// The fields `fs[..n]`, each with the type it stands for; the first error
/// stops.
pub open spec fn build_fields_upto<'a>(
    model: &'a Verilization,
    version: nat,
    fs: Seq<(String, FieldInfo)>,
    scope: Scope<'a>,
    targs: Seq<(Seq<char>, LangTypeV<'a>)>,
    n: nat,
) -> Result<Seq<(Seq<char>, LangTypeV<'a>)>, GeneratorErrorV>
    decreases n,
{
    if n == 0 || n > fs.len() {
        Ok(Seq::empty())
    } else {
        match build_fields_upto(model, version, fs, scope, targs, (n - 1) as nat) {
            Err(e) => Err(e),
            Ok(prev) => match build_type_spec(model, version, fs[n - 1].1.field_type, scope, targs) {
                Err(e) => Err(e),
                Ok(x) => Ok(prev.push((fs[n - 1].0@, x))),
            },
        }
    }
}

/// The fields of a struct, or the cases of an enum, at the version in
/// effect, in the order they are defined.
pub open spec fn fields_spec<'a>(f: FieldsV<'a>) -> Result<Seq<(Seq<char>, LangTypeV<'a>)>, GeneratorErrorV> {
    build_fields_upto(f.type_def.model, f.version, f.ver_type.fields@, versioned_scope(f.type_def), f.type_args, f.ver_type.fields@.len())
}

/// One literal of an extern type, its types built at version 1.
pub open spec fn literal_spec<'a>(
    model: &'a Verilization,
    lit: ExternLiteralSpecifier,
    scope: Scope<'a>,
    targs: Seq<(Seq<char>, LangTypeV<'a>)>,
) -> Result<LangLiteralV<'a>, GeneratorErrorV> {
    match lit {
        ExternLiteralSpecifier::Integer(lb, lv, ub, uv) => Ok(LangLiteralV::Integer(lb, opt_int(lv), ub, opt_int(uv))),
        ExternLiteralSpecifier::String => Ok(LangLiteralV::Str),
        ExternLiteralSpecifier::Sequence(t) => match build_type_spec(model, 1, t, scope, targs) {
            Err(e) => Err(e),
            Ok(x) => Ok(LangLiteralV::Sequence(x)),
        },
        ExternLiteralSpecifier::Case(n, ps) => match build_types_upto(model, 1, ps@, scope, targs, ps@.len()) {
            Err(e) => Err(e),
            Ok(xs) => Ok(LangLiteralV::Case(n@, xs)),
        },
        ExternLiteralSpecifier::Record(fs) => match build_fields_upto(model, 1, fs@, scope, targs, fs@.len()) {
            Err(e) => Err(e),
            Ok(xs) => Ok(LangLiteralV::Record(xs)),
        },
    }
}

/// The literals `lits[..n]`; the first error stops.
pub open spec fn literals_upto<'a>(
    model: &'a Verilization,
    lits: Seq<ExternLiteralSpecifier>,
    scope: Scope<'a>,
    targs: Seq<(Seq<char>, LangTypeV<'a>)>,
    n: nat,
) -> Result<Seq<LangLiteralV<'a>>, GeneratorErrorV>
    decreases n,
{
    if n == 0 || n > lits.len() {
        Ok(Seq::empty())
    } else {
        match literals_upto(model, lits, scope, targs, (n - 1) as nat) {
            Err(e) => Err(e),
            Ok(prev) => match literal_spec(model, lits[n - 1], scope, targs) {
                Err(e) => Err(e),
                Ok(x) => Ok(prev.push(x)),
            },
        }
    }
}

/// The literals of an extern type, in the order they are defined.
pub open spec fn literals_spec<'a>(l: LiteralsV<'a>) -> Result<Seq<LangLiteralV<'a>>, GeneratorErrorV> {
    literals_upto(l.type_def.model, l.type_def.value.literals@, extern_scope(l.type_def), l.type_args, l.type_def.value.literals@.len())
}

/// The view of a result that holds fields.
pub open spec fn fields_result<'a>(r: Result<Vec<LangField<'a>>, GeneratorError>) -> Result<Seq<(Seq<char>, LangTypeV<'a>)>, GeneratorErrorV> {
    match r {
        Ok(fs) => Ok(lang_fields_view(fs@)),
        Err(e) => Err(e@),
    }
}

/// The view of a result that holds literals.
pub open spec fn literals_result<'a>(r: Result<Vec<LangLiteral<'a>>, GeneratorError>) -> Result<Seq<LangLiteralV<'a>>, GeneratorErrorV> {
    match r {
        Ok(ls) => Ok(ls@.map_values(|l: LangLiteral<'a>| l@)),
        Err(e) => Err(e@),
    }
}

/// Once the fields before `k` fail, so do those before any later `n`.
pub proof fn lemma_fields_upto_err<'a>(
    model: &'a Verilization,
    version: nat,
    fs: Seq<(String, FieldInfo)>,
    scope: Scope<'a>,
    targs: Seq<(Seq<char>, LangTypeV<'a>)>,
    k: nat,
    n: nat,
)
    requires
        k <= n <= fs.len(),
        build_fields_upto(model, version, fs, scope, targs, k) is Err,
    ensures
        build_fields_upto(model, version, fs, scope, targs, n) == build_fields_upto(model, version, fs, scope, targs, k),
    decreases n,
{
    if n > k {
        lemma_fields_upto_err(model, version, fs, scope, targs, k, (n - 1) as nat);
    }
}

/// Once the literals before `k` fail, so do those before any later `n`.
pub proof fn lemma_literals_upto_err<'a>(
    model: &'a Verilization,
    lits: Seq<ExternLiteralSpecifier>,
    scope: Scope<'a>,
    targs: Seq<(Seq<char>, LangTypeV<'a>)>,
    k: nat,
    n: nat,
)
    requires
        k <= n <= lits.len(),
        literals_upto(model, lits, scope, targs, k) is Err,
    ensures
        literals_upto(model, lits, scope, targs, n) == literals_upto(model, lits, scope, targs, k),
    decreases n,
{
    if n > k {
        lemma_literals_upto_err(model, lits, scope, targs, k, (n - 1) as nat);
    }
}

/// Builds the types of a list of types in order; the first error stops.
fn build_types_impl<'a>(
    model: &'a Verilization,
    version: &BigNat,
    ts: &Vec<Type>,
    scope: &Scope<'a>,
    type_args: &Vec<(String, LangType<'a>)>,
) -> (r: Result<Vec<LangType<'a>>, GeneratorError>)
    ensures
        types_result(r) == build_types_upto(model, version@, ts@, *scope, type_args_view(type_args@), ts@.len()),
{
    let ghost targs = type_args_view(type_args@);
    let mut out: Vec<LangType<'a>> = Vec::new();
    let mut i: usize = 0;
    while i < ts.len()
        invariant
            i <= ts@.len(),
            targs == type_args_view(type_args@),
            build_types_upto(model, version@, ts@, *scope, targs, i as nat) == Ok::<Seq<LangTypeV<'a>>, GeneratorErrorV>(lang_types_view(out@)),
        decreases ts@.len() - i,
    {
        let a = match build_type_impl(model, version, &ts[i], scope, type_args) {
            Ok(a) => a,
            Err(e) => {
                proof {
                    lemma_types_upto_err(model, version@, ts@, *scope, targs, (i + 1) as nat, ts@.len());
                }
                return Err(e);
            },
        };
        let ghost before = out@;
        out.push(a);
        assert(out@.drop_last() =~= before);
        i = i + 1;
    }
    Ok(out)
}

/// Builds the fields of a list of fields in order; the first error stops.
fn build_fields_impl<'a>(
    model: &'a Verilization,
    version: &BigNat,
    fs: &'a Vec<(String, FieldInfo)>,
    scope: &Scope<'a>,
    type_args: &Vec<(String, LangType<'a>)>,
) -> (r: Result<Vec<LangField<'a>>, GeneratorError>)
    ensures
        fields_result(r) == build_fields_upto(model, version@, fs@, *scope, type_args_view(type_args@), fs@.len()),
{
    let ghost targs = type_args_view(type_args@);
    let mut out: Vec<LangField<'a>> = Vec::new();
    assert(lang_fields_view(out@) =~= Seq::empty());
    let mut i: usize = 0;
    while i < fs.len()
        invariant
            i <= fs@.len(),
            targs == type_args_view(type_args@),
            build_fields_upto(model, version@, fs@, *scope, targs, i as nat) == Ok::<Seq<(Seq<char>, LangTypeV<'a>)>, GeneratorErrorV>(lang_fields_view(out@)),
        decreases fs@.len() - i,
    {
        let a = match build_type_impl(model, version, &fs[i].1.field_type, scope, type_args) {
            Ok(a) => a,
            Err(e) => {
                proof {
                    lemma_fields_upto_err(model, version@, fs@, *scope, targs, (i + 1) as nat, fs@.len());
                }
                return Err(e);
            },
        };
        let ghost before = out@;
        out.push(LangField { name: &fs[i].0, field_type: a });
        assert(lang_fields_view(out@) =~= lang_fields_view(before).push((fs@[i as int].0@, a@)));
        i = i + 1;
    }
    Ok(out)
}

impl<'a> LangVerTypeFields<'a> {
    /// The fields of the struct, or the cases of the enum, at the version in
    /// effect, in the order they are defined.
    pub fn build(&self) -> (r: Result<Vec<LangField<'a>>, GeneratorError>)
        ensures
            fields_result(r) == fields_spec(self@),
    {
        let scope = Scope::of_versioned_type(&self.type_def);
        assert(scope == versioned_scope(self.type_def));
        build_fields_impl(self.type_def.model, &self.version, &self.ver_type.fields, &scope, &self.type_args)
    }
}

impl<'a> LangExternTypeLiterals<'a> {
    /// The literals of the extern type, in the order they are defined.
    pub fn build(&self) -> (r: Result<Vec<LangLiteral<'a>>, GeneratorError>)
        ensures
            literals_result(r) == literals_spec(self@),
    {
        let scope = Scope::of_extern_type(&self.type_def);
        assert(scope == extern_scope(self.type_def));
        let model = self.type_def.model;
        let lits = &self.type_def.value.literals;
        let ghost targs = type_args_view(self.type_args@);
        let one = BigNat::one();
        let mut out: Vec<LangLiteral<'a>> = Vec::new();
        assert(out@.map_values(|l: LangLiteral<'a>| l@) =~= Seq::empty());
        let mut i: usize = 0;
        while i < lits.len()
            invariant
                i <= lits@.len(),
                lits == &self.type_def.value.literals,
                model == self.type_def.model,
                scope == extern_scope(self.type_def),
                one@ == 1,
                targs == type_args_view(self.type_args@),
                literals_upto(model, lits@, scope, targs, i as nat) == Ok::<Seq<LangLiteralV<'a>>, GeneratorErrorV>(out@.map_values(|l: LangLiteral<'a>| l@)),
            decreases lits@.len() - i,
        {
            let lit: Result<LangLiteral<'a>, GeneratorError> = match &lits[i] {
                ExternLiteralSpecifier::Integer(lb, lv, ub, uv) => {
                    let lv2 = match lv { Some(x) => Some(x.copy()), None => None };
                    let uv2 = match uv { Some(x) => Some(x.copy()), None => None };
                    Ok(LangLiteral::Integer(*lb, lv2, *ub, uv2))
                },
                ExternLiteralSpecifier::String => Ok(LangLiteral::String),
                ExternLiteralSpecifier::Sequence(t) => match build_type_impl(model, &one, t, &scope, &self.type_args) {
                    Err(e) => Err(e),
                    Ok(x) => Ok(LangLiteral::Sequence(x)),
                },
                ExternLiteralSpecifier::Case(n, ps) => match build_types_impl(model, &one, ps, &scope, &self.type_args) {
                    Err(e) => Err(e),
                    Ok(xs) => Ok(LangLiteral::Case(n.clone(), xs)),
                },
                ExternLiteralSpecifier::Record(fs) => match build_fields_impl(model, &one, fs, &scope, &self.type_args) {
                    Err(e) => Err(e),
                    Ok(xs) => Ok(LangLiteral::Record(xs)),
                },
            };
            match lit {
                Err(e) => {
                    proof {
                        lemma_literals_upto_err(model, lits@, scope, targs, (i + 1) as nat, lits@.len());
                    }
                    return Err(e);
                },
                Ok(l) => {
                    let ghost before = out@;
                    out.push(l);
                    assert(out@.map_values(|l: LangLiteral<'a>| l@) =~= before.map_values(|l: LangLiteral<'a>| l@).push(l@));
                },
            }
            i = i + 1;
        }
        Ok(out)
    }
}

/// The name of the type parameter that stands for the earlier version of
/// `param` in a converter.
pub fn convert_prev_type_param(param: &str) -> (r: String)
    ensures
        r@ == param@ + "_1"@,
{
    let mut s = param.to_owned();
    append_str(&mut s, "_1");
    s
}

/// The name of the type parameter that stands for the later version of
/// `param` in a converter.
pub fn convert_current_type_param(param: &str) -> (r: String)
    ensures
        r@ == param@ + "_2"@,
{
    let mut s = param.to_owned();
    append_str(&mut s, "_2");
    s
}

/// The name of the converter parameter for type parameter `param`.
pub fn convert_conv_param_name(param: &str) -> (r: String)
    ensures
        r@ == param@ + "_conv"@,
{
    let mut s = param.to_owned();
    append_str(&mut s, "_conv");
    s
}

/// The name of the value that a converter converts.
pub fn convert_prev_param_name() -> (r: &'static str)
    ensures
        r@ == "prev"@,
{
    "prev"
}

/// The name of the value that a codec writes.
pub fn codec_write_value_name() -> (r: &'static str)
    ensures
        r@ == "value"@,
{
    "value"
}

/// The name of the codec parameter for type parameter `param`.
pub fn codec_codec_param_name(param: &str) -> (r: String)
    ensures
        r@ == param@ + "_codec"@,
{
    let mut s = param.to_owned();
    append_str(&mut s, "_codec");
    s
}

/// An operation that generated code provides for a type.
pub enum Operation {
    FromPreviousVersion(BigNat),
    FinalTypeConverter,
    TypeCodec,
    FromInteger,
    FromString,
    FromSequence,
    FromCase(String),
    FromRecord(Vec<String>),
}

/// The view of an operation.
pub enum OperationV {
    FromPreviousVersion(nat),
    FinalTypeConverter,
    TypeCodec,
    FromInteger,
    FromString,
    FromSequence,
    FromCase(Seq<char>),
    FromRecord(Seq<Seq<char>>),
}

impl View for Operation {
    type V = OperationV;

    open spec fn view(&self) -> OperationV {
        match self {
            Operation::FromPreviousVersion(v) => OperationV::FromPreviousVersion(v@),
            Operation::FinalTypeConverter => OperationV::FinalTypeConverter,
            Operation::TypeCodec => OperationV::TypeCodec,
            Operation::FromInteger => OperationV::FromInteger,
            Operation::FromString => OperationV::FromString,
            Operation::FromSequence => OperationV::FromSequence,
            Operation::FromCase(c) => OperationV::FromCase(c@),
            Operation::FromRecord(fs) => OperationV::FromRecord(fs@.map_values(|f: String| f@)),
        }
    }
}

/// The type whose operation is meant.
pub enum OperationTarget<'a> {
    VersionedType(&'a QualifiedName, BigNat),
    ExternType(&'a QualifiedName),
}

/// The view of an operation's type.
pub enum OperationTargetV {
    VersionedType(NameView, nat),
    ExternType(NameView),
}

impl<'a> View for OperationTarget<'a> {
    type V = OperationTargetV;

    open spec fn view(&self) -> OperationTargetV {
        match self {
            OperationTarget::VersionedType(n, v) => OperationTargetV::VersionedType(n@, v@),
            OperationTarget::ExternType(n) => OperationTargetV::ExternType(n@),
        }
    }
}

/// An expression of the generated code.
pub enum LangExpr<'a> {
    Identifier(String),
    IntegerLiteral(BigInt),
    StringLiteral(String),
    InvokeConverter { converter: Box<LangExpr<'a>>, value: Box<LangExpr<'a>> },
    IdentityConverter(LangType<'a>),
    ReadDiscriminator,
    WriteDiscriminator(BigNat),
    CodecRead { codec: Box<LangExpr<'a>> },
    CodecWrite { codec: Box<LangExpr<'a>>, value: Box<LangExpr<'a>> },
    InvokeOperation(Operation, OperationTarget<'a>, Vec<LangType<'a>>, Vec<LangExpr<'a>>),
    InvokeUserConverter {
        name: &'a QualifiedName,
        prev_ver: BigNat,
        version: BigNat,
        type_args: Vec<LangType<'a>>,
        args: Vec<LangExpr<'a>>,
    },
    ConstantValue(&'a QualifiedName, BigNat),
    CreateStruct(&'a QualifiedName, BigNat, Vec<LangType<'a>>, Vec<(&'a String, LangExpr<'a>)>),
    CreateEnum(&'a QualifiedName, BigNat, Vec<LangType<'a>>, &'a String, Box<LangExpr<'a>>),
    StructField(&'a QualifiedName, BigNat, &'a String, Box<LangExpr<'a>>),
}

/// The view of an expression of the generated code.
pub enum LangExprV<'a> {
    Identifier(Seq<char>),
    IntegerLiteral(int),
    StringLiteral(Seq<char>),
    InvokeConverter(Box<LangExprV<'a>>, Box<LangExprV<'a>>),
    IdentityConverter(LangTypeV<'a>),
    ReadDiscriminator,
    WriteDiscriminator(nat),
    CodecRead(Box<LangExprV<'a>>),
    CodecWrite(Box<LangExprV<'a>>, Box<LangExprV<'a>>),
    InvokeOperation(OperationV, OperationTargetV, Seq<LangTypeV<'a>>, Seq<LangExprV<'a>>),
    InvokeUserConverter(NameView, nat, nat, Seq<LangTypeV<'a>>, Seq<LangExprV<'a>>),
    ConstantValue(NameView, nat),
    CreateStruct(NameView, nat, Seq<LangTypeV<'a>>, Seq<(Seq<char>, LangExprV<'a>)>),
    CreateEnum(NameView, nat, Seq<LangTypeV<'a>>, Seq<char>, Box<LangExprV<'a>>),
    StructField(NameView, nat, Seq<char>, Box<LangExprV<'a>>),
}

/// The view of an expression of the generated code.
pub open spec fn lang_expr_view<'a>(e: LangExpr<'a>) -> LangExprV<'a>
    decreases e, 0nat,
{
    match e {
        LangExpr::Identifier(s) => LangExprV::Identifier(s@),
        LangExpr::IntegerLiteral(n) => LangExprV::IntegerLiteral(n@),
        LangExpr::StringLiteral(s) => LangExprV::StringLiteral(s@),
        LangExpr::InvokeConverter { converter, value } => LangExprV::InvokeConverter(
            Box::new(lang_expr_view(*converter)),
            Box::new(lang_expr_view(*value)),
        ),
        LangExpr::IdentityConverter(t) => LangExprV::IdentityConverter(t@),
        LangExpr::ReadDiscriminator => LangExprV::ReadDiscriminator,
        LangExpr::WriteDiscriminator(n) => LangExprV::WriteDiscriminator(n@),
        LangExpr::CodecRead { codec } => LangExprV::CodecRead(Box::new(lang_expr_view(*codec))),
        LangExpr::CodecWrite { codec, value } => LangExprV::CodecWrite(
            Box::new(lang_expr_view(*codec)),
            Box::new(lang_expr_view(*value)),
        ),
        LangExpr::InvokeOperation(op, target, targs, args) => LangExprV::InvokeOperation(
            op@,
            target@,
            lang_types_view(targs@),
            lang_exprs_view(args@),
        ),
        LangExpr::InvokeUserConverter { name, prev_ver, version, type_args, args } => LangExprV::InvokeUserConverter(
            name@,
            prev_ver@,
            version@,
            lang_types_view(type_args@),
            lang_exprs_view(args@),
        ),
        LangExpr::ConstantValue(n, v) => LangExprV::ConstantValue(n@, v@),
        LangExpr::CreateStruct(n, v, targs, fields) => LangExprV::CreateStruct(
            n@,
            v@,
            lang_types_view(targs@),
            named_exprs_view(fields@),
        ),
        LangExpr::CreateEnum(n, v, targs, case, value) => LangExprV::CreateEnum(
            n@,
            v@,
            lang_types_view(targs@),
            case@,
            Box::new(lang_expr_view(*value)),
        ),
        LangExpr::StructField(n, v, field, value) => LangExprV::StructField(n@, v@, field@, Box::new(lang_expr_view(*value))),
    }
}

/// The views of a list of expressions.
pub open spec fn lang_exprs_view<'a>(es: Seq<LangExpr<'a>>) -> Seq<LangExprV<'a>>
    decreases es, es.len(),
{
    if es.len() == 0 {
        Seq::empty()
    } else {
        lang_exprs_view(es.drop_last()).push(lang_expr_view(es.last()))
    }
}

/// `lang_exprs_view` element by element.
pub proof fn lemma_lang_exprs_view<'a>(es: Seq<LangExpr<'a>>)
    ensures
        lang_exprs_view(es).len() == es.len(),
        forall|i: int| 0 <= i < es.len() ==> #[trigger] lang_exprs_view(es)[i] == lang_expr_view(es[i]),
    decreases es.len(),
{
    if es.len() > 0 {
        lemma_lang_exprs_view(es.drop_last());
    }
}

/// The views of a list of named expressions.
pub open spec fn named_exprs_view<'a>(es: Seq<(&'a String, LangExpr<'a>)>) -> Seq<(Seq<char>, LangExprV<'a>)>
    decreases es, es.len(),
{
    if es.len() == 0 {
        Seq::empty()
    } else {
        named_exprs_view(es.drop_last()).push((es.last().0@, lang_expr_view(es.last().1)))
    }
}

impl<'a> View for LangExpr<'a> {
    type V = LangExprV<'a>;

    open spec fn view(&self) -> LangExprV<'a> {
        lang_expr_view(*self)
    }
}

/// The view of a result that holds an expression.
pub open spec fn expr_result<'a>(r: Result<LangExpr<'a>, GeneratorError>) -> Result<LangExprV<'a>, GeneratorErrorV> {
    match r {
        Ok(e) => Ok(e@),
        Err(e) => Err(e@),
    }
}

/// Whether two types of the generated code are the same: the same struct,
/// enum or extern type with the same arguments, the same type parameter, or
/// converters or codecs of the same types. The version of a struct or enum
/// does not count.
pub open spec fn same_type_spec<'a>(a: LangTypeV<'a>, b: LangTypeV<'a>) -> bool
    decreases a, 0nat,
{
    match a {
        LangTypeV::Versioned(_, n1, _, a1, _) => match b {
            LangTypeV::Versioned(_, n2, _, a2, _) => n1 == n2 && a1.len() == a2.len() && same_types_upto(a1, a2, a1.len()),
            _ => false,
        },
        LangTypeV::Extern(n1, a1, _) => match b {
            LangTypeV::Extern(n2, a2, _) => n1 == n2 && a1.len() == a2.len() && same_types_upto(a1, a2, a1.len()),
            _ => false,
        },
        LangTypeV::TypeParameter(p1) => match b {
            LangTypeV::TypeParameter(p2) => p1 == p2,
            _ => false,
        },
        LangTypeV::Converter(f1, t1) => match b {
            LangTypeV::Converter(f2, t2) => same_type_spec(*f1, *f2) && same_type_spec(*t1, *t2),
            _ => false,
        },
        LangTypeV::Codec(e1) => match b {
            LangTypeV::Codec(e2) => same_type_spec(*e1, *e2),
            _ => false,
        },
    }
}

/// Whether `a[..n]` and `b[..n]` are the same types pairwise.
pub open spec fn same_types_upto<'a>(a: Seq<LangTypeV<'a>>, b: Seq<LangTypeV<'a>>, n: nat) -> bool
    decreases a, n,
{
    if n == 0 || n > a.len() || n > b.len() {
        true
    } else {
        same_types_upto(a, b, (n - 1) as nat) && same_type_spec(a[n - 1], b[n - 1])
    }
}

impl<'a> LangType<'a> {
    /// Whether two types are the same; the versions of structs and enums do
    /// not count.
    pub fn is_same_type(&self, other: &LangType<'a>) -> (r: bool)
        ensures
            r == same_type_spec(self@, other@),
        decreases self,
    {
        match (self, other) {
            (LangType::Versioned(_, n1, _, a1, _), LangType::Versioned(_, n2, _, a2, _)) => {
                proof {
                    lemma_lang_types_view(a1@);
                    lemma_lang_types_view(a2@);
                }
                n1.equals(n2) && a1.len() == a2.len() && same_type_lists(a1, a2)
            },
            (LangType::Extern(n1, a1, _), LangType::Extern(n2, a2, _)) => {
                proof {
                    lemma_lang_types_view(a1@);
                    lemma_lang_types_view(a2@);
                }
                n1.equals(n2) && a1.len() == a2.len() && same_type_lists(a1, a2)
            },
            (LangType::TypeParameter(p1), LangType::TypeParameter(p2)) => *p1 == *p2,
            (LangType::Converter(f1, t1), LangType::Converter(f2, t2)) => {
                (**f1).is_same_type(&**f2) && (**t1).is_same_type(&**t2)
            },
            (LangType::Codec(e1), LangType::Codec(e2)) => (**e1).is_same_type(&**e2),
            _ => false,
        }
    }
}

/// Whether two lists of types of the same length are the same pairwise.
fn same_type_lists<'a>(a: &Vec<LangType<'a>>, b: &Vec<LangType<'a>>) -> (r: bool)
    requires
        a@.len() == b@.len(),
    ensures
        r == same_types_upto(lang_types_view(a@), lang_types_view(b@), a@.len()),
    decreases a,
{
    proof {
        lemma_lang_types_view(a@);
        lemma_lang_types_view(b@);
    }
    let ghost av = lang_types_view(a@);
    let ghost bv = lang_types_view(b@);
    let mut i: usize = 0;
    while i < a.len()
        invariant
            i <= a@.len(),
            a@.len() == b@.len(),
            av == lang_types_view(a@),
            bv == lang_types_view(b@),
            av.len() == a@.len(),
            bv.len() == b@.len(),
            forall|j: int| 0 <= j < a@.len() ==> #[trigger] av[j] == lang_type_view(a@[j]),
            forall|j: int| 0 <= j < b@.len() ==> #[trigger] bv[j] == lang_type_view(b@[j]),
            same_types_upto(av, bv, i as nat),
        decreases a@.len() - i,
    {
        if !a[i].is_same_type(&b[i]) {
            proof {
                lemma_same_types_upto_false(av, bv, (i + 1) as nat, a@.len());
            }
            return false;
        }
        i = i + 1;
    }
    true
}

/// Once a pair before `k` differs, the lists differ up to any later `n`.
pub proof fn lemma_same_types_upto_false<'a>(a: Seq<LangTypeV<'a>>, b: Seq<LangTypeV<'a>>, k: nat, n: nat)
    requires
        k <= n <= a.len(),
        n <= b.len(),
        !same_types_upto(a, b, k),
    ensures
        !same_types_upto(a, b, n),
    decreases n,
{
    if n > k {
        lemma_same_types_upto_false(a, b, k, (n - 1) as nat);
    }
}

/// Whether the struct and enum names in `t` all name a struct or an enum of
/// `model`, as those of a type built from the model do.
pub open spec fn resolvable<'a>(model: &'a Verilization, t: LangTypeV<'a>) -> bool
    decreases t, 0nat,
{
    match t {
        LangTypeV::Versioned(_, n, _, args, _) => match model.type_def(n) {
            Some(TypeDefinition::StructType(_)) => all_resolvable_upto(model, args, args.len()),
            Some(TypeDefinition::EnumType(_)) => all_resolvable_upto(model, args, args.len()),
            _ => false,
        },
        LangTypeV::Extern(_, args, _) => all_resolvable_upto(model, args, args.len()),
        _ => true,
    }
}

/// Whether `ts[..n]` are all resolvable.
pub open spec fn all_resolvable_upto<'a>(model: &'a Verilization, ts: Seq<LangTypeV<'a>>, n: nat) -> bool
    decreases ts, n,
{
    if n == 0 || n > ts.len() {
        true
    } else {
        all_resolvable_upto(model, ts, (n - 1) as nat) && resolvable(model, ts[n - 1])
    }
}

/// Whether type `t` no longer changes from `version` on: a type parameter
/// does not; a struct or enum does not when it is final, defined for the last
/// time at or before `version`, and its arguments do not change; an extern
/// type does not when its arguments do not; converters and codecs are never
/// final.
pub open spec fn final_in_version_spec<'a>(model: &'a Verilization, version: nat, t: LangTypeV<'a>) -> bool
    decreases t, 0nat,
{
    match t {
        LangTypeV::Versioned(_, n, _, args, _) => match model.type_def(n) {
            Some(TypeDefinition::StructType(d)) => final_definition(d, version) && all_final_upto(model, version, args, args.len()),
            Some(TypeDefinition::EnumType(d)) => final_definition(d, version) && all_final_upto(model, version, args, args.len()),
            _ => false,
        },
        LangTypeV::Extern(_, args, _) => all_final_upto(model, version, args, args.len()),
        LangTypeV::TypeParameter(_) => true,
        LangTypeV::Converter(_, _) => false,
        LangTypeV::Codec(_) => false,
    }
}

/// A definition is final at `version` when it is marked final and given for
/// the last time at or before `version`.
pub open spec fn final_definition(d: VersionedTypeDefinitionData, version: nat) -> bool {
    d.is_final && (d.versions@.len() == 0 || last_version(d.versions@) <= version)
}

/// Whether `ts[..n]` are all final at `version`.
pub open spec fn all_final_upto<'a>(model: &'a Verilization, version: nat, ts: Seq<LangTypeV<'a>>, n: nat) -> bool
    decreases ts, n,
{
    if n == 0 || n > ts.len() {
        true
    } else {
        all_final_upto(model, version, ts, (n - 1) as nat) && final_in_version_spec(model, version, ts[n - 1])
    }
}

impl<'a> LangType<'a> {
    /// Whether the type no longer changes from `version` on.
    pub fn is_final_in_version(&self, version: &BigNat, model: &'a Verilization) -> (r: bool)
        requires
            resolvable(model, self@),
        ensures
            r == final_in_version_spec(model, version@, self@),
        decreases self,
    {
        match self {
            LangType::Versioned(_, name, _, args, _) => {
                let d = match model.get_type(name) {
                    Some(NamedTypeDefinition::StructType(t)) => t,
                    Some(NamedTypeDefinition::EnumType(t)) => t,
                    _ => {
                        proof {
                            assert(false);
                        }
                        return false;
                    },
                };
                let last_ok = match d.value.last_explicit_version() {
                    None => true,
                    Some(last) => last.le(version),
                };
                proof {
                    lemma_lang_types_view(args@);
                }
                d.value.is_final && last_ok && all_final(args, version, model)
            },
            LangType::Extern(_, args, _) => {
                proof {
                    lemma_lang_types_view(args@);
                }
                all_final(args, version, model)
            },
            LangType::TypeParameter(_) => true,
            _ => false,
        }
    }
}

/// Whether a list of types are all final at `version`.
fn all_final<'a>(ts: &Vec<LangType<'a>>, version: &BigNat, model: &'a Verilization) -> (r: bool)
    requires
        all_resolvable_upto(model, lang_types_view(ts@), ts@.len()),
    ensures
        r == all_final_upto(model, version@, lang_types_view(ts@), ts@.len()),
    decreases ts,
{
    proof {
        lemma_lang_types_view(ts@);
    }
    let ghost tv = lang_types_view(ts@);
    let mut i: usize = 0;
    while i < ts.len()
        invariant
            i <= ts@.len(),
            tv == lang_types_view(ts@),
            tv.len() == ts@.len(),
            forall|j: int| 0 <= j < ts@.len() ==> #[trigger] tv[j] == lang_type_view(ts@[j]),
            all_resolvable_upto(model, tv, ts@.len()),
            all_final_upto(model, version@, tv, i as nat),
        decreases ts@.len() - i,
    {
        proof {
            lemma_all_resolvable_at(model, tv, ts@.len(), i as nat);
        }
        if !ts[i].is_final_in_version(version, model) {
            proof {
                lemma_all_final_false(model, version@, tv, (i + 1) as nat, ts@.len());
            }
            return false;
        }
        i = i + 1;
    }
    true
}

/// Each of `ts[..n]` is resolvable when they all are.
pub proof fn lemma_all_resolvable_at<'a>(model: &'a Verilization, ts: Seq<LangTypeV<'a>>, n: nat, i: nat)
    requires
        all_resolvable_upto(model, ts, n),
        i < n <= ts.len(),
    ensures
        resolvable(model, ts[i as int]),
    decreases n,
{
    if i < n - 1 {
        lemma_all_resolvable_at(model, ts, (n - 1) as nat, i);
    }
}

/// Once a type before `k` is not final, the list up to any later `n` is not.
pub proof fn lemma_all_final_false<'a>(model: &'a Verilization, version: nat, ts: Seq<LangTypeV<'a>>, k: nat, n: nat)
    requires
        k <= n <= ts.len(),
        !all_final_upto(model, version, ts, k),
    ensures
        !all_final_upto(model, version, ts, n),
    decreases n,
{
    if n > k {
        lemma_all_final_false(model, version, ts, k, (n - 1) as nat);
    }
}

/// Whether a value of type `t`, written at version `prev`, must be converted
/// to be read at a later version: a type parameter must; a struct or enum
/// must unless it is final, defined for the last time at or before `prev`,
/// and its arguments need no conversion; an extern type never does; an
/// unknown name is taken to need one.
pub open spec fn requires_conversion_spec<'a>(model: &'a Verilization, scope: Scope<'a>, t: Type, prev: nat) -> bool
    decreases t, 1nat,
{
    match scope.lookup_view(t.name@) {
        ScopeLookupView::NamedType(n) => match model.type_def(n) {
            Some(TypeDefinition::StructType(d)) => !final_definition_nonempty(d, prev) || any_requires_upto(model, scope, t.args@, prev, t.args@.len()),
            Some(TypeDefinition::EnumType(d)) => !final_definition_nonempty(d, prev) || any_requires_upto(model, scope, t.args@, prev, t.args@.len()),
            Some(TypeDefinition::ExternType(_)) => false,
            None => true,
        },
        ScopeLookupView::TypeParameter(_) => true,
    }
}

/// A definition is final and was given for the last time at or before `prev`.
pub open spec fn final_definition_nonempty(d: VersionedTypeDefinitionData, prev: nat) -> bool {
    d.is_final && d.versions@.len() > 0 && last_version(d.versions@) <= prev
}

/// Whether any of `args[..n]` must be converted.
pub open spec fn any_requires_upto<'a>(model: &'a Verilization, scope: Scope<'a>, args: Seq<Type>, prev: nat, n: nat) -> bool
    decreases args, n,
{
    if n == 0 || n > args.len() {
        false
    } else {
        any_requires_upto(model, scope, args, prev, (n - 1) as nat) || requires_conversion_spec(model, scope, args[n - 1], prev)
    }
}

/// Once an argument before `k` must be converted, so must the list up to any
/// later `n`.
pub proof fn lemma_any_requires_true<'a>(model: &'a Verilization, scope: Scope<'a>, args: Seq<Type>, prev: nat, k: nat, n: nat)
    requires
        k <= n <= args.len(),
        any_requires_upto(model, scope, args, prev, k),
    ensures
        any_requires_upto(model, scope, args, prev, n),
    decreases n,
{
    if n > k {
        lemma_any_requires_true(model, scope, args, prev, k, (n - 1) as nat);
    }
}

/// The type arguments of a scope's own type parameters: each stands for
/// itself.
pub open spec fn param_args<'a>(ps: Seq<String>) -> Seq<(Seq<char>, LangTypeV<'a>)> {
    Seq::new(ps.len(), |i: int| (ps[i]@, LangTypeV::TypeParameter(ps[i]@)))
}

/// Builds the generated code's types, expressions and operations for the
/// definitions of one scope of a model.
pub struct Generator<'a> {
    pub model: &'a Verilization,
    pub scope: Scope<'a>,
}

/// What a conversion is asked to give: the converter itself, or the
/// converted value of an expression.
pub enum ConvertParam<'a> {
    ConverterObject,
    Expression(LangExpr<'a>),
}

/// The view of what a conversion is asked to give.
pub enum ConvertParamV<'a> {
    ConverterObject,
    Expression(LangExprV<'a>),
}

impl<'a> View for ConvertParam<'a> {
    type V = ConvertParamV<'a>;

    open spec fn view(&self) -> ConvertParamV<'a> {
        match self {
            ConvertParam::ConverterObject => ConvertParamV::ConverterObject,
            ConvertParam::Expression(e) => ConvertParamV::Expression(e@),
        }
    }
}

/// The codec of a type: an operation of the struct, enum or extern type,
/// given the codecs of its arguments in order, or the codec parameter of a
/// type parameter. Converters and codecs have no codec.
pub open spec fn build_codec_spec<'a>(t: LangTypeV<'a>) -> Result<LangExprV<'a>, GeneratorErrorV>
    decreases t, 1nat,
{
    match t {
        LangTypeV::Versioned(_, n, v, args, _) => match codecs_upto(args, args.len()) {
            Err(e) => Err(e),
            Ok(cs) => Ok(LangExprV::InvokeOperation(OperationV::TypeCodec, OperationTargetV::VersionedType(n, v), args, cs)),
        },
        LangTypeV::Extern(n, args, _) => match codecs_upto(args, args.len()) {
            Err(e) => Err(e),
            Ok(cs) => Ok(LangExprV::InvokeOperation(OperationV::TypeCodec, OperationTargetV::ExternType(n), args, cs)),
        },
        LangTypeV::TypeParameter(p) => Ok(LangExprV::Identifier(p + "_codec"@)),
        _ => Err(GeneratorErrorV::InvalidTypeForCodec),
    }
}

/// The codecs of `ts[..n]`, in order; the first error stops.
pub open spec fn codecs_upto<'a>(ts: Seq<LangTypeV<'a>>, n: nat) -> Result<Seq<LangExprV<'a>>, GeneratorErrorV>
    decreases ts, n,
{
    if n == 0 || n > ts.len() {
        Ok(Seq::empty())
    } else {
        match codecs_upto(ts, (n - 1) as nat) {
            Err(e) => Err(e),
            Ok(prev) => match build_codec_spec(ts[n - 1]) {
                Err(e) => Err(e),
                Ok(c) => Ok(prev.push(c)),
            },
        }
    }
}

/// Once the codecs before `k` fail, so do those before any later `n`.
pub proof fn lemma_codecs_upto_err<'a>(ts: Seq<LangTypeV<'a>>, k: nat, n: nat)
    requires
        k <= n <= ts.len(),
        codecs_upto(ts, k) is Err,
    ensures
        codecs_upto(ts, n) == codecs_upto(ts, k),
    decreases n,
{
    if n > k {
        lemma_codecs_upto_err(ts, k, (n - 1) as nat);
    }
}

/// The codecs of a list of types, in order.
fn build_codecs<'a>(ts: &Vec<LangType<'a>>) -> (r: Result<Vec<LangExpr<'a>>, GeneratorError>)
    ensures
        match r {
            Ok(cs) => codecs_upto(lang_types_view(ts@), ts@.len()) == Ok::<Seq<LangExprV<'a>>, GeneratorErrorV>(lang_exprs_view(cs@)),
            Err(e) => codecs_upto(lang_types_view(ts@), ts@.len()) == Err::<Seq<LangExprV<'a>>, GeneratorErrorV>(e@),
        },
    decreases ts,
{
    proof {
        lemma_lang_types_view(ts@);
    }
    let ghost tv = lang_types_view(ts@);
    let mut out: Vec<LangExpr<'a>> = Vec::new();
    let mut i: usize = 0;
    while i < ts.len()
        invariant
            i <= ts@.len(),
            tv == lang_types_view(ts@),
            tv.len() == ts@.len(),
            forall|j: int| 0 <= j < ts@.len() ==> #[trigger] tv[j] == lang_type_view(ts@[j]),
            codecs_upto(tv, i as nat) == Ok::<Seq<LangExprV<'a>>, GeneratorErrorV>(lang_exprs_view(out@)),
        decreases ts@.len() - i,
    {
        let c = match build_codec_ref(&ts[i]) {
            Ok(c) => c,
            Err(e) => {
                proof {
                    lemma_codecs_upto_err(tv, (i + 1) as nat, ts@.len());
                }
                return Err(e);
            },
        };
        let ghost before = out@;
        out.push(c);
        assert(out@.drop_last() =~= before);
        i = i + 1;
    }
    Ok(out)
}

/// The codec of a type.
fn build_codec_ref<'a>(t: &LangType<'a>) -> (r: Result<LangExpr<'a>, GeneratorError>)
    ensures
        expr_result(r) == build_codec_spec(t@),
    decreases t,
{
    match t {
        LangType::Versioned(_, name, version, args, _) => {
            proof {
                lemma_lang_types_view(args@);
            }
            let codec_args = match build_codecs(args) {
                Ok(cs) => cs,
                Err(e) => return Err(e),
            };
            Ok(LangExpr::InvokeOperation(
                Operation::TypeCodec,
                OperationTarget::VersionedType(*name, version.copy()),
                copy_types(args),
                codec_args,
            ))
        },
        LangType::Extern(name, args, _) => {
            proof {
                lemma_lang_types_view(args@);
            }
            let codec_args = match build_codecs(args) {
                Ok(cs) => cs,
                Err(e) => return Err(e),
            };
            Ok(LangExpr::InvokeOperation(Operation::TypeCodec, OperationTarget::ExternType(*name), copy_types(args), codec_args))
        },
        LangType::TypeParameter(name) => Ok(LangExpr::Identifier(codec_codec_param_name(name.as_str()))),
        _ => Err(GeneratorError::InvalidTypeForCodec),
    }
}

impl<'a> Generator<'a> {
    /// The type arguments of the scope's own type parameters.
    fn own_type_args(&self) -> (r: Vec<(String, LangType<'a>)>)
        ensures
            type_args_view(r@) == param_args::<'a>(self.scope.params_view()),
    {
        let params = self.scope.type_params();
        let mut out: Vec<(String, LangType<'a>)> = Vec::new();
        let mut i: usize = 0;
        while i < params.len()
            invariant
                i <= params@.len(),
                params@ == self.scope.params_view(),
                type_args_view(out@) =~= param_args::<'a>(params@).take(i as int),
            decreases params@.len() - i,
        {
            let ghost before = out@;
            let p1 = params[i].clone();
            let p2 = params[i].clone();
            let tp = LangType::TypeParameter(p2);
            assert(tp@ == LangTypeV::<'a>::TypeParameter(params@[i as int]@));
            out.push((p1, tp));
            assert(out@.drop_last() =~= before);
            assert(type_args_view(out@) == type_args_view(before).push((params@[i as int]@, LangTypeV::<'a>::TypeParameter(params@[i as int]@))));
            assert(type_args_view(out@) =~= param_args::<'a>(params@).take(i + 1));
            i = i + 1;
        }
        assert(param_args::<'a>(params@).take(i as int) =~= param_args::<'a>(params@));
        out
    }

    /// The type that `t` stands for at `version` in the generator's scope.
    pub fn build_type(&self, version: &BigNat, t: &Type) -> (r: Result<LangType<'a>, GeneratorError>)
        ensures
            type_result(r) == build_type_spec(self.model, version@, *t, self.scope, param_args(self.scope.params_view())),
    {
        let type_args = self.own_type_args();
        build_type_impl(self.model, version, t, &self.scope, &type_args)
    }

    /// The codec of a type.
    pub fn build_codec(&self, t: LangType<'a>) -> (r: Result<LangExpr<'a>, GeneratorError>)
        ensures
            expr_result(r) == build_codec_spec(t@),
    {
        build_codec_ref(&t)
    }

    /// Whether a value of type `t` written at version `prev` must be
    /// converted.
    pub fn requires_conversion(&self, t: &Type, prev_ver: &BigNat) -> (r: bool)
        ensures
            r == requires_conversion_spec(self.model, self.scope, *t, prev_ver@),
        decreases t,
    {
        match self.scope.lookup(t.name.copy()) {
            ScopeLookup::NamedType(name) => match self.model.get_type(&name) {
                Some(NamedTypeDefinition::StructType(d)) | Some(NamedTypeDefinition::EnumType(d)) => {
                    let last_le = match d.value.last_explicit_version() {
                        Some(last) => last.le(prev_ver),
                        None => false,
                    };
                    if !(d.value.is_final && last_le) {
                        return true;
                    }
                    assert(requires_conversion_spec(self.model, self.scope, *t, prev_ver@)
                        == any_requires_upto(self.model, self.scope, t.args@, prev_ver@, t.args@.len()));
                    let mut i: usize = 0;
                    while i < t.args.len()
                        invariant
                            i <= t.args@.len(),
                            requires_conversion_spec(self.model, self.scope, *t, prev_ver@)
                                == any_requires_upto(self.model, self.scope, t.args@, prev_ver@, t.args@.len()),
                            !any_requires_upto(self.model, self.scope, t.args@, prev_ver@, i as nat),
                        decreases t.args@.len() - i,
                    {
                        if self.requires_conversion(&t.args[i], prev_ver) {
                            proof {
                                lemma_any_requires_true(self.model, self.scope, t.args@, prev_ver@, (i + 1) as nat, t.args@.len());
                            }
                            return true;
                        }
                        i = i + 1;
                    }
                    false
                },
                Some(NamedTypeDefinition::ExternType(_)) => false,
                None => true,
            },
            ScopeLookup::TypeParameter(_) => true,
        }
    }
}

/// The conversion of a value of type `t` from version `prev` to `version`.
/// A type that needs no conversion gives the identity converter of its type
/// at `version`, or the value unchanged; any other gives its converter, or
/// the converter applied to the value.
pub open spec fn build_conversion_spec<'a>(
    model: &'a Verilization,
    scope: Scope<'a>,
    prev: nat,
    version: nat,
    t: Type,
    param: ConvertParamV<'a>,
) -> Result<LangExprV<'a>, GeneratorErrorV>
    decreases t, 2nat,
{
    if !requires_conversion_spec(model, scope, t, prev) {
        match param {
            ConvertParamV::ConverterObject => match build_type_spec(model, version, t, scope, param_args(scope.params_view())) {
                Err(e) => Err(e),
                Ok(x) => Ok(LangExprV::IdentityConverter(x)),
            },
            ConvertParamV::Expression(e) => Ok(e),
        }
    } else {
        match converter_spec(model, scope, prev, version, t) {
            Err(e) => Err(e),
            Ok(c) => match param {
                ConvertParamV::ConverterObject => Ok(c),
                ConvertParamV::Expression(e) => Ok(LangExprV::InvokeConverter(Box::new(c), Box::new(e))),
            },
        }
    }
}

/// The converter of type `t` from version `prev` to `version`: the
/// converter operation of the struct, enum or extern type, given each
/// argument's type at both versions and its converter; or the converter
/// parameter of a type parameter. A struct or enum whose definition in effect
/// at `version` is older than `version` uses its final converter, any other
/// its conversion from `prev`.
pub open spec fn converter_spec<'a>(model: &'a Verilization, scope: Scope<'a>, prev: nat, version: nat, t: Type) -> Result<LangExprV<'a>, GeneratorErrorV>
    decreases t, 1nat,
{
    match scope.lookup_view(t.name@) {
        ScopeLookupView::NamedType(n) => match conv_args_upto(model, scope, prev, version, t.args@, t.args@.len()) {
            Err(e) => Err(e),
            Ok((ts, cs)) => match model.named_type(n) {
                None => Err(GeneratorErrorV::CouldNotFind(n)),
                Some(NamedTypeDefinition::StructType(td)) => versioned_converter(n, td, prev, version, ts, cs),
                Some(NamedTypeDefinition::EnumType(td)) => versioned_converter(n, td, prev, version, ts, cs),
                Some(NamedTypeDefinition::ExternType(td)) => Ok(LangExprV::InvokeOperation(
                    OperationV::FinalTypeConverter,
                    OperationTargetV::ExternType(td.name@),
                    ts,
                    cs,
                )),
            },
        },
        ScopeLookupView::TypeParameter(p) => Ok(LangExprV::Identifier(p + "_conv"@)),
    }
}

/// The converter operation of a struct or enum.
pub open spec fn versioned_converter<'a>(
    n: NameView,
    td: Named<'a, VersionedTypeDefinitionData>,
    prev: nat,
    version: nat,
    ts: Seq<LangTypeV<'a>>,
    cs: Seq<LangExprV<'a>>,
) -> Result<LangExprV<'a>, GeneratorErrorV> {
    match td.value.version_in_effect(version) {
        None => Err(GeneratorErrorV::CouldNotFindVersion(n, version)),
        Some((ev, _)) => Ok(LangExprV::InvokeOperation(
            if ev < version { OperationV::FinalTypeConverter } else { OperationV::FromPreviousVersion(prev) },
            OperationTargetV::VersionedType(td.name@, ev),
            ts,
            cs,
        )),
    }
}

/// For `args[..n]` in order: the type of each at `prev` and at `version`,
/// and its converter; the first error stops.
pub open spec fn conv_args_upto<'a>(
    model: &'a Verilization,
    scope: Scope<'a>,
    prev: nat,
    version: nat,
    args: Seq<Type>,
    n: nat,
) -> Result<(Seq<LangTypeV<'a>>, Seq<LangExprV<'a>>), GeneratorErrorV>
    decreases args, n,
{
    if n == 0 || n > args.len() {
        Ok((Seq::empty(), Seq::empty()))
    } else {
        match conv_args_upto(model, scope, prev, version, args, (n - 1) as nat) {
            Err(e) => Err(e),
            Ok((ts, cs)) => match build_type_spec(model, prev, args[n - 1], scope, param_args(scope.params_view())) {
                Err(e) => Err(e),
                Ok(x) => match build_type_spec(model, version, args[n - 1], scope, param_args(scope.params_view())) {
                    Err(e) => Err(e),
                    Ok(y) => match build_conversion_spec(model, scope, prev, version, args[n - 1], ConvertParamV::ConverterObject) {
                        Err(e) => Err(e),
                        Ok(c) => Ok((ts.push(x).push(y), cs.push(c))),
                    },
                },
            },
        }
    }
}

/// Once the arguments before `k` fail, so do those before any later `n`.
pub proof fn lemma_conv_args_upto_err<'a>(
    model: &'a Verilization,
    scope: Scope<'a>,
    prev: nat,
    version: nat,
    args: Seq<Type>,
    k: nat,
    n: nat,
)
    requires
        k <= n <= args.len(),
        conv_args_upto(model, scope, prev, version, args, k) is Err,
    ensures
        conv_args_upto(model, scope, prev, version, args, n) == conv_args_upto(model, scope, prev, version, args, k),
    decreases n,
{
    if n > k {
        lemma_conv_args_upto_err(model, scope, prev, version, args, k, (n - 1) as nat);
    }
}

impl<'a> Generator<'a> {
    /// The conversion of a value of type `t` from version `prev_ver` to
    /// `version`: the converter itself, or the converted value of an
    /// expression.
    pub fn build_conversion(&self, prev_ver: &BigNat, version: &BigNat, t: &Type, param: ConvertParam<'a>) -> (r: Result<LangExpr<'a>, GeneratorError>)
        ensures
            expr_result(r) == build_conversion_spec(self.model, self.scope, prev_ver@, version@, *t, param@),
        decreases t,
    {
        if !self.requires_conversion(t, prev_ver) {
            return match param {
                ConvertParam::ConverterObject => match self.build_type(version, t) {
                    Ok(x) => Ok(LangExpr::IdentityConverter(x)),
                    Err(e) => Err(e),
                },
                ConvertParam::Expression(expr) => Ok(expr),
            };
        }
        let converter = match self.scope.lookup(t.name.copy()) {
            ScopeLookup::NamedType(name) => {
                let mut op_type_args: Vec<LangType<'a>> = Vec::new();
                let mut op_args: Vec<LangExpr<'a>> = Vec::new();
                let mut i: usize = 0;
                while i < t.args.len()
                    invariant
                        i <= t.args@.len(),
                        requires_conversion_spec(self.model, self.scope, *t, prev_ver@),
                        self.scope.lookup_view(t.name@) == ScopeLookupView::NamedType(name@),
                        conv_args_upto(self.model, self.scope, prev_ver@, version@, t.args@, i as nat)
                            == Ok::<(Seq<LangTypeV<'a>>, Seq<LangExprV<'a>>), GeneratorErrorV>((lang_types_view(op_type_args@), lang_exprs_view(op_args@))),
                    decreases t.args@.len() - i,
                {
                    let a = match self.build_type(prev_ver, &t.args[i]) {
                        Ok(a) => a,
                        Err(e) => {
                            proof {
                                lemma_conv_args_upto_err(self.model, self.scope, prev_ver@, version@, t.args@, (i + 1) as nat, t.args@.len());
                            }
                            return Err(e);
                        },
                    };
                    let b = match self.build_type(version, &t.args[i]) {
                        Ok(b) => b,
                        Err(e) => {
                            proof {
                                lemma_conv_args_upto_err(self.model, self.scope, prev_ver@, version@, t.args@, (i + 1) as nat, t.args@.len());
                            }
                            return Err(e);
                        },
                    };
                    let c = match self.build_conversion(prev_ver, version, &t.args[i], ConvertParam::ConverterObject) {
                        Ok(c) => c,
                        Err(e) => {
                            proof {
                                lemma_conv_args_upto_err(self.model, self.scope, prev_ver@, version@, t.args@, (i + 1) as nat, t.args@.len());
                            }
                            return Err(e);
                        },
                    };
                    let ghost ts0 = op_type_args@;
                    let ghost cs0 = op_args@;
                    let ghost (av, bv, cv) = (a@, b@, c@);
                    op_type_args.push(a);
                    assert(op_type_args@.drop_last() =~= ts0);
                    let ghost ts1 = op_type_args@;
                    assert(lang_types_view(ts1) == lang_types_view(ts0).push(av));
                    op_type_args.push(b);
                    assert(op_type_args@.drop_last() =~= ts1);
                    assert(lang_types_view(op_type_args@) == lang_types_view(ts0).push(av).push(bv));
                    op_args.push(c);
                    assert(op_args@.drop_last() =~= cs0);
                    assert(lang_exprs_view(op_args@) == lang_exprs_view(cs0).push(cv));
                    i = i + 1;
                }
                match self.model.get_type(&name) {
                    None => return Err(GeneratorError::CouldNotFind(name)),
                    Some(NamedTypeDefinition::StructType(td)) | Some(NamedTypeDefinition::EnumType(td)) => {
                        let ver_type = match td.value.versioned(version) {
                            Some(v) => v,
                            None => return Err(GeneratorError::CouldNotFindVersion(name, version.copy())),
                        };
                        let operation = if ver_type.version.lt(version) {
                            Operation::FinalTypeConverter
                        } else {
                            Operation::FromPreviousVersion(prev_ver.copy())
                        };
                        LangExpr::InvokeOperation(operation, OperationTarget::VersionedType(td.name, ver_type.version), op_type_args, op_args)
                    },
                    Some(NamedTypeDefinition::ExternType(td)) => {
                        LangExpr::InvokeOperation(Operation::FinalTypeConverter, OperationTarget::ExternType(td.name), op_type_args, op_args)
                    },
                }
            },
            ScopeLookup::TypeParameter(name) => LangExpr::Identifier(convert_conv_param_name(name.as_str())),
        };
        assert(converter_spec(self.model, self.scope, prev_ver@, version@, *t) == Ok::<LangExprV<'a>, GeneratorErrorV>(converter@));
        Ok(match param {
            ConvertParam::ConverterObject => converter,
            ConvertParam::Expression(expr) => LangExpr::InvokeConverter { converter: Box::new(converter), value: Box::new(expr) },
        })
    }
}

/// Whether an integer literal of an extern type admits `n`: each bound that
/// is given holds, inclusively or exclusively as it says.
pub open spec fn int_admits<'a>(lit: LangLiteralV<'a>, n: int) -> bool {
    match lit {
        LangLiteralV::Integer(lb, lv, ub, uv) => (match lv {
            None => true,
            Some(x) => match lb {
                ExternLiteralIntBound::Inclusive => n >= x,
                ExternLiteralIntBound::Exclusive => n > x,
            },
        }) && (match uv {
            None => true,
            Some(x) => match ub {
                ExternLiteralIntBound::Inclusive => n <= x,
                ExternLiteralIntBound::Exclusive => n < x,
            },
        }),
        _ => false,
    }
}

/// Whether an extern type accepts the integer `n`: some integer literal of
/// it admits `n`.
pub open spec fn valid_integer_spec<'a>(n: int, l: LiteralsV<'a>) -> Result<bool, GeneratorErrorV> {
    match literals_spec(l) {
        Err(e) => Err(e),
        Ok(ls) => Ok(some_int_admits(ls, n)),
    }
}

/// Whether some literal of `ls` is an integer literal that admits `n`.
pub open spec fn some_int_admits<'a>(ls: Seq<LangLiteralV<'a>>, n: int) -> bool {
    exists|i: int| 0 <= i < ls.len() && #[trigger] int_admits(ls[i], n)
}

/// Whether an integer literal admits `n`.
fn literal_admits(lit: &LangLiteral, n: &BigInt) -> (r: bool)
    ensures
        r == int_admits(lit@, n@),
{
    match lit {
        LangLiteral::Integer(lb, lv, ub, uv) => {
            let lower = match lv {
                None => true,
                Some(x) => match lb {
                    ExternLiteralIntBound::Inclusive => x.le(n),
                    ExternLiteralIntBound::Exclusive => x.lt(n),
                },
            };
            let upper = match uv {
                None => true,
                Some(x) => match ub {
                    ExternLiteralIntBound::Inclusive => n.le(x),
                    ExternLiteralIntBound::Exclusive => n.lt(x),
                },
            };
            lower && upper
        },
        _ => false,
    }
}

/// Whether an extern type accepts the integer `n`.
pub fn is_valid_integer_for_type<'a>(n: &BigInt, literals: &LangExternTypeLiterals<'a>) -> (r: Result<bool, GeneratorError>)
    ensures
        match r {
            Ok(b) => valid_integer_spec(n@, literals@) == Ok::<bool, GeneratorErrorV>(b),
            Err(e) => valid_integer_spec(n@, literals@) == Err::<bool, GeneratorErrorV>(e@),
        },
{
    let ls = match literals.build() {
        Ok(ls) => ls,
        Err(e) => return Err(e),
    };
    let ghost lv = ls@.map_values(|l: LangLiteral<'a>| l@);
    let mut i: usize = 0;
    while i < ls.len()
        invariant
            i <= ls@.len(),
            lv == ls@.map_values(|l: LangLiteral<'a>| l@),
            literals_spec(literals@) == Ok::<Seq<LangLiteralV<'a>>, GeneratorErrorV>(lv),
            forall|j: int| 0 <= j < i ==> !int_admits(#[trigger] lv[j], n@),
        decreases ls@.len() - i,
    {
        if literal_admits(&ls[i], n) {
            assert(int_admits(lv[i as int], n@));
            assert(some_int_admits(lv, n@));
            return Ok(true);
        }
        i = i + 1;
    }
    Ok(false)
}

/// The element type of the first sequence literal, if there is one.
pub open spec fn first_sequence_literal<'a>(ls: Seq<LangLiteralV<'a>>) -> Option<LangTypeV<'a>>
    decreases ls.len(),
{
    if ls.len() == 0 {
        None
    } else {
        match ls[0] {
            LangLiteralV::Sequence(t) => Some(t),
            _ => first_sequence_literal(ls.drop_first()),
        }
    }
}

/// The parameter types of the first case literal named `name`, if there is
/// one.
pub open spec fn first_case_literal<'a>(ls: Seq<LangLiteralV<'a>>, name: Seq<char>) -> Option<Seq<LangTypeV<'a>>>
    decreases ls.len(),
{
    if ls.len() == 0 {
        None
    } else {
        match ls[0] {
            LangLiteralV::Case(n, ps) => if n == name { Some(ps) } else { first_case_literal(ls.drop_first(), name) },
            _ => first_case_literal(ls.drop_first(), name),
        }
    }
}

/// The fields of the first record literal, if there is one.
pub open spec fn first_record_literal<'a>(ls: Seq<LangLiteralV<'a>>) -> Option<Seq<(Seq<char>, LangTypeV<'a>)>>
    decreases ls.len(),
{
    if ls.len() == 0 {
        None
    } else {
        match ls[0] {
            LangLiteralV::Record(fs) => Some(fs),
            _ => first_record_literal(ls.drop_first()),
        }
    }
}

/// The index of the first field named `name`, if there is one.
pub open spec fn first_field_named<'a>(fs: Seq<(Seq<char>, LangTypeV<'a>)>, name: Seq<char>) -> Option<int>
    decreases fs.len(),
{
    if fs.len() == 0 {
        None
    } else if fs[0].0 == name {
        Some(0)
    } else {
        match first_field_named(fs.drop_first(), name) {
            None => None,
            Some(i) => Some(i + 1),
        }
    }
}

/// Whether some field in `fs` is named `name`.
pub open spec fn names_field<'a>(fs: Seq<(Seq<char>, LangTypeV<'a>)>, name: Seq<char>) -> bool {
    exists|i: int| 0 <= i < fs.len() && fs[i].0 == name
}

/// The value of a constant as an expression of the generated code, for a
/// constant of type `t` at `version`.
///
/// An integer needs an extern type with an integer literal that admits it,
/// and a string one with a string literal. A sequence needs an extern type
/// with a sequence literal, whose element type each element gets. A case
/// of an enum takes one argument, of the type of the case of that name; a
/// case of an extern type takes the parameters of its first case literal of
/// that name. A record gives each field of a struct, or of the first record
/// literal of an extern type, the value named like it, which must be there
/// and is used once. A constant reference names a constant that exists at
/// `version` and whose type is the same as `t`.
pub open spec fn build_value_spec<'a>(
    model: &'a Verilization,
    scope: Scope<'a>,
    version: nat,
    t: LangTypeV<'a>,
    value: ConstantValue,
) -> Result<LangExprV<'a>, GeneratorErrorV>
    decreases value, 0nat,
{
    match value {
        ConstantValue::Integer(n) => match t {
            LangTypeV::Extern(name, args, lits) => match valid_integer_spec(n@, lits) {
                Err(e) => Err(e),
                Ok(false) => Err(GeneratorErrorV::InvalidTypeForIntValue),
                Ok(true) => Ok(LangExprV::InvokeOperation(
                    OperationV::FromInteger,
                    OperationTargetV::ExternType(name),
                    args,
                    seq![LangExprV::IntegerLiteral(n@)],
                )),
            },
            _ => Err(GeneratorErrorV::InvalidTypeForIntValue),
        },
        ConstantValue::String(s) => match t {
            LangTypeV::Extern(name, args, lits) => match literals_spec(lits) {
                Err(e) => Err(e),
                Ok(ls) => if has_string_literal(ls) {
                    Ok(LangExprV::InvokeOperation(
                        OperationV::FromString,
                        OperationTargetV::ExternType(name),
                        args,
                        seq![LangExprV::StringLiteral(s@)],
                    ))
                } else {
                    Err(GeneratorErrorV::InvalidTypeForString)
                },
            },
            _ => Err(GeneratorErrorV::InvalidTypeForString),
        },
        ConstantValue::Sequence(elems) => match t {
            LangTypeV::Extern(name, args, lits) => match literals_spec(lits) {
                Err(e) => Err(e),
                Ok(ls) => match first_sequence_literal(ls) {
                    None => Err(GeneratorErrorV::TypeCannotBeSequence(name)),
                    Some(et) => match values_upto(model, scope, version, et, elems@, elems@.len()) {
                        Err(e) => Err(e),
                        Ok(xs) => Ok(LangExprV::InvokeOperation(OperationV::FromSequence, OperationTargetV::ExternType(name), args, xs)),
                    },
                },
            },
            LangTypeV::Versioned(_, name, _, _, _) => Err(GeneratorErrorV::TypeCannotBeSequence(name)),
            _ => Err(GeneratorErrorV::InvalidTypeForConstant),
        },
        ConstantValue::Case(case_name, cargs) => match t {
            LangTypeV::Versioned(VersionedTypeKind::Enum, name, tv, targs, fields) => if cargs@.len() == 1 {
                match fields_spec(fields) {
                    Err(e) => Err(e),
                    Ok(fs) => match first_field_named(fs, case_name@) {
                        None => Err(GeneratorErrorV::TypeDoesNotHaveCase(name, Some(tv), case_name@)),
                        Some(i) => match build_value_spec(model, scope, version, fs[i].1, cargs@[0]) {
                            Err(e) => Err(e),
                            Ok(x) => Ok(LangExprV::CreateEnum(name, tv, targs, fs[i].0, Box::new(x))),
                        },
                    },
                }
            } else {
                Err(GeneratorErrorV::IncorrectCaseArity(name, case_name@))
            },
            LangTypeV::Extern(name, targs, lits) => match literals_spec(lits) {
                Err(e) => Err(e),
                Ok(ls) => match first_case_literal(ls, case_name@) {
                    None => Err(GeneratorErrorV::TypeDoesNotHaveCase(name, None, case_name@)),
                    Some(ps) => match zip_values_upto(model, scope, version, ps, cargs@, if cargs@.len() <= ps.len() { cargs@.len() } else { ps.len() }) {
                        Err(e) => Err(e),
                        Ok(xs) => Ok(LangExprV::InvokeOperation(OperationV::FromCase(case_name@), OperationTargetV::ExternType(name), targs, xs)),
                    },
                },
            },
            LangTypeV::Versioned(VersionedTypeKind::Struct, _, _, _, _) => Err(GeneratorErrorV::RecordLiteralNotForStruct),
            _ => Err(GeneratorErrorV::InvalidTypeForConstant),
        },
        ConstantValue::Record(rec) => match t {
            LangTypeV::Versioned(VersionedTypeKind::Struct, name, tv, targs, fields) => match fields_spec(fields) {
                Err(e) => Err(e),
                Ok(fs) => match record_values_upto(model, scope, version, rec@, fs, fs.len(), name, Some(tv)) {
                    Err(e) => Err(e),
                    Ok(xs) => Ok(LangExprV::CreateStruct(name, tv, targs, xs)),
                },
            },
            LangTypeV::Extern(name, targs, lits) => match literals_spec(lits) {
                Err(e) => Err(e),
                Ok(ls) => match first_record_literal(ls) {
                    None => Err(GeneratorErrorV::ExternTypeDoesNotHaveRecordLiteral(name)),
                    Some(fs) => match record_values_upto(model, scope, version, rec@, fs, fs.len(), name, None) {
                        Err(e) => Err(e),
                        Ok(xs) => Ok(LangExprV::InvokeOperation(
                            OperationV::FromRecord(fs.map_values(|f: (Seq<char>, LangTypeV<'a>)| f.0)),
                            OperationTargetV::ExternType(name),
                            targs,
                            xs.map_values(|x: (Seq<char>, LangExprV<'a>)| x.1),
                        )),
                    },
                },
            },
            _ => Err(GeneratorErrorV::InvalidTypeForConstant),
        },
        ConstantValue::Constant(cn) => match scope.lookup_view(cn@) {
            ScopeLookupView::NamedType(n) => match model.constant_def(n) {
                None => Err(GeneratorErrorV::CouldNotFind(n)),
                Some(c) => if c.value_in_effect(model.latest(), version) is None {
                    Err(GeneratorErrorV::CouldNotFindVersion(n, version))
                } else {
                    match build_type_spec(model, version, c.value_type, scope, param_args(scope.params_view())) {
                        Err(e) => Err(e),
                        Ok(ct) => if !same_type_spec(t, ct) {
                            Err(GeneratorErrorV::TypeMismatch)
                        } else {
                            Ok(LangExprV::ConstantValue(n, version))
                        },
                    }
                },
            },
            ScopeLookupView::TypeParameter(p) => Err(GeneratorErrorV::CouldNotFind((Seq::empty(), p))),
        },
    }
}

/// The values `vs[..n]`, each of type `et`, in order; the first error stops.
pub open spec fn values_upto<'a>(
    model: &'a Verilization,
    scope: Scope<'a>,
    version: nat,
    et: LangTypeV<'a>,
    vs: Seq<ConstantValue>,
    n: nat,
) -> Result<Seq<LangExprV<'a>>, GeneratorErrorV>
    decreases vs, n,
{
    if n == 0 || n > vs.len() {
        Ok(Seq::empty())
    } else {
        match values_upto(model, scope, version, et, vs, (n - 1) as nat) {
            Err(e) => Err(e),
            Ok(prev) => match build_value_spec(model, scope, version, et, vs[n - 1]) {
                Err(e) => Err(e),
                Ok(x) => Ok(prev.push(x)),
            },
        }
    }
}

/// The values `vs[..n]`, each of the type in the same place of `ts`, in
/// order; the first error stops.
pub open spec fn zip_values_upto<'a>(
    model: &'a Verilization,
    scope: Scope<'a>,
    version: nat,
    ts: Seq<LangTypeV<'a>>,
    vs: Seq<ConstantValue>,
    n: nat,
) -> Result<Seq<LangExprV<'a>>, GeneratorErrorV>
    decreases vs, n,
{
    if n == 0 || n > vs.len() || n > ts.len() {
        Ok(Seq::empty())
    } else {
        match zip_values_upto(model, scope, version, ts, vs, (n - 1) as nat) {
            Err(e) => Err(e),
            Ok(prev) => match build_value_spec(model, scope, version, ts[n - 1], vs[n - 1]) {
                Err(e) => Err(e),
                Ok(x) => Ok(prev.push(x)),
            },
        }
    }
}

/// The values of the fields `fs[..n]` taken from the record `rec`, in order:
/// each field takes the value given last under its name, which must be there
/// and not taken by an earlier field; the first error stops.
pub open spec fn record_values_upto<'a>(
    model: &'a Verilization,
    scope: Scope<'a>,
    version: nat,
    rec: Seq<(String, ConstantValue)>,
    fs: Seq<(Seq<char>, LangTypeV<'a>)>,
    n: nat,
    owner: NameView,
    owner_version: Option<nat>,
) -> Result<Seq<(Seq<char>, LangExprV<'a>)>, GeneratorErrorV>
    decreases rec, n,
{
    if n == 0 || n > fs.len() {
        Ok(Seq::empty())
    } else {
        match record_values_upto(model, scope, version, rec, fs, (n - 1) as nat, owner, owner_version) {
            Err(e) => Err(e),
            Ok(prev) => {
                let name = fs[n - 1].0;
                let j = last_named(rec, name);
                if names_field(fs.take(n - 1), name) || j < 0 || j >= rec.len() {
                    Err(GeneratorErrorV::CouldNotFindRecordField(owner, owner_version, name))
                } else {
                    match build_value_spec(model, scope, version, fs[n - 1].1, rec[j].1) {
                        Err(e) => Err(e),
                        Ok(x) => Ok(prev.push((name, x))),
                    }
                }
            },
        }
    }
}

/// Whether some literal of `ls` is the string literal.
pub open spec fn has_string_literal<'a>(ls: Seq<LangLiteralV<'a>>) -> bool {
    exists|i: int| 0 <= i < ls.len() && #[trigger] ls[i] is Str
}

/// The views of a list of literals.
pub open spec fn literals_view<'a>(ls: Seq<LangLiteral<'a>>) -> Seq<LangLiteralV<'a>> {
    ls.map_values(|l: LangLiteral<'a>| l@)
}

/// Whether a list of literals holds the string literal.
fn find_string_literal<'a>(ls: &Vec<LangLiteral<'a>>) -> (r: bool)
    ensures
        r == has_string_literal(literals_view(ls@)),
{
    let ghost lv = literals_view(ls@);
    let mut i: usize = 0;
    while i < ls.len()
        invariant
            i <= ls@.len(),
            lv == literals_view(ls@),
            forall|j: int| 0 <= j < i ==> !(#[trigger] lv[j] is Str),
        decreases ls@.len() - i,
    {
        if let LangLiteral::String = &ls[i] {
            assert(lv[i as int] is Str);
            return true;
        }
        i = i + 1;
    }
    false
}

/// The element type of the first sequence literal of a list.
fn find_sequence_literal<'a>(ls: &Vec<LangLiteral<'a>>) -> (r: Option<LangType<'a>>)
    ensures
        match first_sequence_literal(literals_view(ls@)) {
            None => r is None,
            Some(t) => r matches Some(x) && x@ == t,
        },
{
    let ghost lv = literals_view(ls@);
    assert(lv.skip(0) =~= lv);
    let mut i: usize = 0;
    while i < ls.len()
        invariant
            i <= ls@.len(),
            lv == literals_view(ls@),
            first_sequence_literal(lv) == first_sequence_literal(lv.skip(i as int)),
        decreases ls@.len() - i,
    {
        assert(lv.skip(i as int)[0] == lv[i as int]);
        if let LangLiteral::Sequence(t) = &ls[i] {
            return Some(t.copy());
        }
        assert(lv.skip(i as int).drop_first() =~= lv.skip(i + 1));
        i = i + 1;
    }
    assert(lv.skip(i as int).len() == 0);
    None
}

/// The parameter types of the first case literal named `name` of a list.
fn find_case_literal<'a>(ls: &Vec<LangLiteral<'a>>, name: &String) -> (r: Option<Vec<LangType<'a>>>)
    ensures
        match first_case_literal(literals_view(ls@), name@) {
            None => r is None,
            Some(ps) => r matches Some(x) && lang_types_view(x@) == ps,
        },
{
    let ghost lv = literals_view(ls@);
    assert(lv.skip(0) =~= lv);
    let mut i: usize = 0;
    while i < ls.len()
        invariant
            i <= ls@.len(),
            lv == literals_view(ls@),
            first_case_literal(lv, name@) == first_case_literal(lv.skip(i as int), name@),
        decreases ls@.len() - i,
    {
        assert(lv.skip(i as int)[0] == lv[i as int]);
        if let LangLiteral::Case(n, ps) = &ls[i] {
            if *n == *name {
                return Some(copy_types(ps));
            }
        }
        assert(lv.skip(i as int).drop_first() =~= lv.skip(i + 1));
        i = i + 1;
    }
    assert(lv.skip(i as int).len() == 0);
    None
}

/// The position of the first record literal of a list.
fn find_record_literal<'a>(ls: &Vec<LangLiteral<'a>>) -> (r: Option<usize>)
    ensures
        match first_record_literal(literals_view(ls@)) {
            None => r is None,
            Some(fs) => r matches Some(k) && k < ls@.len() && (ls@[k as int] matches LangLiteral::Record(x) && lang_fields_view(x@) == fs),
        },
{
    let ghost lv = literals_view(ls@);
    assert(lv.skip(0) =~= lv);
    let mut i: usize = 0;
    while i < ls.len()
        invariant
            i <= ls@.len(),
            lv == literals_view(ls@),
            first_record_literal(lv) == first_record_literal(lv.skip(i as int)),
        decreases ls@.len() - i,
    {
        assert(lv.skip(i as int)[0] == lv[i as int]);
        if let LangLiteral::Record(_) = &ls[i] {
            return Some(i);
        }
        assert(lv.skip(i as int).drop_first() =~= lv.skip(i + 1));
        i = i + 1;
    }
    assert(lv.skip(i as int).len() == 0);
    None
}

/// `first_field_named` shifted past the first `i` fields.
pub open spec fn shift_index(r: Option<int>, i: int) -> Option<int> {
    match r {
        None => None,
        Some(k) => Some(k + i),
    }
}

/// The position of the first field named `name`.
fn find_field<'a>(fs: &Vec<LangField<'a>>, name: &String) -> (r: Option<usize>)
    ensures
        match first_field_named(lang_fields_view(fs@), name@) {
            None => r is None,
            Some(k) => r matches Some(j) && j == k && k < fs@.len(),
        },
{
    let ghost fv = lang_fields_view(fs@);
    assert(fv.skip(0) =~= fv);
    let mut i: usize = 0;
    while i < fs.len()
        invariant
            i <= fs@.len(),
            fv == lang_fields_view(fs@),
            first_field_named(fv, name@) == shift_index(first_field_named(fv.skip(i as int), name@), i as int),
        decreases fs@.len() - i,
    {
        assert(fv.skip(i as int)[0] == fv[i as int]);
        if *fs[i].name == *name {
            return Some(i);
        }
        assert(fv.skip(i as int).drop_first() =~= fv.skip(i + 1));
        i = i + 1;
    }
    assert(fv.skip(i as int).len() == 0);
    None
}

/// A list of one expression.
fn single_expr<'a>(e: LangExpr<'a>) -> (r: Vec<LangExpr<'a>>)
    ensures
        lang_exprs_view(r@) == seq![e@],
{
    let ghost ev = e@;
    let mut v: Vec<LangExpr<'a>> = Vec::new();
    v.push(e);
    assert(v@.drop_last() =~= Seq::<LangExpr<'a>>::empty());
    assert(lang_exprs_view(Seq::<LangExpr<'a>>::empty()) == Seq::<LangExprV<'a>>::empty());
    assert(lang_exprs_view(v@) =~= seq![ev]);
    v
}

/// Once the values before `k` fail, so do those before any later `n`.
pub proof fn lemma_values_upto_err<'a>(
    model: &'a Verilization,
    scope: Scope<'a>,
    version: nat,
    et: LangTypeV<'a>,
    vs: Seq<ConstantValue>,
    k: nat,
    n: nat,
)
    requires
        k <= n <= vs.len(),
        values_upto(model, scope, version, et, vs, k) is Err,
    ensures
        values_upto(model, scope, version, et, vs, n) == values_upto(model, scope, version, et, vs, k),
    decreases n,
{
    if n > k {
        lemma_values_upto_err(model, scope, version, et, vs, k, (n - 1) as nat);
    }
}

/// Once the values before `k` fail, so do those before any later `n`.
pub proof fn lemma_zip_values_upto_err<'a>(
    model: &'a Verilization,
    scope: Scope<'a>,
    version: nat,
    ts: Seq<LangTypeV<'a>>,
    vs: Seq<ConstantValue>,
    k: nat,
    n: nat,
)
    requires
        k <= n <= vs.len(),
        n <= ts.len(),
        zip_values_upto(model, scope, version, ts, vs, k) is Err,
    ensures
        zip_values_upto(model, scope, version, ts, vs, n) == zip_values_upto(model, scope, version, ts, vs, k),
    decreases n,
{
    if n > k {
        lemma_zip_values_upto_err(model, scope, version, ts, vs, k, (n - 1) as nat);
    }
}

/// Once the fields before `k` fail, so do those before any later `n`.
pub proof fn lemma_record_values_upto_err<'a>(
    model: &'a Verilization,
    scope: Scope<'a>,
    version: nat,
    rec: Seq<(String, ConstantValue)>,
    fs: Seq<(Seq<char>, LangTypeV<'a>)>,
    k: nat,
    n: nat,
    owner: NameView,
    owner_version: Option<nat>,
)
    requires
        k <= n <= fs.len(),
        record_values_upto(model, scope, version, rec, fs, k, owner, owner_version) is Err,
    ensures
        record_values_upto(model, scope, version, rec, fs, n, owner, owner_version)
            == record_values_upto(model, scope, version, rec, fs, k, owner, owner_version),
    decreases n,
{
    if n > k {
        lemma_record_values_upto_err(model, scope, version, rec, fs, k, (n - 1) as nat, owner, owner_version);
    }
}

/// Whether a list of fields has one named `name`.
fn fields_name<'a>(fs: &Vec<LangField<'a>>, upto: usize, name: &String) -> (r: bool)
    requires
        upto <= fs@.len(),
    ensures
        r == names_field(lang_fields_view(fs@).take(upto as int), name@),
{
    let ghost fv = lang_fields_view(fs@).take(upto as int);
    let mut i: usize = 0;
    while i < upto
        invariant
            i <= upto <= fs@.len(),
            fv == lang_fields_view(fs@).take(upto as int),
            forall|j: int| 0 <= j < i ==> #[trigger] fv[j].0 != name@,
        decreases upto - i,
    {
        if *fs[i].name == *name {
            assert(fv[i as int].0 == name@);
            return true;
        }
        i = i + 1;
    }
    false
}

impl<'a> Generator<'a> {
    /// The values of a list of constant values, each of type `et`.
    fn build_values(&self, version: &BigNat, et: &LangType<'a>, vs: &Vec<ConstantValue>) -> (r: Result<Vec<LangExpr<'a>>, GeneratorError>)
        ensures
            match r {
                Ok(xs) => values_upto(self.model, self.scope, version@, et@, vs@, vs@.len()) == Ok::<Seq<LangExprV<'a>>, GeneratorErrorV>(lang_exprs_view(xs@)),
                Err(e) => values_upto(self.model, self.scope, version@, et@, vs@, vs@.len()) == Err::<Seq<LangExprV<'a>>, GeneratorErrorV>(e@),
            },
        decreases vs,
    {
        let mut out: Vec<LangExpr<'a>> = Vec::new();
        let mut i: usize = 0;
        while i < vs.len()
            invariant
                i <= vs@.len(),
                values_upto(self.model, self.scope, version@, et@, vs@, i as nat) == Ok::<Seq<LangExprV<'a>>, GeneratorErrorV>(lang_exprs_view(out@)),
            decreases vs@.len() - i,
        {
            let x = match self.build_value(version, et.copy(), &vs[i]) {
                Ok(x) => x,
                Err(e) => {
                    proof {
                        lemma_values_upto_err(self.model, self.scope, version@, et@, vs@, (i + 1) as nat, vs@.len());
                    }
                    return Err(e);
                },
            };
            let ghost before = out@;
            out.push(x);
            assert(out@.drop_last() =~= before);
            i = i + 1;
        }
        Ok(out)
    }

    /// The values of a list of constant values, each of the type in the
    /// same place of `ts`, as far as both lists go.
    fn build_zip_values(&self, version: &BigNat, ts: &Vec<LangType<'a>>, vs: &Vec<ConstantValue>) -> (r: Result<Vec<LangExpr<'a>>, GeneratorError>)
        ensures
            ({
                let n = if vs@.len() <= ts@.len() { vs@.len() } else { ts@.len() };
                match r {
                    Ok(xs) => zip_values_upto(self.model, self.scope, version@, lang_types_view(ts@), vs@, n) == Ok::<Seq<LangExprV<'a>>, GeneratorErrorV>(lang_exprs_view(xs@)),
                    Err(e) => zip_values_upto(self.model, self.scope, version@, lang_types_view(ts@), vs@, n) == Err::<Seq<LangExprV<'a>>, GeneratorErrorV>(e@),
                }
            }),
        decreases vs,
    {
        proof {
            lemma_lang_types_view(ts@);
        }
        let ghost tv = lang_types_view(ts@);
        let ghost n: nat = if vs@.len() <= ts@.len() { vs@.len() } else { ts@.len() };
        let mut out: Vec<LangExpr<'a>> = Vec::new();
        let mut i: usize = 0;
        while i < vs.len() && i < ts.len()
            invariant
                i <= vs@.len(),
                i <= ts@.len(),
                i <= n,
                n == (if vs@.len() <= ts@.len() { vs@.len() } else { ts@.len() }),
                tv == lang_types_view(ts@),
                tv.len() == ts@.len(),
                forall|j: int| 0 <= j < ts@.len() ==> #[trigger] tv[j] == lang_type_view(ts@[j]),
                zip_values_upto(self.model, self.scope, version@, tv, vs@, i as nat) == Ok::<Seq<LangExprV<'a>>, GeneratorErrorV>(lang_exprs_view(out@)),
            decreases vs@.len() - i,
        {
            let x = match self.build_value(version, ts[i].copy(), &vs[i]) {
                Ok(x) => x,
                Err(e) => {
                    proof {
                        lemma_zip_values_upto_err(self.model, self.scope, version@, tv, vs@, (i + 1) as nat, n);
                    }
                    return Err(e);
                },
            };
            let ghost before = out@;
            out.push(x);
            assert(out@.drop_last() =~= before);
            i = i + 1;
        }
        Ok(out)
    }

    /// The values of the fields `fs` taken from the record `rec`.
    fn build_record_values(
        &self,
        version: &BigNat,
        rec: &Vec<(String, ConstantValue)>,
        fs: &Vec<LangField<'a>>,
        owner: &QualifiedName,
        owner_version: &Option<BigNat>,
    ) -> (r: Result<Vec<(&'a String, LangExpr<'a>)>, GeneratorError>)
        ensures
            match r {
                Ok(xs) => record_values_upto(self.model, self.scope, version@, rec@, lang_fields_view(fs@), fs@.len(), owner@, opt_nat(*owner_version))
                    == Ok::<Seq<(Seq<char>, LangExprV<'a>)>, GeneratorErrorV>(named_exprs_view(xs@)),
                Err(e) => record_values_upto(self.model, self.scope, version@, rec@, lang_fields_view(fs@), fs@.len(), owner@, opt_nat(*owner_version))
                    == Err::<Seq<(Seq<char>, LangExprV<'a>)>, GeneratorErrorV>(e@),
            },
        decreases rec,
    {
        let ghost fv = lang_fields_view(fs@);
        let ghost ov = opt_nat(*owner_version);
        let mut out: Vec<(&'a String, LangExpr<'a>)> = Vec::new();
        let mut i: usize = 0;
        while i < fs.len()
            invariant
                i <= fs@.len(),
                fv == lang_fields_view(fs@),
                ov == opt_nat(*owner_version),
                record_values_upto(self.model, self.scope, version@, rec@, fv, i as nat, owner@, ov)
                    == Ok::<Seq<(Seq<char>, LangExprV<'a>)>, GeneratorErrorV>(named_exprs_view(out@)),
            decreases fs@.len() - i,
        {
            let name: &'a String = fs[i].name;
            assert(fv[i as int].0 == name@);
            assert(fv.take((i + 1) as int - 1) =~= fv.take(i as int));
            let taken = fields_name(fs, i, name);
            let j = match find_last_named(rec, name) {
                Some(j) => j,
                None => {
                    proof {
                        lemma_record_values_upto_err(self.model, self.scope, version@, rec@, fv, (i + 1) as nat, fs@.len(), owner@, ov);
                    }
                    let ov2 = match owner_version { Some(v) => Some(v.copy()), None => None };
                    return Err(GeneratorError::CouldNotFindRecordField(owner.copy(), ov2, name.clone()));
                },
            };
            proof {
                lemma_last_named(rec@, name@);
            }
            if taken {
                proof {
                    lemma_record_values_upto_err(self.model, self.scope, version@, rec@, fv, (i + 1) as nat, fs@.len(), owner@, ov);
                }
                let ov2 = match owner_version { Some(v) => Some(v.copy()), None => None };
                return Err(GeneratorError::CouldNotFindRecordField(owner.copy(), ov2, name.clone()));
            }
            let x = match self.build_value(version, fs[i].field_type.copy(), &rec[j].1) {
                Ok(x) => x,
                Err(e) => {
                    proof {
                        lemma_record_values_upto_err(self.model, self.scope, version@, rec@, fv, (i + 1) as nat, fs@.len(), owner@, ov);
                    }
                    return Err(e);
                },
            };
            let ghost before = out@;
            out.push((name, x));
            assert(out@.drop_last() =~= before);
            i = i + 1;
        }
        Ok(out)
    }

    /// The value of a constant as an expression of the generated code, for
    /// a constant of type `t` at `version`.
    pub fn build_value(&self, version: &BigNat, t: LangType<'a>, value: &ConstantValue) -> (r: Result<LangExpr<'a>, GeneratorError>)
        ensures
            expr_result(r) == build_value_spec(self.model, self.scope, version@, t@, *value),
        decreases value,
    {
        match value {
            ConstantValue::Integer(n) => match t {
                LangType::Extern(name, args, literals) => match is_valid_integer_for_type(n, &literals) {
                    Err(e) => Err(e),
                    Ok(false) => Err(GeneratorError::InvalidTypeForIntValue),
                    Ok(true) => {
                        let xs = single_expr(LangExpr::IntegerLiteral(n.copy()));
                        Ok(LangExpr::InvokeOperation(Operation::FromInteger, OperationTarget::ExternType(name), args, xs))
                    },
                },
                _ => Err(GeneratorError::InvalidTypeForIntValue),
            },
            ConstantValue::String(s) => match t {
                LangType::Extern(name, args, literals) => {
                    let ls = match literals.build() {
                        Ok(ls) => ls,
                        Err(e) => return Err(e),
                    };
                    if find_string_literal(&ls) {
                        let xs = single_expr(LangExpr::StringLiteral(s.clone()));
                        Ok(LangExpr::InvokeOperation(Operation::FromString, OperationTarget::ExternType(name), args, xs))
                    } else {
                        Err(GeneratorError::InvalidTypeForString)
                    }
                },
                _ => Err(GeneratorError::InvalidTypeForString),
            },
            ConstantValue::Sequence(elems) => match t {
                LangType::Extern(name, args, literals) => {
                    let ls = match literals.build() {
                        Ok(ls) => ls,
                        Err(e) => return Err(e),
                    };
                    let et = match find_sequence_literal(&ls) {
                        Some(et) => et,
                        None => return Err(GeneratorError::TypeCannotBeSequence(name.copy())),
                    };
                    let xs = match self.build_values(version, &et, elems) {
                        Ok(xs) => xs,
                        Err(e) => return Err(e),
                    };
                    Ok(LangExpr::InvokeOperation(Operation::FromSequence, OperationTarget::ExternType(name), args, xs))
                },
                LangType::Versioned(_, name, _, _, _) => Err(GeneratorError::TypeCannotBeSequence(name.copy())),
                _ => Err(GeneratorError::InvalidTypeForConstant),
            },
            ConstantValue::Case(case_name, cargs) => match t {
                LangType::Versioned(VersionedTypeKind::Enum, name, tver, targs, fields) => {
                    if cargs.len() != 1 {
                        return Err(GeneratorError::IncorrectCaseArity(name.copy(), case_name.clone()));
                    }
                    let fs = match fields.build() {
                        Ok(fs) => fs,
                        Err(e) => return Err(e),
                    };
                    let k = match find_field(&fs, case_name) {
                        Some(k) => k,
                        None => return Err(GeneratorError::TypeDoesNotHaveCase(name.copy(), Some(tver.copy()), case_name.clone())),
                    };
                    let x = match self.build_value(version, fs[k].field_type.copy(), &cargs[0]) {
                        Ok(x) => x,
                        Err(e) => return Err(e),
                    };
                    Ok(LangExpr::CreateEnum(name, tver, targs, fs[k].name, Box::new(x)))
                },
                LangType::Extern(name, targs, literals) => {
                    let ls = match literals.build() {
                        Ok(ls) => ls,
                        Err(e) => return Err(e),
                    };
                    let ps = match find_case_literal(&ls, case_name) {
                        Some(ps) => ps,
                        None => return Err(GeneratorError::TypeDoesNotHaveCase(name.copy(), None, case_name.clone())),
                    };
                    proof {
                        lemma_lang_types_view(ps@);
                    }
                    let xs = match self.build_zip_values(version, &ps, cargs) {
                        Ok(xs) => xs,
                        Err(e) => return Err(e),
                    };
                    Ok(LangExpr::InvokeOperation(Operation::FromCase(case_name.clone()), OperationTarget::ExternType(name), targs, xs))
                },
                LangType::Versioned(VersionedTypeKind::Struct, _, _, _, _) => Err(GeneratorError::RecordLiteralNotForStruct),
                _ => Err(GeneratorError::InvalidTypeForConstant),
            },
            ConstantValue::Record(rec) => match t {
                LangType::Versioned(VersionedTypeKind::Struct, name, tver, targs, fields) => {
                    let fs = match fields.build() {
                        Ok(fs) => fs,
                        Err(e) => return Err(e),
                    };
                    let ov = Some(tver.copy());
                    let xs = match self.build_record_values(version, rec, &fs, name, &ov) {
                        Ok(xs) => xs,
                        Err(e) => return Err(e),
                    };
                    Ok(LangExpr::CreateStruct(name, tver, targs, xs))
                },
                LangType::Extern(name, targs, literals) => {
                    let ls = match literals.build() {
                        Ok(ls) => ls,
                        Err(e) => return Err(e),
                    };
                    let k = match find_record_literal(&ls) {
                        Some(k) => k,
                        None => return Err(GeneratorError::ExternTypeDoesNotHaveRecordLiteral(name.copy())),
                    };
                    let fs = match &ls[k] {
                        LangLiteral::Record(fs) => fs,
                        _ => {
                            proof {
                                assert(false);
                            }
                            return Err(GeneratorError::InvalidTypeForConstant);
                        },
                    };
                    let none: Option<BigNat> = None;
                    let pairs = match self.build_record_values(version, rec, fs, name, &none) {
                        Ok(xs) => xs,
                        Err(e) => return Err(e),
                    };
                    let (names, xs) = split_named(fs, pairs);
                    Ok(LangExpr::InvokeOperation(Operation::FromRecord(names), OperationTarget::ExternType(name), targs, xs))
                },
                _ => Err(GeneratorError::InvalidTypeForConstant),
            },
            ConstantValue::Constant(cn) => match self.scope.lookup(cn.copy()) {
                ScopeLookup::NamedType(n) => {
                    let c = match self.model.get_constant(&n) {
                        Some(c) => c,
                        None => return Err(GeneratorError::CouldNotFind(n)),
                    };
                    if !c.has_version(version) {
                        return Err(GeneratorError::CouldNotFindVersion(n, version.copy()));
                    }
                    let ct = match self.build_type(version, &c.value.value_type) {
                        Ok(ct) => ct,
                        Err(e) => return Err(e),
                    };
                    if !t.is_same_type(&ct) {
                        return Err(GeneratorError::TypeMismatch);
                    }
                    Ok(LangExpr::ConstantValue(c.name, version.copy()))
                },
                ScopeLookup::TypeParameter(p) => Err(GeneratorError::CouldNotFind(QualifiedName { package: PackageName::new(), name: p })),
            },
        }
    }
}

/// The names of a record literal's fields, and the expressions of the
/// values they were given.
fn split_named<'a>(fs: &Vec<LangField<'a>>, pairs: Vec<(&'a String, LangExpr<'a>)>) -> (r: (Vec<String>, Vec<LangExpr<'a>>))
    ensures
        r.0@.map_values(|s: String| s@) == lang_fields_view(fs@).map_values(|f: (Seq<char>, LangTypeV<'a>)| f.0),
        lang_exprs_view(r.1@) == named_exprs_view(pairs@).map_values(|x: (Seq<char>, LangExprV<'a>)| x.1),
{
    let mut names: Vec<String> = Vec::new();
    let mut i: usize = 0;
    while i < fs.len()
        invariant
            i <= fs@.len(),
            names@.len() == i,
            names@.map_values(|s: String| s@) =~= lang_fields_view(fs@).map_values(|f: (Seq<char>, LangTypeV<'a>)| f.0).take(i as int),
        decreases fs@.len() - i,
    {
        let nm = fs[i].name.clone();
        let ghost before = names@;
        names.push(nm);
        assert(names@[i as int]@ == fs@[i as int].name@);
        assert(lang_fields_view(fs@)[i as int].0 == fs@[i as int].name@);
        assert(names@.map_values(|s: String| s@) =~= lang_fields_view(fs@).map_values(|f: (Seq<char>, LangTypeV<'a>)| f.0).take(i + 1));
        i = i + 1;
    }
    assert(lang_fields_view(fs@).map_values(|f: (Seq<char>, LangTypeV<'a>)| f.0).take(i as int)
        =~= lang_fields_view(fs@).map_values(|f: (Seq<char>, LangTypeV<'a>)| f.0));
    let mut xs: Vec<LangExpr<'a>> = Vec::new();
    let count = pairs.len();
    let mut rest = pairs;
    let ghost all = pairs@;
    proof {
        lemma_named_exprs_view(all);
    }
    let mut k: usize = 0;
    let ghost total = all.len();
    while rest.len() > 0
        invariant
            rest@ == all.skip(k as int),
            k <= total == all.len(),
            rest@.len() == total - k,
            total == count,
            named_exprs_view(all).len() == all.len(),
            forall|j: int| 0 <= j < all.len() ==> #[trigger] named_exprs_view(all)[j] == (all[j].0@, lang_expr_view(all[j].1)),
            lang_exprs_view(xs@) =~= named_exprs_view(all).map_values(|x: (Seq<char>, LangExprV<'a>)| x.1).take(k as int),
        decreases rest@.len(),
    {
        let (_, x) = rest.remove(0);
        let ghost before = xs@;
        xs.push(x);
        assert(xs@.drop_last() =~= before);
        assert(rest@ =~= all.skip(k + 1));
        k = k + 1;
        assert(lang_exprs_view(xs@) =~= named_exprs_view(all).map_values(|x: (Seq<char>, LangExprV<'a>)| x.1).take(k as int));
    }
    assert(named_exprs_view(all).map_values(|x: (Seq<char>, LangExprV<'a>)| x.1).take(k as int)
        =~= named_exprs_view(all).map_values(|x: (Seq<char>, LangExprV<'a>)| x.1));
    (names, xs)
}

/// `named_exprs_view` element by element.
pub proof fn lemma_named_exprs_view<'a>(es: Seq<(&'a String, LangExpr<'a>)>)
    ensures
        named_exprs_view(es).len() == es.len(),
        forall|i: int| 0 <= i < es.len() ==> #[trigger] named_exprs_view(es)[i] == (es[i].0@, lang_expr_view(es[i].1)),
    decreases es.len(),
{
    if es.len() > 0 {
        lemma_named_exprs_view(es.drop_last());
    }
}

/// A statement of the generated code: expressions evaluated in turn and
/// perhaps a resulting value, a match on the case of an enum value, or a
/// match on a discriminator read from the input.
pub enum LangStmt<'a> {
    Expr(Vec<LangExpr<'a>>, Option<LangExpr<'a>>),
    MatchEnum { value: LangExpr<'a>, value_type: LangType<'a>, cases: Vec<MatchCase<'a>> },
    MatchDiscriminator { value: LangExpr<'a>, cases: Vec<(BigNat, LangStmt<'a>)> },
}

/// One case of a match on an enum value: the name bound to the case's
/// value, the case's name and what is done.
pub struct MatchCase<'a> {
    pub binding_name: String,
    pub case_name: String,
    pub body: LangStmt<'a>,
}

/// The view of a statement of the generated code. A case of an enum match
/// is its binding name, its case name and its body.
pub enum LangStmtV<'a> {
    Expr(Seq<LangExprV<'a>>, Option<LangExprV<'a>>),
    MatchEnum(LangExprV<'a>, LangTypeV<'a>, Seq<(Seq<char>, Seq<char>, LangStmtV<'a>)>),
    MatchDiscriminator(LangExprV<'a>, Seq<(nat, LangStmtV<'a>)>),
}

/// The view of an optional expression.
pub open spec fn opt_expr_view<'a>(e: Option<LangExpr<'a>>) -> Option<LangExprV<'a>> {
    match e {
        Some(x) => Some(x@),
        None => None,
    }
}

/// The view of a statement of the generated code.
pub open spec fn lang_stmt_view<'a>(s: LangStmt<'a>) -> LangStmtV<'a>
    decreases s, 0nat,
{
    match s {
        LangStmt::Expr(es, r) => LangStmtV::Expr(lang_exprs_view(es@), opt_expr_view(r)),
        LangStmt::MatchEnum { value, value_type, cases } => LangStmtV::MatchEnum(value@, value_type@, match_cases_view(cases@)),
        LangStmt::MatchDiscriminator { value, cases } => LangStmtV::MatchDiscriminator(value@, disc_cases_view(cases@)),
    }
}

/// The views of the cases of an enum match.
pub open spec fn match_cases_view<'a>(cs: Seq<MatchCase<'a>>) -> Seq<(Seq<char>, Seq<char>, LangStmtV<'a>)>
    decreases cs, cs.len(),
{
    if cs.len() == 0 {
        Seq::empty()
    } else {
        match_cases_view(cs.drop_last()).push((cs.last().binding_name@, cs.last().case_name@, lang_stmt_view(cs.last().body)))
    }
}

/// The views of the cases of a discriminator match.
pub open spec fn disc_cases_view<'a>(cs: Seq<(BigNat, LangStmt<'a>)>) -> Seq<(nat, LangStmtV<'a>)>
    decreases cs, cs.len(),
{
    if cs.len() == 0 {
        Seq::empty()
    } else {
        disc_cases_view(cs.drop_last()).push((cs.last().0@, lang_stmt_view(cs.last().1)))
    }
}

impl<'a> View for LangStmt<'a> {
    type V = LangStmtV<'a>;

    open spec fn view(&self) -> LangStmtV<'a> {
        lang_stmt_view(*self)
    }
}

/// The view of a result that holds a statement.
pub open spec fn stmt_result<'a>(r: Result<LangStmt<'a>, GeneratorError>) -> Result<LangStmtV<'a>, GeneratorErrorV> {
    match r {
        Ok(s) => Ok(s@),
        Err(e) => Err(e@),
    }
}

/// Whether a statement gives a value: an expression statement with a
/// resulting value does, and a match does when one of its cases does.
pub open spec fn has_value_spec<'a>(s: LangStmtV<'a>) -> bool
    decreases s, 0nat,
{
    match s {
        LangStmtV::Expr(_, r) => r is Some,
        LangStmtV::MatchEnum(_, _, cases) => enum_cases_have_value(cases, cases.len()),
        LangStmtV::MatchDiscriminator(_, cases) => disc_cases_have_value(cases, cases.len()),
    }
}

/// Whether one of `cases[..n]` gives a value.
pub open spec fn enum_cases_have_value<'a>(cases: Seq<(Seq<char>, Seq<char>, LangStmtV<'a>)>, n: nat) -> bool
    decreases cases, n,
{
    if n == 0 || n > cases.len() {
        false
    } else {
        enum_cases_have_value(cases, (n - 1) as nat) || has_value_spec(cases[n - 1].2)
    }
}

/// Whether one of `cases[..n]` gives a value.
pub open spec fn disc_cases_have_value<'a>(cases: Seq<(nat, LangStmtV<'a>)>, n: nat) -> bool
    decreases cases, n,
{
    if n == 0 || n > cases.len() {
        false
    } else {
        disc_cases_have_value(cases, (n - 1) as nat) || has_value_spec(cases[n - 1].1)
    }
}

/// `match_cases_view` element by element.
pub proof fn lemma_match_cases_view<'a>(cs: Seq<MatchCase<'a>>)
    ensures
        match_cases_view(cs).len() == cs.len(),
        forall|i: int| 0 <= i < cs.len() ==> #[trigger] match_cases_view(cs)[i]
            == (cs[i].binding_name@, cs[i].case_name@, lang_stmt_view(cs[i].body)),
    decreases cs.len(),
{
    if cs.len() > 0 {
        lemma_match_cases_view(cs.drop_last());
    }
}

/// `disc_cases_view` element by element.
pub proof fn lemma_disc_cases_view<'a>(cs: Seq<(BigNat, LangStmt<'a>)>)
    ensures
        disc_cases_view(cs).len() == cs.len(),
        forall|i: int| 0 <= i < cs.len() ==> #[trigger] disc_cases_view(cs)[i] == (cs[i].0@, lang_stmt_view(cs[i].1)),
    decreases cs.len(),
{
    if cs.len() > 0 {
        lemma_disc_cases_view(cs.drop_last());
    }
}

/// Once a case before `k` gives a value, so do the cases up to any later `n`.
pub proof fn lemma_enum_cases_value<'a>(cases: Seq<(Seq<char>, Seq<char>, LangStmtV<'a>)>, k: nat, n: nat)
    requires
        k <= n <= cases.len(),
        enum_cases_have_value(cases, k),
    ensures
        enum_cases_have_value(cases, n),
    decreases n,
{
    if n > k {
        lemma_enum_cases_value(cases, k, (n - 1) as nat);
    }
}

/// Once a case before `k` gives a value, so do the cases up to any later `n`.
pub proof fn lemma_disc_cases_value<'a>(cases: Seq<(nat, LangStmtV<'a>)>, k: nat, n: nat)
    requires
        k <= n <= cases.len(),
        disc_cases_have_value(cases, k),
    ensures
        disc_cases_have_value(cases, n),
    decreases n,
{
    if n > k {
        lemma_disc_cases_value(cases, k, (n - 1) as nat);
    }
}

impl<'a> LangStmt<'a> {
    /// Whether the statement gives a value.
    pub fn has_value(&self) -> (r: bool)
        ensures
            r == has_value_spec(self@),
        decreases self,
    {
        match self {
            LangStmt::Expr(_, None) => false,
            LangStmt::Expr(_, Some(_)) => true,
            LangStmt::MatchEnum { cases, .. } => {
                proof {
                    lemma_match_cases_view(cases@);
                }
                enum_cases_value(cases)
            },
            LangStmt::MatchDiscriminator { cases, .. } => {
                proof {
                    lemma_disc_cases_view(cases@);
                }
                disc_cases_value(cases)
            },
        }
    }
}

/// Whether one of the cases of an enum match gives a value.
fn enum_cases_value<'a>(cases: &Vec<MatchCase<'a>>) -> (r: bool)
    ensures
        r == enum_cases_have_value(match_cases_view(cases@), cases@.len()),
    decreases cases,
{
    proof {
        lemma_match_cases_view(cases@);
    }
    let ghost cv = match_cases_view(cases@);
    let mut i: usize = 0;
    while i < cases.len()
        invariant
            i <= cases@.len(),
            cv == match_cases_view(cases@),
            cv.len() == cases@.len(),
            forall|j: int| 0 <= j < cases@.len() ==> #[trigger] cv[j]
                == (cases@[j].binding_name@, cases@[j].case_name@, lang_stmt_view(cases@[j].body)),
            !enum_cases_have_value(cv, i as nat),
        decreases cases@.len() - i,
    {
        if cases[i].body.has_value() {
            proof {
                lemma_enum_cases_value(cv, (i + 1) as nat, cv.len());
            }
            return true;
        }
        i = i + 1;
    }
    false
}

/// Whether one of the cases of a discriminator match gives a value.
fn disc_cases_value<'a>(cases: &Vec<(BigNat, LangStmt<'a>)>) -> (r: bool)
    ensures
        r == disc_cases_have_value(disc_cases_view(cases@), cases@.len()),
    decreases cases,
{
    proof {
        lemma_disc_cases_view(cases@);
    }
    let ghost cv = disc_cases_view(cases@);
    let mut i: usize = 0;
    while i < cases.len()
        invariant
            i <= cases@.len(),
            cv == disc_cases_view(cases@),
            cv.len() == cases@.len(),
            forall|j: int| 0 <= j < cases@.len() ==> #[trigger] cv[j] == (cases@[j].0@, lang_stmt_view(cases@[j].1)),
            !disc_cases_have_value(cv, i as nat),
        decreases cases@.len() - i,
    {
        if cases[i].1.has_value() {
            proof {
                lemma_disc_cases_value(cv, (i + 1) as nat, cv.len());
            }
            return true;
        }
        i = i + 1;
    }
    false
}

/// How an operation is carried out: by an expression, or by creating a
/// codec from how it reads and writes, or a converter from its body.
pub enum LangExprStmt<'a> {
    Expr(LangExpr<'a>),
    CreateCodec { t: LangType<'a>, read: Box<LangStmt<'a>>, write: Box<LangStmt<'a>> },
    CreateConverter { from_type: LangType<'a>, to_type: LangType<'a>, body: Box<LangStmt<'a>> },
}

/// The view of how an operation is carried out.
pub enum LangExprStmtV<'a> {
    Expr(LangExprV<'a>),
    CreateCodec(LangTypeV<'a>, LangStmtV<'a>, LangStmtV<'a>),
    CreateConverter(LangTypeV<'a>, LangTypeV<'a>, LangStmtV<'a>),
}

impl<'a> View for LangExprStmt<'a> {
    type V = LangExprStmtV<'a>;

    open spec fn view(&self) -> LangExprStmtV<'a> {
        match self {
            LangExprStmt::Expr(e) => LangExprStmtV::Expr(e@),
            LangExprStmt::CreateCodec { t, read, write } => LangExprStmtV::CreateCodec(t@, (**read)@, (**write)@),
            LangExprStmt::CreateConverter { from_type, to_type, body } => LangExprStmtV::CreateConverter(from_type@, to_type@, (**body)@),
        }
    }
}

/// An operation of a type at one of its versions: what it is, its type
/// parameters, its parameters, its result type and how it is carried out.
pub struct OperationInfo<'a> {
    pub operation: Operation,
    pub version: BigNat,
    pub type_params: Vec<String>,
    pub params: Vec<(String, LangType<'a>)>,
    pub result: LangType<'a>,
    pub implementation: LangExprStmt<'a>,
}

/// The view of an operation of a type.
pub struct OperationInfoV<'a> {
    pub operation: OperationV,
    pub version: nat,
    pub type_params: Seq<Seq<char>>,
    pub params: Seq<(Seq<char>, LangTypeV<'a>)>,
    pub result: LangTypeV<'a>,
    pub implementation: LangExprStmtV<'a>,
}

impl<'a> View for OperationInfo<'a> {
    type V = OperationInfoV<'a>;

    open spec fn view(&self) -> OperationInfoV<'a> {
        OperationInfoV {
            operation: self.operation@,
            version: self.version@,
            type_params: self.type_params@.map_values(|p: String| p@),
            params: type_args_view(self.params@),
            result: self.result@,
            implementation: self.implementation@,
        }
    }
}

/// How a codec reads a value of type `t`, a version of the struct or enum
/// named `owner`: a struct reads each field with its codec, in order; an
/// enum reads a discriminator and then the case it numbers, counting from 0.
pub open spec fn codec_read_spec<'a>(owner: NameView, t: LangTypeV<'a>) -> Result<LangStmtV<'a>, GeneratorErrorV> {
    match t {
        LangTypeV::Versioned(VersionedTypeKind::Struct, _, v, targs, fields) => match fields_spec(fields) {
            Err(e) => Err(e),
            Ok(fs) => match read_fields_upto(fs, fs.len()) {
                Err(e) => Err(e),
                Ok(xs) => Ok(LangStmtV::Expr(Seq::empty(), Some(LangExprV::CreateStruct(owner, v, targs, xs)))),
            },
        },
        LangTypeV::Versioned(VersionedTypeKind::Enum, _, v, targs, fields) => match fields_spec(fields) {
            Err(e) => Err(e),
            Ok(fs) => match read_cases_upto(owner, v, targs, fs, fs.len()) {
                Err(e) => Err(e),
                Ok(cs) => Ok(LangStmtV::MatchDiscriminator(LangExprV::ReadDiscriminator, cs)),
            },
        },
        _ => Err(GeneratorErrorV::InvalidTypeForCodec),
    }
}

/// Each of the fields `fs[..n]` read with its codec.
pub open spec fn read_fields_upto<'a>(fs: Seq<(Seq<char>, LangTypeV<'a>)>, n: nat) -> Result<Seq<(Seq<char>, LangExprV<'a>)>, GeneratorErrorV>
    decreases n,
{
    if n == 0 || n > fs.len() {
        Ok(Seq::empty())
    } else {
        match read_fields_upto(fs, (n - 1) as nat) {
            Err(e) => Err(e),
            Ok(prev) => match build_codec_spec(fs[n - 1].1) {
                Err(e) => Err(e),
                Ok(c) => Ok(prev.push((fs[n - 1].0, LangExprV::CodecRead(Box::new(c))))),
            },
        }
    }
}

/// The cases `fs[..n]` of an enum read with their codecs, each numbered by
/// its position.
pub open spec fn read_cases_upto<'a>(
    owner: NameView,
    v: nat,
    targs: Seq<LangTypeV<'a>>,
    fs: Seq<(Seq<char>, LangTypeV<'a>)>,
    n: nat,
) -> Result<Seq<(nat, LangStmtV<'a>)>, GeneratorErrorV>
    decreases n,
{
    if n == 0 || n > fs.len() {
        Ok(Seq::empty())
    } else {
        match read_cases_upto(owner, v, targs, fs, (n - 1) as nat) {
            Err(e) => Err(e),
            Ok(prev) => match build_codec_spec(fs[n - 1].1) {
                Err(e) => Err(e),
                Ok(c) => Ok(prev.push((
                    (n - 1) as nat,
                    LangStmtV::Expr(Seq::empty(), Some(LangExprV::CreateEnum(owner, v, targs, fs[n - 1].0, Box::new(LangExprV::CodecRead(Box::new(c)))))),
                ))),
            },
        }
    }
}

/// How a codec writes a value of type `t`, a version of the struct or enum
/// named `owner`: a struct writes each field of `value` with its codec, in
/// order; an enum matches the case of `value` and writes its number,
/// counting from 0, and then its value.
pub open spec fn codec_write_spec<'a>(owner: NameView, t: LangTypeV<'a>) -> Result<LangStmtV<'a>, GeneratorErrorV> {
    match t {
        LangTypeV::Versioned(VersionedTypeKind::Struct, _, v, _, fields) => match fields_spec(fields) {
            Err(e) => Err(e),
            Ok(fs) => match write_fields_upto(owner, v, fs, fs.len()) {
                Err(e) => Err(e),
                Ok(xs) => Ok(LangStmtV::Expr(xs, None)),
            },
        },
        LangTypeV::Versioned(VersionedTypeKind::Enum, _, _, _, fields) => match fields_spec(fields) {
            Err(e) => Err(e),
            Ok(fs) => match write_cases_upto(fs, fs.len()) {
                Err(e) => Err(e),
                Ok(cs) => Ok(LangStmtV::MatchEnum(LangExprV::Identifier("value"@), t, cs)),
            },
        },
        _ => Err(GeneratorErrorV::InvalidTypeForCodec),
    }
}

/// Each of the fields `fs[..n]` of `value` written with its codec.
pub open spec fn write_fields_upto<'a>(owner: NameView, v: nat, fs: Seq<(Seq<char>, LangTypeV<'a>)>, n: nat) -> Result<Seq<LangExprV<'a>>, GeneratorErrorV>
    decreases n,
{
    if n == 0 || n > fs.len() {
        Ok(Seq::empty())
    } else {
        match write_fields_upto(owner, v, fs, (n - 1) as nat) {
            Err(e) => Err(e),
            Ok(prev) => match build_codec_spec(fs[n - 1].1) {
                Err(e) => Err(e),
                Ok(c) => Ok(prev.push(LangExprV::CodecWrite(
                    Box::new(c),
                    Box::new(LangExprV::StructField(owner, v, fs[n - 1].0, Box::new(LangExprV::Identifier("value"@)))),
                ))),
            },
        }
    }
}

/// The cases `fs[..n]` of an enum, each writing its number and then its
/// value with its codec.
pub open spec fn write_cases_upto<'a>(fs: Seq<(Seq<char>, LangTypeV<'a>)>, n: nat) -> Result<Seq<(Seq<char>, Seq<char>, LangStmtV<'a>)>, GeneratorErrorV>
    decreases n,
{
    if n == 0 || n > fs.len() {
        Ok(Seq::empty())
    } else {
        match write_cases_upto(fs, (n - 1) as nat) {
            Err(e) => Err(e),
            Ok(prev) => match build_codec_spec(fs[n - 1].1) {
                Err(e) => Err(e),
                Ok(c) => Ok(prev.push((
                    fs[n - 1].0,
                    fs[n - 1].0,
                    LangStmtV::Expr(
                        seq![
                            LangExprV::WriteDiscriminator((n - 1) as nat),
                            LangExprV::CodecWrite(Box::new(c), Box::new(LangExprV::Identifier(fs[n - 1].0))),
                        ],
                        None,
                    ),
                ))),
            },
        }
    }
}

/// Once the fields before `k` fail, so do those before any later `n`.
pub proof fn lemma_read_fields_err<'a>(fs: Seq<(Seq<char>, LangTypeV<'a>)>, k: nat, n: nat)
    requires
        k <= n <= fs.len(),
        read_fields_upto(fs, k) is Err,
    ensures
        read_fields_upto(fs, n) == read_fields_upto(fs, k),
    decreases n,
{
    if n > k {
        lemma_read_fields_err(fs, k, (n - 1) as nat);
    }
}

/// Once the cases before `k` fail, so do those before any later `n`.
pub proof fn lemma_read_cases_err<'a>(owner: NameView, v: nat, targs: Seq<LangTypeV<'a>>, fs: Seq<(Seq<char>, LangTypeV<'a>)>, k: nat, n: nat)
    requires
        k <= n <= fs.len(),
        read_cases_upto(owner, v, targs, fs, k) is Err,
    ensures
        read_cases_upto(owner, v, targs, fs, n) == read_cases_upto(owner, v, targs, fs, k),
    decreases n,
{
    if n > k {
        lemma_read_cases_err(owner, v, targs, fs, k, (n - 1) as nat);
    }
}

/// Once the fields before `k` fail, so do those before any later `n`.
pub proof fn lemma_write_fields_err<'a>(owner: NameView, v: nat, fs: Seq<(Seq<char>, LangTypeV<'a>)>, k: nat, n: nat)
    requires
        k <= n <= fs.len(),
        write_fields_upto(owner, v, fs, k) is Err,
    ensures
        write_fields_upto(owner, v, fs, n) == write_fields_upto(owner, v, fs, k),
    decreases n,
{
    if n > k {
        lemma_write_fields_err(owner, v, fs, k, (n - 1) as nat);
    }
}

/// Once the cases before `k` fail, so do those before any later `n`.
pub proof fn lemma_write_cases_err<'a>(fs: Seq<(Seq<char>, LangTypeV<'a>)>, k: nat, n: nat)
    requires
        k <= n <= fs.len(),
        write_cases_upto(fs, k) is Err,
    ensures
        write_cases_upto(fs, n) == write_cases_upto(fs, k),
    decreases n,
{
    if n > k {
        lemma_write_cases_err(fs, k, (n - 1) as nat);
    }
}

/// Builds the operations of one struct or enum definition, with names looked
/// up in the definition's scope.
pub struct TypeGenerator<'a> {
    pub gen: Generator<'a>,
    pub type_def: Named<'a, VersionedTypeDefinitionData>,
}

impl<'a> TypeGenerator<'a> {
    /// The generator for a struct or enum definition of `model`.
    pub fn new(type_def: Named<'a, VersionedTypeDefinitionData>) -> (r: TypeGenerator<'a>)
        ensures
            r.gen.model == type_def.model,
            r.gen.scope == versioned_scope(type_def),
            r.type_def == type_def,
    {
        let scope = Scope::of_versioned_type(&type_def);
        TypeGenerator { gen: Generator { model: type_def.model, scope }, type_def }
    }
}

/// An empty list of expressions.
fn no_exprs<'a>() -> (r: Vec<LangExpr<'a>>)
    ensures
        lang_exprs_view(r@) == Seq::<LangExprV<'a>>::empty(),
{
    let v: Vec<LangExpr<'a>> = Vec::new();
    assert(v@ =~= Seq::<LangExpr<'a>>::empty());
    v
}

/// Each field read with its codec.
fn read_fields<'a>(fs: &Vec<LangField<'a>>) -> (r: Result<Vec<(&'a String, LangExpr<'a>)>, GeneratorError>)
    ensures
        match r {
            Ok(xs) => read_fields_upto(lang_fields_view(fs@), fs@.len()) == Ok::<Seq<(Seq<char>, LangExprV<'a>)>, GeneratorErrorV>(named_exprs_view(xs@)),
            Err(e) => read_fields_upto(lang_fields_view(fs@), fs@.len()) == Err::<Seq<(Seq<char>, LangExprV<'a>)>, GeneratorErrorV>(e@),
        },
{
    let ghost fv = lang_fields_view(fs@);
    let mut out: Vec<(&'a String, LangExpr<'a>)> = Vec::new();
    let mut i: usize = 0;
    while i < fs.len()
        invariant
            i <= fs@.len(),
            fv == lang_fields_view(fs@),
            fv.len() == fs@.len(),
            read_fields_upto(fv, i as nat) == Ok::<Seq<(Seq<char>, LangExprV<'a>)>, GeneratorErrorV>(named_exprs_view(out@)),
        decreases fs@.len() - i,
    {
        let codec = match build_codec_ref(&fs[i].field_type) {
            Ok(c) => c,
            Err(e) => {
                proof {
                    lemma_read_fields_err(fv, (i + 1) as nat, fv.len());
                }
                return Err(e);
            },
        };
        let ghost cv = codec@;
        let ghost before = out@;
        assert(fv[i as int] == (fs@[i as int].name@, fs@[i as int].field_type@));
        let x = LangExpr::CodecRead { codec: Box::new(codec) };
        assert(x@ == LangExprV::CodecRead(Box::new(cv)));
        out.push((fs[i].name, x));
        assert(out@.drop_last() =~= before);
        assert(out@.last().0@ == fv[i as int].0);
        assert(named_exprs_view(out@) == named_exprs_view(before).push((fv[i as int].0, LangExprV::CodecRead(Box::new(cv)))));
        i = i + 1;
    }
    Ok(out)
}

/// The cases of an enum, each read with its codec and numbered by its
/// position.
fn read_cases<'a>(owner: &'a QualifiedName, version: &BigNat, type_args: &Vec<LangType<'a>>, fs: &Vec<LangField<'a>>) -> (r: Result<Vec<(BigNat, LangStmt<'a>)>, GeneratorError>)
    ensures
        match r {
            Ok(cs) => read_cases_upto(owner@, version@, lang_types_view(type_args@), lang_fields_view(fs@), fs@.len())
                == Ok::<Seq<(nat, LangStmtV<'a>)>, GeneratorErrorV>(disc_cases_view(cs@)),
            Err(e) => read_cases_upto(owner@, version@, lang_types_view(type_args@), lang_fields_view(fs@), fs@.len())
                == Err::<Seq<(nat, LangStmtV<'a>)>, GeneratorErrorV>(e@),
        },
{
    let ghost fv = lang_fields_view(fs@);
    let ghost tav = lang_types_view(type_args@);
    let mut cases: Vec<(BigNat, LangStmt<'a>)> = Vec::new();
    let mut i: usize = 0;
    while i < fs.len()
        invariant
            i <= fs@.len(),
            fv == lang_fields_view(fs@),
            fv.len() == fs@.len(),
            tav == lang_types_view(type_args@),
            read_cases_upto(owner@, version@, tav, fv, i as nat) == Ok::<Seq<(nat, LangStmtV<'a>)>, GeneratorErrorV>(disc_cases_view(cases@)),
        decreases fs@.len() - i,
    {
        let codec = match build_codec_ref(&fs[i].field_type) {
            Ok(c) => c,
            Err(e) => {
                proof {
                    lemma_read_cases_err(owner@, version@, tav, fv, (i + 1) as nat, fv.len());
                }
                return Err(e);
            },
        };
        let ghost cv = codec@;
        assert(fv[i as int] == (fs@[i as int].name@, fs@[i as int].field_type@));
        let rd = LangExpr::CodecRead { codec: Box::new(codec) };
        assert(rd@ == LangExprV::CodecRead(Box::new(cv)));
        let ghost rdv = rd@;
        let ce = LangExpr::CreateEnum(owner, version.copy(), copy_types(type_args), fs[i].name, Box::new(rd));
        assert(ce@ == LangExprV::CreateEnum(owner@, version@, tav, fv[i as int].0, Box::new(rdv)));
        let ghost cev = ce@;
        let body = LangStmt::Expr(no_exprs(), Some(ce));
        assert(body@ == LangStmtV::Expr(Seq::empty(), Some(cev)));
        let ghost bv = body@;
        assert(bv == LangStmtV::Expr(Seq::empty(), Some(LangExprV::CreateEnum(owner@, version@, tav, fv[i as int].0, Box::new(LangExprV::CodecRead(Box::new(cv)))))));
        let ghost before = cases@;
        cases.push((BigNat::from_u64(i as u64), body));
        assert(cases@.drop_last() =~= before);
        assert(disc_cases_view(cases@) == disc_cases_view(before).push((i as nat, bv)));
        i = i + 1;
    }
    Ok(cases)
}

/// Each field of `value` written with its codec.
fn write_fields<'a>(owner: &'a QualifiedName, version: &BigNat, fs: &Vec<LangField<'a>>) -> (r: Result<Vec<LangExpr<'a>>, GeneratorError>)
    ensures
        match r {
            Ok(xs) => write_fields_upto(owner@, version@, lang_fields_view(fs@), fs@.len()) == Ok::<Seq<LangExprV<'a>>, GeneratorErrorV>(lang_exprs_view(xs@)),
            Err(e) => write_fields_upto(owner@, version@, lang_fields_view(fs@), fs@.len()) == Err::<Seq<LangExprV<'a>>, GeneratorErrorV>(e@),
        },
{
    let ghost fv = lang_fields_view(fs@);
    let mut out: Vec<LangExpr<'a>> = Vec::new();
    let mut i: usize = 0;
    while i < fs.len()
        invariant
            i <= fs@.len(),
            fv == lang_fields_view(fs@),
            fv.len() == fs@.len(),
            write_fields_upto(owner@, version@, fv, i as nat) == Ok::<Seq<LangExprV<'a>>, GeneratorErrorV>(lang_exprs_view(out@)),
        decreases fs@.len() - i,
    {
        let obj_value = LangExpr::Identifier(codec_write_value_name().to_owned());
        let codec = match build_codec_ref(&fs[i].field_type) {
            Ok(c) => c,
            Err(e) => {
                proof {
                    lemma_write_fields_err(owner@, version@, fv, (i + 1) as nat, fv.len());
                }
                return Err(e);
            },
        };
        let ghost cv = codec@;
        assert(fv[i as int] == (fs@[i as int].name@, fs@[i as int].field_type@));
        assert(obj_value@ == LangExprV::Identifier("value"@));
        let ghost ov = obj_value@;
        let value_expr = LangExpr::StructField(owner, version.copy(), fs[i].name, Box::new(obj_value));
        assert(value_expr@ == LangExprV::StructField(owner@, version@, fv[i as int].0, Box::new(ov)));
        let ghost vv = value_expr@;
        let x = LangExpr::CodecWrite { codec: Box::new(codec), value: Box::new(value_expr) };
        assert(x@ == LangExprV::CodecWrite(Box::new(cv), Box::new(vv)));
        let ghost xv = x@;
        assert(xv == LangExprV::CodecWrite(Box::new(cv), Box::new(LangExprV::StructField(owner@, version@, fv[i as int].0, Box::new(LangExprV::Identifier("value"@))))));
        let ghost before = out@;
        out.push(x);
        assert(out@.drop_last() =~= before);
        i = i + 1;
    }
    Ok(out)
}

/// The cases of an enum, each writing its number and then its value with
/// its codec.
fn write_cases<'a>(fs: &Vec<LangField<'a>>) -> (r: Result<Vec<MatchCase<'a>>, GeneratorError>)
    ensures
        match r {
            Ok(cs) => write_cases_upto(lang_fields_view(fs@), fs@.len()) == Ok::<Seq<(Seq<char>, Seq<char>, LangStmtV<'a>)>, GeneratorErrorV>(match_cases_view(cs@)),
            Err(e) => write_cases_upto(lang_fields_view(fs@), fs@.len()) == Err::<Seq<(Seq<char>, Seq<char>, LangStmtV<'a>)>, GeneratorErrorV>(e@),
        },
{
    let ghost fv = lang_fields_view(fs@);
    let mut cases: Vec<MatchCase<'a>> = Vec::new();
    let mut i: usize = 0;
    while i < fs.len()
        invariant
            i <= fs@.len(),
            fv == lang_fields_view(fs@),
            fv.len() == fs@.len(),
            write_cases_upto(fv, i as nat) == Ok::<Seq<(Seq<char>, Seq<char>, LangStmtV<'a>)>, GeneratorErrorV>(match_cases_view(cases@)),
        decreases fs@.len() - i,
    {
        let value_expr = LangExpr::Identifier(fs[i].name.clone());
        let codec = match build_codec_ref(&fs[i].field_type) {
            Ok(c) => c,
            Err(e) => {
                proof {
                    lemma_write_cases_err(fv, (i + 1) as nat, fv.len());
                }
                return Err(e);
            },
        };
        let ghost cv = codec@;
        assert(fv[i as int] == (fs@[i as int].name@, fs@[i as int].field_type@));
        assert(value_expr@ == LangExprV::Identifier(fv[i as int].0));
        let ghost vv = value_expr@;
        let d = LangExpr::WriteDiscriminator(BigNat::from_u64(i as u64));
        let w = LangExpr::CodecWrite { codec: Box::new(codec), value: Box::new(value_expr) };
        assert(w@ == LangExprV::CodecWrite(Box::new(cv), Box::new(vv)));
        assert(d@ == LangExprV::WriteDiscriminator(i as nat));
        let ghost (dv, wv) = (d@, w@);
        let mut body_exprs: Vec<LangExpr<'a>> = Vec::new();
        body_exprs.push(d);
        body_exprs.push(w);
        assert(body_exprs@.drop_last().drop_last() =~= Seq::<LangExpr<'a>>::empty());
        assert(lang_exprs_view(Seq::<LangExpr<'a>>::empty()) == Seq::<LangExprV<'a>>::empty());
        assert(lang_exprs_view(body_exprs@.drop_last()) == seq![dv]);
        assert(lang_exprs_view(body_exprs@) =~= seq![dv, wv]);
        let body = LangStmt::Expr(body_exprs, None);
        assert(body@ == LangStmtV::Expr(seq![dv, wv], None));
        let ghost bv = body@;
        let c = MatchCase { binding_name: fs[i].name.clone(), case_name: fs[i].name.clone(), body };
        let ghost before = cases@;
        cases.push(c);
        assert(cases@.drop_last() =~= before);
        assert(match_cases_view(cases@) == match_cases_view(before).push((fv[i as int].0, fv[i as int].0, bv)));
        i = i + 1;
    }
    Ok(cases)
}

/// How a codec reads a value of type `t`, a version of the generator's own
/// struct or enum.
pub fn codec_read_implementation<'a>(gen: &TypeGenerator<'a>, t: LangType<'a>) -> (r: Result<LangStmt<'a>, GeneratorError>)
    ensures
        stmt_result(r) == codec_read_spec(gen.type_def.name@, t@),
{
    let owner = gen.type_def.name;
    match t {
        LangType::Versioned(VersionedTypeKind::Struct, _, version, type_args, fields) => {
            let fs = match fields.build() {
                Ok(fs) => fs,
                Err(e) => return Err(e),
            };
            let field_values = match read_fields(&fs) {
                Ok(xs) => xs,
                Err(e) => return Err(e),
            };
            Ok(LangStmt::Expr(no_exprs(), Some(LangExpr::CreateStruct(owner, version, type_args, field_values))))
        },
        LangType::Versioned(VersionedTypeKind::Enum, _, version, type_args, fields) => {
            let fs = match fields.build() {
                Ok(fs) => fs,
                Err(e) => return Err(e),
            };
            let cases = match read_cases(owner, &version, &type_args, &fs) {
                Ok(cs) => cs,
                Err(e) => return Err(e),
            };
            Ok(LangStmt::MatchDiscriminator { value: LangExpr::ReadDiscriminator, cases })
        },
        _ => Err(GeneratorError::InvalidTypeForCodec),
    }
}

/// How a codec writes a value of type `t`, a version of the generator's own
/// struct or enum.
pub fn codec_write_implementation<'a>(gen: &TypeGenerator<'a>, t: LangType<'a>) -> (r: Result<LangStmt<'a>, GeneratorError>)
    ensures
        stmt_result(r) == codec_write_spec(gen.type_def.name@, t@),
{
    let owner = gen.type_def.name;
    let t2 = t.copy();
    match t2 {
        LangType::Versioned(VersionedTypeKind::Struct, _, version, _, fields) => {
            let fs = match fields.build() {
                Ok(fs) => fs,
                Err(e) => return Err(e),
            };
            let field_values = match write_fields(owner, &version, &fs) {
                Ok(xs) => xs,
                Err(e) => return Err(e),
            };
            Ok(LangStmt::Expr(field_values, None))
        },
        LangType::Versioned(VersionedTypeKind::Enum, _, _, _, fields) => {
            let fs = match fields.build() {
                Ok(fs) => fs,
                Err(e) => return Err(e),
            };
            let cases = match write_cases(&fs) {
                Ok(cs) => cs,
                Err(e) => return Err(e),
            };
            Ok(LangStmt::MatchEnum { value: LangExpr::Identifier(codec_write_value_name().to_owned()), value_type: t, cases })
        },
        _ => Err(GeneratorError::InvalidTypeForCodec),
    }
}

/// The types, at one version, of the type parameters `params[..n]` used as
/// arguments: each is looked up as a plain name without arguments.
pub open spec fn param_types_upto<'a>(
    model: &'a Verilization,
    version: nat,
    scope: Scope<'a>,
    params: Seq<String>,
    targs: Seq<(Seq<char>, LangTypeV<'a>)>,
    n: nat,
) -> Result<Seq<LangTypeV<'a>>, GeneratorErrorV>
    decreases n,
{
    if n == 0 || n > params.len() {
        Ok(Seq::empty())
    } else {
        match param_types_upto(model, version, scope, params, targs, (n - 1) as nat) {
            Err(e) => Err(e),
            Ok(prev) => match resolve_type_spec(model, version, scope.lookup_view((Seq::empty(), params[n - 1]@)), Seq::empty(), targs) {
                Err(e) => Err(e),
                Ok(x) => Ok(prev.push(x)),
            },
        }
    }
}

/// The type named `name` applied to its own type parameters, at `version`.
pub open spec fn own_type_spec<'a>(
    model: &'a Verilization,
    version: nat,
    scope: Scope<'a>,
    name: NameView,
    params: Seq<String>,
    targs: Seq<(Seq<char>, LangTypeV<'a>)>,
) -> Result<LangTypeV<'a>, GeneratorErrorV> {
    match param_types_upto(model, version, scope, params, targs, params.len()) {
        Err(e) => Err(e),
        Ok(largs) => resolve_type_spec(model, version, scope.lookup_view(name), largs, targs),
    }
}

/// The type `name` applied to the type parameters `params`, each written as
/// a plain name.
fn own_type(name: &QualifiedName, params: &Vec<String>) -> (r: Type)
    ensures
        r.name@ == name@,
        r.args@.len() == params@.len(),
        forall|k: int| 0 <= k < params@.len() ==> (#[trigger] r.args@[k]).name@ == (Seq::<Seq<char>>::empty(), params@[k]@)
            && r.args@[k].args@.len() == 0,
{
    let mut args: Vec<Type> = Vec::new();
    let mut i: usize = 0;
    while i < params.len()
        invariant
            i <= params@.len(),
            args@.len() == i,
            forall|k: int| 0 <= k < i ==> (#[trigger] args@[k]).name@ == (Seq::<Seq<char>>::empty(), params@[k]@)
                && args@[k].args@.len() == 0,
        decreases params@.len() - i,
    {
        let empty: [&str; 0] = [];
        let n = QualifiedName::from_parts(&empty, params[i].as_str());
        assert(empty@.map_values(|p: &str| p@) =~= Seq::<Seq<char>>::empty());
        let no_args: Vec<Type> = Vec::new();
        args.push(Type { name: n, args: no_args });
        i = i + 1;
    }
    Type { name: name.copy(), args }
}

/// Building a type written as `own_type` gives `own_type_spec`.
pub proof fn lemma_own_type<'a>(
    model: &'a Verilization,
    version: nat,
    scope: Scope<'a>,
    t: Type,
    params: Seq<String>,
    targs: Seq<(Seq<char>, LangTypeV<'a>)>,
)
    requires
        t.args@.len() == params.len(),
        forall|k: int| 0 <= k < params.len() ==> (#[trigger] t.args@[k]).name@ == (Seq::<Seq<char>>::empty(), params[k]@)
            && t.args@[k].args@.len() == 0,
    ensures
        build_type_spec(model, version, t, scope, targs) == own_type_spec(model, version, scope, t.name@, params, targs),
{
    lemma_param_types_upto(model, version, scope, t.args@, params, targs, params.len());
}

/// `build_types_upto` on plain parameter names is `param_types_upto`.
pub proof fn lemma_param_types_upto<'a>(
    model: &'a Verilization,
    version: nat,
    scope: Scope<'a>,
    args: Seq<Type>,
    params: Seq<String>,
    targs: Seq<(Seq<char>, LangTypeV<'a>)>,
    n: nat,
)
    requires
        args.len() == params.len(),
        n <= params.len(),
        forall|k: int| 0 <= k < params.len() ==> (#[trigger] args[k]).name@ == (Seq::<Seq<char>>::empty(), params[k]@)
            && args[k].args@.len() == 0,
    ensures
        build_types_upto(model, version, args, scope, targs, n) == param_types_upto(model, version, scope, params, targs, n),
    decreases n,
{
    if n > 0 {
        lemma_param_types_upto(model, version, scope, args, params, targs, (n - 1) as nat);
        let a = args[n - 1];
        assert(a.name@ == (Seq::<Seq<char>>::empty(), params[n - 1]@));
        assert(build_types_upto(model, version, a.args@, scope, targs, a.args@.len()) == Ok::<Seq<LangTypeV<'a>>, GeneratorErrorV>(Seq::empty()));
        assert(build_type_spec(model, version, a, scope, targs)
            == resolve_type_spec(model, version, scope.lookup_view((Seq::<Seq<char>>::empty(), params[n - 1]@)), Seq::empty(), targs));
    }
}

/// `p` with `_1` after it.
pub open spec fn first_name(p: String) -> Seq<char> {
    p@ + "_1"@
}

/// `p` with `_2` after it.
pub open spec fn second_name(p: String) -> Seq<char> {
    p@ + "_2"@
}

/// The type parameters of a converter: for each parameter its earlier and
/// later versions.
pub open spec fn conv_type_params(ps: Seq<String>) -> Seq<Seq<char>> {
    Seq::new(2 * ps.len(), |i: int| if i % 2 == 0 { first_name(ps[i / 2]) } else { second_name(ps[i / 2]) })
}

/// The same, as type arguments.
pub open spec fn conv_type_args<'a>(ps: Seq<String>) -> Seq<LangTypeV<'a>> {
    Seq::new(2 * ps.len(), |i: int| LangTypeV::TypeParameter(conv_type_params(ps)[i]))
}

/// The later versions of the parameters, as type arguments.
pub open spec fn result_type_args<'a>(ps: Seq<String>) -> Seq<LangTypeV<'a>> {
    Seq::new(ps.len(), |i: int| LangTypeV::TypeParameter(second_name(ps[i])))
}

/// Each parameter stands for its earlier version.
pub open spec fn prev_targs<'a>(ps: Seq<String>) -> Seq<(Seq<char>, LangTypeV<'a>)> {
    Seq::new(ps.len(), |i: int| (ps[i]@, LangTypeV::TypeParameter(first_name(ps[i]))))
}

/// Each parameter stands for its later version.
pub open spec fn result_targs<'a>(ps: Seq<String>) -> Seq<(Seq<char>, LangTypeV<'a>)> {
    Seq::new(ps.len(), |i: int| (ps[i]@, LangTypeV::TypeParameter(second_name(ps[i]))))
}

/// The converter parameters: one per type parameter, converting its earlier
/// version to its later one.
pub open spec fn conv_params<'a>(ps: Seq<String>) -> Seq<(Seq<char>, LangTypeV<'a>)> {
    Seq::new(ps.len(), |i: int| (
        ps[i]@ + "_conv"@,
        LangTypeV::Converter(
            Box::new(LangTypeV::TypeParameter(first_name(ps[i]))),
            Box::new(LangTypeV::TypeParameter(second_name(ps[i]))),
        ),
    ))
}

/// The converter parameters passed on to a converter written by hand.
pub open spec fn conv_call_args<'a>(ps: Seq<String>) -> Seq<LangExprV<'a>> {
    Seq::new(ps.len(), |i: int| LangExprV::Identifier(ps[i]@ + "_conv"@))
}

/// The fields `fs[..n]` of a struct at `version`, each converted from the
/// same field of the value `prev` at the earlier version.
pub open spec fn struct_conv_fields_upto<'a>(
    model: &'a Verilization,
    scope: Scope<'a>,
    owner: NameView,
    prev: nat,
    version: nat,
    fs: Seq<(String, FieldInfo)>,
    n: nat,
) -> Result<Seq<(Seq<char>, LangExprV<'a>)>, GeneratorErrorV>
    decreases n,
{
    if n == 0 || n > fs.len() {
        Ok(Seq::empty())
    } else {
        match struct_conv_fields_upto(model, scope, owner, prev, version, fs, (n - 1) as nat) {
            Err(e) => Err(e),
            Ok(done) => {
                let value = LangExprV::StructField(owner, version, fs[n - 1].0@, Box::new(LangExprV::Identifier("prev"@)));
                match build_conversion_spec(model, scope, prev, version, fs[n - 1].1.field_type, ConvertParamV::Expression(value)) {
                    Err(e) => Err(e),
                    Ok(c) => Ok(done.push((fs[n - 1].0@, c))),
                }
            },
        }
    }
}

/// The cases `fs[..n]` of an enum at `version`, each converting the value of
/// the same case at the earlier version.
pub open spec fn enum_conv_cases_upto<'a>(
    model: &'a Verilization,
    scope: Scope<'a>,
    owner: NameView,
    prev: nat,
    version: nat,
    rargs: Seq<LangTypeV<'a>>,
    fs: Seq<(String, FieldInfo)>,
    n: nat,
) -> Result<Seq<(Seq<char>, Seq<char>, LangStmtV<'a>)>, GeneratorErrorV>
    decreases n,
{
    if n == 0 || n > fs.len() {
        Ok(Seq::empty())
    } else {
        match enum_conv_cases_upto(model, scope, owner, prev, version, rargs, fs, (n - 1) as nat) {
            Err(e) => Err(e),
            Ok(done) => {
                let name = fs[n - 1].0@;
                match build_conversion_spec(model, scope, prev, version, fs[n - 1].1.field_type, ConvertParamV::Expression(LangExprV::Identifier(name))) {
                    Err(e) => Err(e),
                    Ok(c) => Ok(done.push((name, name, LangStmtV::Expr(
                        Seq::empty(),
                        Some(LangExprV::CreateEnum(owner, version, rargs, name, Box::new(c))),
                    )))),
                }
            },
        }
    }
}

/// A converter operation of the struct or enum `td` to `version` from
/// `prev`: for each type parameter the converter takes its earlier and later
/// versions and a converter between them, and it converts the type at `prev`
/// to the type at `version`. Where a definition was given at exactly
/// `version`, other than `prev`, the converter is written by hand and is
/// called; otherwise a struct converts each field, and an enum each case.
pub open spec fn converter_operation_spec<'a>(
    model: &'a Verilization,
    scope: Scope<'a>,
    td: Named<'a, VersionedTypeDefinitionData>,
    op: OperationV,
    kind: VersionedTypeKind,
    version: nat,
    explicit: bool,
    fields: Seq<(String, FieldInfo)>,
    prev: nat,
) -> Result<OperationInfoV<'a>, GeneratorErrorV> {
    let ps = td.value.type_params@;
    match own_type_spec(model, prev, scope, td.name@, ps, prev_targs(ps)) {
        Err(e) => Err(e),
        Ok(prev_type) => match own_type_spec(model, version, scope, td.name@, ps, result_targs(ps)) {
            Err(e) => Err(e),
            Ok(result_type) => {
                let imp = if explicit && version != prev {
                    Ok(LangExprStmtV::Expr(LangExprV::InvokeUserConverter(td.name@, prev, version, conv_type_args(ps), conv_call_args(ps))))
                } else {
                    match kind {
                        VersionedTypeKind::Struct => match struct_conv_fields_upto(model, scope, td.name@, prev, version, fields, fields.len()) {
                            Err(e) => Err(e),
                            Ok(fvs) => Ok(LangExprStmtV::CreateConverter(
                                prev_type,
                                result_type,
                                LangStmtV::Expr(Seq::empty(), Some(LangExprV::CreateStruct(td.name@, version, result_type_args(ps), fvs))),
                            )),
                        },
                        VersionedTypeKind::Enum => match enum_conv_cases_upto(model, scope, td.name@, prev, version, result_type_args(ps), fields, fields.len()) {
                            Err(e) => Err(e),
                            Ok(cases) => Ok(LangExprStmtV::CreateConverter(
                                prev_type,
                                result_type,
                                LangStmtV::MatchEnum(LangExprV::Identifier("prev"@), prev_type, cases),
                            )),
                        },
                    }
                };
                match imp {
                    Err(e) => Err(e),
                    Ok(imp) => Ok(OperationInfoV {
                        operation: op,
                        version,
                        type_params: conv_type_params(ps),
                        params: conv_params(ps),
                        result: LangTypeV::Converter(Box::new(prev_type), Box::new(result_type)),
                        implementation: imp,
                    }),
                }
            },
        },
    }
}

/// The view of a result that holds an operation.
pub open spec fn op_result<'a>(r: Result<OperationInfo<'a>, GeneratorError>) -> Result<OperationInfoV<'a>, GeneratorErrorV> {
    match r {
        Ok(o) => Ok(o@),
        Err(e) => Err(e@),
    }
}

/// Once the fields before `k` fail, so do those before any later `n`.
pub proof fn lemma_struct_conv_err<'a>(
    model: &'a Verilization,
    scope: Scope<'a>,
    owner: NameView,
    prev: nat,
    version: nat,
    fs: Seq<(String, FieldInfo)>,
    k: nat,
    n: nat,
)
    requires
        k <= n <= fs.len(),
        struct_conv_fields_upto(model, scope, owner, prev, version, fs, k) is Err,
    ensures
        struct_conv_fields_upto(model, scope, owner, prev, version, fs, n) == struct_conv_fields_upto(model, scope, owner, prev, version, fs, k),
    decreases n,
{
    if n > k {
        lemma_struct_conv_err(model, scope, owner, prev, version, fs, k, (n - 1) as nat);
    }
}

/// Once the cases before `k` fail, so do those before any later `n`.
pub proof fn lemma_enum_conv_err<'a>(
    model: &'a Verilization,
    scope: Scope<'a>,
    owner: NameView,
    prev: nat,
    version: nat,
    rargs: Seq<LangTypeV<'a>>,
    fs: Seq<(String, FieldInfo)>,
    k: nat,
    n: nat,
)
    requires
        k <= n <= fs.len(),
        enum_conv_cases_upto(model, scope, owner, prev, version, rargs, fs, k) is Err,
    ensures
        enum_conv_cases_upto(model, scope, owner, prev, version, rargs, fs, n) == enum_conv_cases_upto(model, scope, owner, prev, version, rargs, fs, k),
    decreases n,
{
    if n > k {
        lemma_enum_conv_err(model, scope, owner, prev, version, rargs, fs, k, (n - 1) as nat);
    }
}

/// The views of a list of strings.
pub open spec fn strings_of(v: Seq<String>) -> Seq<Seq<char>> {
    v.map_values(|s: String| s@)
}

/// The type parameters of a converter.
fn conv_type_param_names(ps: &Vec<String>) -> (r: Vec<String>)
    ensures
        strings_of(r@) == conv_type_params(ps@),
{
    let mut out: Vec<String> = Vec::new();
    let mut i: usize = 0;
    while i < ps.len()
        invariant
            i <= ps@.len(),
            strings_of(out@) =~= conv_type_params(ps@).take(2 * i),
        decreases ps@.len() - i,
    {
        let a = convert_prev_type_param(ps[i].as_str());
        let b = convert_current_type_param(ps[i].as_str());
        assert(a@ == first_name(ps@[i as int]));
        assert(b@ == second_name(ps@[i as int]));
        let ghost before = out@;
        out.push(a);
        out.push(b);
        assert(out@ == before.push(a).push(b));
        assert(strings_of(out@) =~= strings_of(before).push(first_name(ps@[i as int])).push(second_name(ps@[i as int])));
        assert(conv_type_params(ps@)[2 * i as int] == first_name(ps@[i as int]));
        assert(conv_type_params(ps@)[2 * i + 1] == second_name(ps@[i as int]));
        assert(strings_of(out@) =~= conv_type_params(ps@).take(2 * (i + 1)));
        i = i + 1;
    }
    assert(conv_type_params(ps@).take(2 * i) =~= conv_type_params(ps@));
    out
}

/// The type parameters of a converter, as type arguments.
fn conv_type_param_args<'a>(ps: &Vec<String>) -> (r: Vec<LangType<'a>>)
    ensures
        lang_types_view(r@) == conv_type_args::<'a>(ps@),
{
    let mut out: Vec<LangType<'a>> = Vec::new();
    let mut i: usize = 0;
    while i < ps.len()
        invariant
            i <= ps@.len(),
            lang_types_view(out@) =~= conv_type_args::<'a>(ps@).take(2 * i),
        decreases ps@.len() - i,
    {
        let a = LangType::TypeParameter(convert_prev_type_param(ps[i].as_str()));
        let b = LangType::TypeParameter(convert_current_type_param(ps[i].as_str()));
        let ghost (av, bv) = (a@, b@);
        let ghost before = out@;
        out.push(a);
        assert(out@.drop_last() =~= before);
        let ghost mid = out@;
        assert(lang_types_view(mid) == lang_types_view(before).push(av));
        out.push(b);
        assert(out@.drop_last() =~= mid);
        assert(lang_types_view(out@) =~= conv_type_args::<'a>(ps@).take(2 * (i + 1)));
        i = i + 1;
    }
    assert(conv_type_args::<'a>(ps@).take(2 * i) =~= conv_type_args::<'a>(ps@));
    out
}

/// The later versions of the parameters, as type arguments.
fn result_arg_list<'a>(ps: &Vec<String>) -> (r: Vec<LangType<'a>>)
    ensures
        lang_types_view(r@) == result_type_args::<'a>(ps@),
{
    let mut out: Vec<LangType<'a>> = Vec::new();
    let mut i: usize = 0;
    while i < ps.len()
        invariant
            i <= ps@.len(),
            lang_types_view(out@) =~= result_type_args::<'a>(ps@).take(i as int),
        decreases ps@.len() - i,
    {
        let x = LangType::TypeParameter(convert_current_type_param(ps[i].as_str()));
        assert(x@ == LangTypeV::<'a>::TypeParameter(second_name(ps@[i as int])));
        let ghost xv = x@;
        let ghost before = out@;
        out.push(x);
        assert(out@.drop_last() =~= before);
        assert(lang_types_view(out@) == lang_types_view(before).push(xv));
        assert(lang_types_view(out@) =~= result_type_args::<'a>(ps@).take(i + 1));
        i = i + 1;
    }
    assert(result_type_args::<'a>(ps@).take(i as int) =~= result_type_args::<'a>(ps@));
    out
}

/// Each parameter standing for its earlier (`later` false) or later version.
fn version_arg_map<'a>(ps: &Vec<String>, later: bool) -> (r: Vec<(String, LangType<'a>)>)
    ensures
        type_args_view(r@) == if later { result_targs::<'a>(ps@) } else { prev_targs::<'a>(ps@) },
{
    let ghost target = if later { result_targs::<'a>(ps@) } else { prev_targs::<'a>(ps@) };
    let mut out: Vec<(String, LangType<'a>)> = Vec::new();
    let mut i: usize = 0;
    while i < ps.len()
        invariant
            i <= ps@.len(),
            target == if later { result_targs::<'a>(ps@) } else { prev_targs::<'a>(ps@) },
            type_args_view(out@) =~= target.take(i as int),
        decreases ps@.len() - i,
    {
        let name = if later { convert_current_type_param(ps[i].as_str()) } else { convert_prev_type_param(ps[i].as_str()) };
        let x = LangType::TypeParameter(name);
        let ghost xv = x@;
        assert(xv == LangTypeV::<'a>::TypeParameter(if later { second_name(ps@[i as int]) } else { first_name(ps@[i as int]) }));
        let p = ps[i].clone();
        let ghost before = out@;
        out.push((p, x));
        assert(out@.drop_last() =~= before);
        assert(type_args_view(out@) == type_args_view(before).push((ps@[i as int]@, xv)));
        assert(type_args_view(out@) =~= target.take(i + 1));
        i = i + 1;
    }
    assert(target.take(i as int) =~= target);
    out
}

/// The converter parameters of a converter.
fn converter_param_list<'a>(ps: &Vec<String>) -> (r: Vec<(String, LangType<'a>)>)
    ensures
        type_args_view(r@) == conv_params::<'a>(ps@),
{
    let mut out: Vec<(String, LangType<'a>)> = Vec::new();
    let mut i: usize = 0;
    while i < ps.len()
        invariant
            i <= ps@.len(),
            type_args_view(out@) =~= conv_params::<'a>(ps@).take(i as int),
        decreases ps@.len() - i,
    {
        let t1 = LangType::TypeParameter(convert_prev_type_param(ps[i].as_str()));
        let t2 = LangType::TypeParameter(convert_current_type_param(ps[i].as_str()));
        assert(t1@ == LangTypeV::<'a>::TypeParameter(first_name(ps@[i as int])));
        assert(t2@ == LangTypeV::<'a>::TypeParameter(second_name(ps@[i as int])));
        let ghost (v1, v2) = (t1@, t2@);
        let c = LangType::Converter(Box::new(t1), Box::new(t2));
        assert(c@ == LangTypeV::<'a>::Converter(Box::new(v1), Box::new(v2)));
        let ghost cv = c@;
        let n = convert_conv_param_name(ps[i].as_str());
        let ghost nv = n@;
        let ghost before = out@;
        out.push((n, c));
        assert(out@.drop_last() =~= before);
        assert(type_args_view(out@) == type_args_view(before).push((nv, cv)));
        assert(type_args_view(out@) =~= conv_params::<'a>(ps@).take(i + 1));
        i = i + 1;
    }
    assert(conv_params::<'a>(ps@).take(i as int) =~= conv_params::<'a>(ps@));
    out
}

/// The converter parameters passed on to a converter written by hand.
fn converter_call_arg_list<'a>(ps: &Vec<String>) -> (r: Vec<LangExpr<'a>>)
    ensures
        lang_exprs_view(r@) == conv_call_args::<'a>(ps@),
{
    let mut out: Vec<LangExpr<'a>> = Vec::new();
    let mut i: usize = 0;
    while i < ps.len()
        invariant
            i <= ps@.len(),
            lang_exprs_view(out@) =~= conv_call_args::<'a>(ps@).take(i as int),
        decreases ps@.len() - i,
    {
        let x = LangExpr::Identifier(convert_conv_param_name(ps[i].as_str()));
        assert(x@ == LangExprV::<'a>::Identifier(ps@[i as int]@ + "_conv"@));
        let ghost xv = x@;
        let ghost before = out@;
        out.push(x);
        assert(out@.drop_last() =~= before);
        assert(lang_exprs_view(out@) == lang_exprs_view(before).push(xv));
        assert(lang_exprs_view(out@) =~= conv_call_args::<'a>(ps@).take(i + 1));
        i = i + 1;
    }
    assert(conv_call_args::<'a>(ps@).take(i as int) =~= conv_call_args::<'a>(ps@));
    out
}

impl<'a> TypeGenerator<'a> {
    /// The fields of the struct at `version`, each converted from the same
    /// field of the value at `prev_ver`.
    fn struct_conversion_fields(&self, prev_ver: &BigNat, version: &BigNat, fields: &'a Vec<(String, FieldInfo)>) -> (r: Result<Vec<(&'a String, LangExpr<'a>)>, GeneratorError>)
        ensures
            match r {
                Ok(xs) => struct_conv_fields_upto(self.gen.model, self.gen.scope, self.type_def.name@, prev_ver@, version@, fields@, fields@.len())
                    == Ok::<Seq<(Seq<char>, LangExprV<'a>)>, GeneratorErrorV>(named_exprs_view(xs@)),
                Err(e) => struct_conv_fields_upto(self.gen.model, self.gen.scope, self.type_def.name@, prev_ver@, version@, fields@, fields@.len())
                    == Err::<Seq<(Seq<char>, LangExprV<'a>)>, GeneratorErrorV>(e@),
            },
    {
        let owner = self.type_def.name;
        let mut out: Vec<(&'a String, LangExpr<'a>)> = Vec::new();
        let mut i: usize = 0;
        while i < fields.len()
            invariant
                i <= fields@.len(),
                owner == self.type_def.name,
                struct_conv_fields_upto(self.gen.model, self.gen.scope, owner@, prev_ver@, version@, fields@, i as nat)
                    == Ok::<Seq<(Seq<char>, LangExprV<'a>)>, GeneratorErrorV>(named_exprs_view(out@)),
            decreases fields@.len() - i,
        {
            let obj_value = LangExpr::Identifier(convert_prev_param_name().to_owned());
            assert(obj_value@ == LangExprV::Identifier("prev"@));
            let ghost ov = obj_value@;
            let value_expr = LangExpr::StructField(owner, version.copy(), &fields[i].0, Box::new(obj_value));
            assert(value_expr@ == LangExprV::StructField(owner@, version@, fields@[i as int].0@, Box::new(ov)));
            let c = match self.gen.build_conversion(prev_ver, version, &fields[i].1.field_type, ConvertParam::Expression(value_expr)) {
                Ok(c) => c,
                Err(e) => {
                    proof {
                        lemma_struct_conv_err(self.gen.model, self.gen.scope, owner@, prev_ver@, version@, fields@, (i + 1) as nat, fields@.len());
                    }
                    return Err(e);
                },
            };
            let ghost before = out@;
            out.push((&fields[i].0, c));
            assert(out@.drop_last() =~= before);
            i = i + 1;
        }
        Ok(out)
    }

    /// The cases of the enum at `version`, each converting the value of the
    /// same case at `prev_ver`.
    fn enum_conversion_cases(
        &self,
        prev_ver: &BigNat,
        version: &BigNat,
        rargs: &Vec<LangType<'a>>,
        fields: &'a Vec<(String, FieldInfo)>,
    ) -> (r: Result<Vec<MatchCase<'a>>, GeneratorError>)
        ensures
            match r {
                Ok(cs) => enum_conv_cases_upto(self.gen.model, self.gen.scope, self.type_def.name@, prev_ver@, version@, lang_types_view(rargs@), fields@, fields@.len())
                    == Ok::<Seq<(Seq<char>, Seq<char>, LangStmtV<'a>)>, GeneratorErrorV>(match_cases_view(cs@)),
                Err(e) => enum_conv_cases_upto(self.gen.model, self.gen.scope, self.type_def.name@, prev_ver@, version@, lang_types_view(rargs@), fields@, fields@.len())
                    == Err::<Seq<(Seq<char>, Seq<char>, LangStmtV<'a>)>, GeneratorErrorV>(e@),
            },
    {
        let owner = self.type_def.name;
        let ghost rv = lang_types_view(rargs@);
        let mut out: Vec<MatchCase<'a>> = Vec::new();
        let mut i: usize = 0;
        while i < fields.len()
            invariant
                i <= fields@.len(),
                owner == self.type_def.name,
                rv == lang_types_view(rargs@),
                enum_conv_cases_upto(self.gen.model, self.gen.scope, owner@, prev_ver@, version@, rv, fields@, i as nat)
                    == Ok::<Seq<(Seq<char>, Seq<char>, LangStmtV<'a>)>, GeneratorErrorV>(match_cases_view(out@)),
            decreases fields@.len() - i,
        {
            let name: &'a String = &fields[i].0;
            let value_expr = LangExpr::Identifier(name.clone());
            assert(value_expr@ == LangExprV::Identifier(name@));
            let c = match self.gen.build_conversion(prev_ver, version, &fields[i].1.field_type, ConvertParam::Expression(value_expr)) {
                Ok(c) => c,
                Err(e) => {
                    proof {
                        lemma_enum_conv_err(self.gen.model, self.gen.scope, owner@, prev_ver@, version@, rv, fields@, (i + 1) as nat, fields@.len());
                    }
                    return Err(e);
                },
            };
            let ghost cv = c@;
            let enum_value = LangExpr::CreateEnum(owner, version.copy(), copy_types(rargs), name, Box::new(c));
            assert(enum_value@ == LangExprV::CreateEnum(owner@, version@, rv, name@, Box::new(cv)));
            let ghost ev = enum_value@;
            let body = LangStmt::Expr(no_exprs(), Some(enum_value));
            assert(body@ == LangStmtV::Expr(Seq::empty(), Some(ev)));
            let ghost bv = body@;
            let ghost before = out@;
            out.push(MatchCase { binding_name: name.clone(), case_name: name.clone(), body });
            assert(out@.drop_last() =~= before);
            assert(match_cases_view(out@) == match_cases_view(before).push((name@, name@, bv)));
            i = i + 1;
        }
        Ok(out)
    }
}

/// A converter operation of the generator's struct or enum, to the version
/// of `ver_type` from `prev_ver`.
pub fn build_converter_operation_common<'a>(
    gen: &TypeGenerator<'a>,
    op: Operation,
    type_kind: VersionedTypeKind,
    ver_type: &TypeVersionInfo<'a>,
    prev_ver: &BigNat,
) -> (r: Result<OperationInfo<'a>, GeneratorError>)
    ensures
        op_result(r) == converter_operation_spec(
            gen.gen.model,
            gen.gen.scope,
            gen.type_def,
            op@,
            type_kind,
            ver_type.version@,
            ver_type.explicit_version,
            ver_type.ver_type.fields@,
            prev_ver@,
        ),
{
    let version = &ver_type.version;
    let params = &gen.type_def.value.type_params;
    let ghost ps = params@;
    let self_type = own_type(gen.type_def.name, params);
    proof {
        lemma_own_type(gen.gen.model, prev_ver@, gen.gen.scope, self_type, ps, prev_targs(ps));
        lemma_own_type(gen.gen.model, version@, gen.gen.scope, self_type, ps, result_targs(ps));
    }
    let prev_type_args = version_arg_map(params, false);
    let result_type_args_map = version_arg_map(params, true);
    let prev_type = match build_type_impl(gen.gen.model, prev_ver, &self_type, &gen.gen.scope, &prev_type_args) {
        Ok(t) => t,
        Err(e) => return Err(e),
    };
    let result_type = match build_type_impl(gen.gen.model, version, &self_type, &gen.gen.scope, &result_type_args_map) {
        Ok(t) => t,
        Err(e) => return Err(e),
    };
    let ghost (pv, rv) = (prev_type@, result_type@);
    let implementation = if ver_type.explicit_version && !version.equals(prev_ver) {
        LangExprStmt::Expr(LangExpr::InvokeUserConverter {
            name: gen.type_def.name,
            prev_ver: prev_ver.copy(),
            version: version.copy(),
            type_args: conv_type_param_args(params),
            args: converter_call_arg_list(params),
        })
    } else {
        let result_type_args = result_arg_list(params);
        match type_kind {
            VersionedTypeKind::Struct => {
                let fields = match gen.struct_conversion_fields(prev_ver, version, &ver_type.ver_type.fields) {
                    Ok(fs) => fs,
                    Err(e) => return Err(e),
                };
                let body = LangStmt::Expr(no_exprs(), Some(LangExpr::CreateStruct(gen.type_def.name, version.copy(), result_type_args, fields)));
                LangExprStmt::CreateConverter { from_type: prev_type.copy(), to_type: result_type.copy(), body: Box::new(body) }
            },
            VersionedTypeKind::Enum => {
                let cases = match gen.enum_conversion_cases(prev_ver, version, &result_type_args, &ver_type.ver_type.fields) {
                    Ok(cs) => cs,
                    Err(e) => return Err(e),
                };
                let body = LangStmt::MatchEnum {
                    value: LangExpr::Identifier(convert_prev_param_name().to_owned()),
                    value_type: prev_type.copy(),
                    cases,
                };
                LangExprStmt::CreateConverter { from_type: prev_type.copy(), to_type: result_type.copy(), body: Box::new(body) }
            },
        }
    };
    Ok(OperationInfo {
        operation: op,
        version: version.copy(),
        type_params: conv_type_param_names(params),
        params: converter_param_list(params),
        result: LangType::Converter(Box::new(prev_type), Box::new(result_type)),
        implementation,
    })
}

/// Every type that a list of type arguments gives is resolvable.
pub open spec fn targs_resolvable<'a>(model: &'a Verilization, targs: Seq<(Seq<char>, LangTypeV<'a>)>) -> bool {
    forall|i: int| 0 <= i < targs.len() ==> resolvable(model, #[trigger] targs[i].1)
}

/// Adding a type at the end does not change whether the first `n` are
/// resolvable.
pub proof fn lemma_all_resolvable_push<'a>(model: &'a Verilization, s: Seq<LangTypeV<'a>>, x: LangTypeV<'a>, n: nat)
    requires
        n <= s.len(),
    ensures
        all_resolvable_upto(model, s.push(x), n) == all_resolvable_upto(model, s, n),
    decreases n,
{
    if n > 0 {
        lemma_all_resolvable_push(model, s, x, (n - 1) as nat);
        assert(s.push(x)[n - 1] == s[n - 1]);
    }
}

/// A type that a name resolves to is resolvable when its arguments and the
/// types of the type parameters are.
pub proof fn lemma_resolve_resolvable<'a>(
    model: &'a Verilization,
    version: nat,
    lookup: ScopeLookupView,
    largs: Seq<LangTypeV<'a>>,
    targs: Seq<(Seq<char>, LangTypeV<'a>)>,
)
    requires
        all_resolvable_upto(model, largs, largs.len()),
        targs_resolvable(model, targs),
    ensures
        resolve_type_spec(model, version, lookup, largs, targs) matches Ok(x) ==> resolvable(model, x),
{
    match lookup {
        ScopeLookupView::NamedType(n) => {
            model.lemma_named_type(n);
        },
        ScopeLookupView::TypeParameter(p) => {
            lemma_arg_index(targs, p);
        },
    }
}

/// The types of plain parameter names are resolvable when the types of the
/// type parameters are.
pub proof fn lemma_param_types_resolvable<'a>(
    model: &'a Verilization,
    version: nat,
    scope: Scope<'a>,
    params: Seq<String>,
    targs: Seq<(Seq<char>, LangTypeV<'a>)>,
    n: nat,
)
    requires
        targs_resolvable(model, targs),
        n <= params.len(),
    ensures
        param_types_upto(model, version, scope, params, targs, n) matches Ok(xs) ==> xs.len() == n && all_resolvable_upto(model, xs, n),
    decreases n,
{
    if n > 0 {
        lemma_param_types_resolvable(model, version, scope, params, targs, (n - 1) as nat);
        lemma_resolve_resolvable(model, version, scope.lookup_view((Seq::empty(), params[n - 1]@)), Seq::empty(), targs);
        match param_types_upto(model, version, scope, params, targs, (n - 1) as nat) {
            Ok(prev) => {
                match resolve_type_spec(model, version, scope.lookup_view((Seq::empty(), params[n - 1]@)), Seq::empty(), targs) {
                    Ok(x) => {
                        lemma_all_resolvable_push(model, prev, x, (n - 1) as nat);
                        assert(prev.push(x)[n - 1] == x);
                    },
                    Err(_) => {},
                }
            },
            Err(_) => {},
        }
    }
}

/// A struct or enum applied to its own parameters is resolvable.
pub proof fn lemma_own_type_resolvable<'a>(
    model: &'a Verilization,
    version: nat,
    scope: Scope<'a>,
    name: NameView,
    params: Seq<String>,
    targs: Seq<(Seq<char>, LangTypeV<'a>)>,
)
    requires
        targs_resolvable(model, targs),
    ensures
        own_type_spec(model, version, scope, name, params, targs) matches Ok(x) ==> resolvable(model, x),
{
    lemma_param_types_resolvable(model, version, scope, params, targs, params.len());
    match param_types_upto(model, version, scope, params, targs, params.len()) {
        Ok(largs) => {
            lemma_resolve_resolvable(model, version, scope.lookup_view(name), largs, targs);
        },
        Err(_) => {},
    }
}

/// The codec parameters of a codec: one per type parameter.
pub open spec fn codec_params<'a>(ps: Seq<String>) -> Seq<(Seq<char>, LangTypeV<'a>)> {
    Seq::new(ps.len(), |i: int| (ps[i]@ + "_codec"@, LangTypeV::Codec(Box::new(LangTypeV::TypeParameter(ps[i]@)))))
}

/// The codec operation of the struct or enum `td` at `version`, whose type
/// there is `t`: it takes a codec for each type parameter and reads and
/// writes values of `t`.
pub open spec fn codec_operation_spec<'a>(td: Named<'a, VersionedTypeDefinitionData>, version: nat, t: LangTypeV<'a>) -> Result<OperationInfoV<'a>, GeneratorErrorV> {
    match codec_read_spec(td.name@, t) {
        Err(e) => Err(e),
        Ok(rd) => match codec_write_spec(td.name@, t) {
            Err(e) => Err(e),
            Ok(wr) => Ok(OperationInfoV {
                operation: OperationV::TypeCodec,
                version,
                type_params: strings_of(td.value.type_params@),
                params: codec_params(td.value.type_params@),
                result: LangTypeV::Codec(Box::new(t)),
                implementation: LangExprStmtV::CreateCodec(t, rd, wr),
            }),
        },
    }
}

/// The type of the struct or enum `td` at `version`, applied to its own
/// parameters, and its operations there: a final converter when the type is
/// final from `version` on and has type parameters, a conversion from the
/// previous version when there is one, and its codec.
pub open spec fn version_operations_spec<'a>(
    model: &'a Verilization,
    scope: Scope<'a>,
    td: Named<'a, VersionedTypeDefinitionData>,
    version: nat,
    explicit: bool,
    fields: Seq<(String, FieldInfo)>,
    prev: Option<nat>,
) -> Result<(LangTypeV<'a>, Seq<OperationInfoV<'a>>), GeneratorErrorV> {
    let ps = td.value.type_params@;
    match own_type_spec(model, version, scope, td.name@, ps, param_args(scope.params_view())) {
        Err(e) => Err(e),
        Ok(t) => match t {
            LangTypeV::Versioned(kind, _, _, _, _) => {
                let fin = if final_in_version_spec(model, version, t) && ps.len() > 0 {
                    match converter_operation_spec(model, scope, td, OperationV::FinalTypeConverter, kind, version, explicit, fields, version) {
                        Err(e) => Err(e),
                        Ok(o) => Ok(seq![o]),
                    }
                } else {
                    Ok(Seq::empty())
                };
                match fin {
                    Err(e) => Err(e),
                    Ok(ops1) => {
                        let from_prev = match prev {
                            None => Ok(Seq::empty()),
                            Some(p) => match converter_operation_spec(model, scope, td, OperationV::FromPreviousVersion(p), kind, version, explicit, fields, p) {
                                Err(e) => Err(e),
                                Ok(o) => Ok(seq![o]),
                            },
                        };
                        match from_prev {
                            Err(e) => Err(e),
                            Ok(ops2) => match codec_operation_spec(td, version, t) {
                                Err(e) => Err(e),
                                Ok(c) => Ok((t, ops1 + ops2 + seq![c])),
                            },
                        }
                    },
                }
            },
            _ => Err(GeneratorErrorV::CouldNotGenerateType),
        },
    }
}

/// The versions of a struct or enum that code is generated for.
pub open spec fn type_version_list(d: VersionedTypeDefinitionData) -> Seq<nat> {
    version_list(d.versions@, 1, d.max_version())
}

/// The outputs for the first `n` versions of `vl`, each with the one before
/// it as its previous version; the first error stops.
pub open spec fn type_versions_upto<'a>(
    model: &'a Verilization,
    scope: Scope<'a>,
    td: Named<'a, VersionedTypeDefinitionData>,
    vl: Seq<nat>,
    n: nat,
) -> Result<Seq<(LangTypeV<'a>, Seq<OperationInfoV<'a>>)>, GeneratorErrorV>
    decreases n,
{
    if n == 0 || n > vl.len() {
        Ok(Seq::empty())
    } else {
        match type_versions_upto(model, scope, td, vl, (n - 1) as nat) {
            Err(e) => Err(e),
            Ok(done) => {
                let v = vl[n - 1];
                let vs = td.value.versions@;
                match version_operations_spec(
                    model,
                    scope,
                    td,
                    v,
                    has_exact_version(vs, v),
                    vs[version_index(vs, v)].1.fields@,
                    if n == 1 { None } else { Some(vl[n - 2]) },
                ) {
                    Err(e) => Err(e),
                    Ok(x) => Ok(done.push(x)),
                }
            },
        }
    }
}

/// What is generated for the struct or enum `td`: for each of its versions
/// in turn, its type there and its operations.
pub open spec fn generate_type_spec<'a>(model: &'a Verilization, scope: Scope<'a>, td: Named<'a, VersionedTypeDefinitionData>) -> Result<Seq<(LangTypeV<'a>, Seq<OperationInfoV<'a>>)>, GeneratorErrorV> {
    type_versions_upto(model, scope, td, type_version_list(*td.value), type_version_list(*td.value).len())
}

/// The type of a struct or enum at one version and its operations there.
pub struct TypeVersionOutput<'a> {
    pub version_type: LangType<'a>,
    pub operations: Vec<OperationInfo<'a>>,
}

/// The view of one version's output.
pub open spec fn version_output_view<'a>(o: TypeVersionOutput<'a>) -> (LangTypeV<'a>, Seq<OperationInfoV<'a>>) {
    (o.version_type@, o.operations@.map_values(|x: OperationInfo<'a>| x@))
}

/// The view of a result that holds the outputs of each version.
pub open spec fn outputs_result<'a>(r: Result<Vec<TypeVersionOutput<'a>>, GeneratorError>) -> Result<Seq<(LangTypeV<'a>, Seq<OperationInfoV<'a>>)>, GeneratorErrorV> {
    match r {
        Ok(os) => Ok(os@.map_values(|o: TypeVersionOutput<'a>| version_output_view(o))),
        Err(e) => Err(e@),
    }
}

/// Once the versions before `k` fail, so do those before any later `n`.
pub proof fn lemma_type_versions_err<'a>(
    model: &'a Verilization,
    scope: Scope<'a>,
    td: Named<'a, VersionedTypeDefinitionData>,
    vl: Seq<nat>,
    k: nat,
    n: nat,
)
    requires
        k <= n <= vl.len(),
        type_versions_upto(model, scope, td, vl, k) is Err,
    ensures
        type_versions_upto(model, scope, td, vl, n) == type_versions_upto(model, scope, td, vl, k),
    decreases n,
{
    if n > k {
        lemma_type_versions_err(model, scope, td, vl, k, (n - 1) as nat);
    }
}

/// The codec parameters of a codec.
fn codec_param_list<'a>(ps: &Vec<String>) -> (r: Vec<(String, LangType<'a>)>)
    ensures
        type_args_view(r@) == codec_params::<'a>(ps@),
{
    let mut out: Vec<(String, LangType<'a>)> = Vec::new();
    let mut i: usize = 0;
    while i < ps.len()
        invariant
            i <= ps@.len(),
            type_args_view(out@) =~= codec_params::<'a>(ps@).take(i as int),
        decreases ps@.len() - i,
    {
        let tp = LangType::TypeParameter(ps[i].clone());
        assert(tp@ == LangTypeV::<'a>::TypeParameter(ps@[i as int]@));
        let ghost tpv = tp@;
        let c = LangType::Codec(Box::new(tp));
        assert(c@ == LangTypeV::<'a>::Codec(Box::new(tpv)));
        assert(c@ == LangTypeV::<'a>::Codec(Box::new(LangTypeV::TypeParameter(ps@[i as int]@))));
        let ghost cv = c@;
        let n = codec_codec_param_name(ps[i].as_str());
        let ghost nv = n@;
        let ghost before = out@;
        out.push((n, c));
        assert(out@.drop_last() =~= before);
        assert(type_args_view(out@) == type_args_view(before).push((nv, cv)));
        assert(type_args_view(out@) =~= codec_params::<'a>(ps@).take(i + 1));
        i = i + 1;
    }
    assert(codec_params::<'a>(ps@).take(i as int) =~= codec_params::<'a>(ps@));
    out
}

/// A copy of a list of strings.
fn copy_strings(v: &Vec<String>) -> (r: Vec<String>)
    ensures
        strings_of(r@) == strings_of(v@),
{
    let mut out: Vec<String> = Vec::new();
    let mut i: usize = 0;
    while i < v.len()
        invariant
            i <= v@.len(),
            out@.len() == i,
            strings_of(out@) =~= strings_of(v@).take(i as int),
        decreases v@.len() - i,
    {
        let x = v[i].clone();
        out.push(x);
        assert(out@[i as int]@ == v@[i as int]@);
        assert(strings_of(out@) =~= strings_of(v@).take(i + 1));
        i = i + 1;
    }
    assert(strings_of(v@).take(i as int) =~= strings_of(v@));
    out
}

/// A list of one operation.
fn single_op<'a>(o: OperationInfo<'a>) -> (r: Vec<OperationInfo<'a>>)
    ensures
        r@.map_values(|x: OperationInfo<'a>| x@) == seq![o@],
{
    let ghost ov = o@;
    let mut v: Vec<OperationInfo<'a>> = Vec::new();
    v.push(o);
    assert(v@.map_values(|x: OperationInfo<'a>| x@) =~= seq![ov]);
    v
}

/// What the operations of a version need to know of the type there:
/// whether it no longer changes, and whether it is a struct or an enum.
pub struct VersionedTypeGeneratorOperationsState {
    pub is_final_last_version: bool,
    pub type_kind: VersionedTypeKind,
}

impl<'a> TypeGenerator<'a> {
    /// What the operations of the version `version` of the type `t` need to
    /// know of it; only a struct or enum type has operations.
    pub fn prepare_operations_state(&self, t: &LangType<'a>, version: &BigNat) -> (r: Result<VersionedTypeGeneratorOperationsState, GeneratorError>)
        requires
            resolvable(self.gen.model, t@),
        ensures
            match t@ {
                LangTypeV::Versioned(kind, _, _, _, _) => r matches Ok(s) && s.type_kind == kind
                    && s.is_final_last_version == final_in_version_spec(self.gen.model, version@, t@),
                _ => r matches Err(e) && e@ == GeneratorErrorV::CouldNotGenerateType,
            },
    {
        let is_final_last_version = t.is_final_in_version(version, self.gen.model);
        let type_kind = match t {
            LangType::Versioned(k, _, _, _, _) => *k,
            _ => return Err(GeneratorError::CouldNotGenerateType),
        };
        Ok(VersionedTypeGeneratorOperationsState { is_final_last_version, type_kind })
    }

    /// The type of the struct or enum at one version, applied to its own
    /// parameters, and its operations there.
    pub fn version_operations(&self, ver_type: &TypeVersionInfo<'a>, prev_ver: &Option<BigNat>) -> (r: Result<TypeVersionOutput<'a>, GeneratorError>)
        ensures
            match r {
                Ok(o) => version_operations_spec(self.gen.model, self.gen.scope, self.type_def, ver_type.version@,
                    ver_type.explicit_version, ver_type.ver_type.fields@, opt_nat(*prev_ver)) == Ok::<(LangTypeV<'a>, Seq<OperationInfoV<'a>>), GeneratorErrorV>(version_output_view(o)),
                Err(e) => version_operations_spec(self.gen.model, self.gen.scope, self.type_def, ver_type.version@,
                    ver_type.explicit_version, ver_type.ver_type.fields@, opt_nat(*prev_ver)) == Err::<(LangTypeV<'a>, Seq<OperationInfoV<'a>>), GeneratorErrorV>(e@),
            },
    {
        let version = &ver_type.version;
        let params = &self.type_def.value.type_params;
        let ghost ps = params@;
        let ghost targs = param_args::<'a>(self.gen.scope.params_view());
        let self_type = own_type(self.type_def.name, params);
        proof {
            lemma_own_type(self.gen.model, version@, self.gen.scope, self_type, ps, targs);
            lemma_own_type_resolvable(self.gen.model, version@, self.gen.scope, self.type_def.name@, ps, targs);
        }
        let t = match self.gen.build_type(version, &self_type) {
            Ok(t) => t,
            Err(e) => return Err(e),
        };
        let state = match self.prepare_operations_state(&t, version) {
            Ok(s) => s,
            Err(e) => return Err(e),
        };
        let kind = state.type_kind;
        let is_final = state.is_final_last_version;
        let mut ops: Vec<OperationInfo<'a>> = Vec::new();
        assert(ops@.map_values(|x: OperationInfo<'a>| x@) =~= Seq::<OperationInfoV<'a>>::empty());
        if is_final && params.len() > 0 {
            let o = match build_converter_operation_common(self, Operation::FinalTypeConverter, kind, ver_type, version) {
                Ok(o) => o,
                Err(e) => return Err(e),
            };
            ops = single_op(o);
        }
        let ghost ops1 = ops@.map_values(|x: OperationInfo<'a>| x@);
        match prev_ver {
            Some(prev) => {
                let o = match build_converter_operation_common(self, Operation::FromPreviousVersion(prev.copy()), kind, ver_type, prev) {
                    Ok(o) => o,
                    Err(e) => return Err(e),
                };
                let ghost ov = o@;
                ops.push(o);
                assert(ops@.map_values(|x: OperationInfo<'a>| x@) =~= ops1 + seq![ov]);
            },
            None => {
                assert(ops1 + Seq::<OperationInfoV<'a>>::empty() =~= ops1);
            },
        }
        let ghost ops12 = ops@.map_values(|x: OperationInfo<'a>| x@);
        let obj_type = t.copy();
        let read = match codec_read_implementation(self, obj_type.copy()) {
            Ok(s) => s,
            Err(e) => return Err(e),
        };
        let write = match codec_write_implementation(self, obj_type.copy()) {
            Ok(s) => s,
            Err(e) => return Err(e),
        };
        let codec_op = OperationInfo {
            operation: Operation::TypeCodec,
            version: version.copy(),
            type_params: copy_strings(params),
            params: codec_param_list(params),
            result: LangType::Codec(Box::new(obj_type.copy())),
            implementation: LangExprStmt::CreateCodec { t: obj_type, read: Box::new(read), write: Box::new(write) },
        };
        let ghost cv = codec_op@;
        ops.push(codec_op);
        assert(ops@.map_values(|x: OperationInfo<'a>| x@) =~= ops12 + seq![cv]);
        Ok(TypeVersionOutput { version_type: t, operations: ops })
    }

    /// What is generated for the struct or enum: for each of its versions in
    /// turn, its type there and its operations.
    pub fn generate(&self) -> (r: Result<Vec<TypeVersionOutput<'a>>, GeneratorError>)
        ensures
            outputs_result(r) == generate_type_spec(self.gen.model, self.gen.scope, self.type_def),
    {
        let vers = self.type_def.value.versions();
        let ghost vl = type_version_list(*self.type_def.value);
        let ghost vs = self.type_def.value.versions@;
        let mut out: Vec<TypeVersionOutput<'a>> = Vec::new();
        assert(out@.map_values(|o: TypeVersionOutput<'a>| version_output_view(o)) =~= Seq::empty());
        let mut i: usize = 0;
        while i < vers.len()
            invariant
                i <= vers@.len(),
                vl == type_version_list(*self.type_def.value),
                vs == self.type_def.value.versions@,
                vers@.len() == vl.len(),
                forall|k: int| 0 <= k < vers@.len() ==> {
                    &&& (#[trigger] vers@[k]).version@ == vl[k]
                    &&& *vers@[k].ver_type == vs[version_index(vs, vl[k])].1
                    &&& vers@[k].explicit_version == has_exact_version(vs, vl[k])
                },
                type_versions_upto(self.gen.model, self.gen.scope, self.type_def, vl, i as nat)
                    == Ok::<Seq<(LangTypeV<'a>, Seq<OperationInfoV<'a>>)>, GeneratorErrorV>(out@.map_values(|o: TypeVersionOutput<'a>| version_output_view(o))),
            decreases vers@.len() - i,
        {
            let prev: Option<BigNat> = if i == 0 { None } else { Some(vers[i - 1].version.copy()) };
            let o = match self.version_operations(&vers[i], &prev) {
                Ok(o) => o,
                Err(e) => {
                    proof {
                        lemma_type_versions_err(self.gen.model, self.gen.scope, self.type_def, vl, (i + 1) as nat, vl.len());
                    }
                    return Err(e);
                },
            };
            let ghost before = out@;
            out.push(o);
            assert(out@.map_values(|o: TypeVersionOutput<'a>| version_output_view(o))
                =~= before.map_values(|o: TypeVersionOutput<'a>| version_output_view(o)).push(version_output_view(o)));
            i = i + 1;
        }
        Ok(out)
    }
}

/// The name of the member that holds a constant's value at `version`: `v`
/// and the version in decimal.
pub fn constant_version_name(version: &BigNat) -> (r: String)
    ensures
        r@ == "v"@ + decimal_text(version@),
{
    let mut s = "v".to_owned();
    let d = version.to_decimal();
    append_str(&mut s, d.as_str());
    s
}

/// The value of constant `c` at the `n`-th version of `vl`, of type `t`: the
/// value given at exactly that version, or else the value of the version
/// before it, converted.
pub open spec fn constant_value_spec<'a>(
    model: &'a Verilization,
    scope: Scope<'a>,
    c: Named<'a, Constant>,
    vl: Seq<nat>,
    n: nat,
    t: LangTypeV<'a>,
) -> Result<LangExprV<'a>, GeneratorErrorV> {
    let v = vl[n - 1];
    let vs = c.value.versions@;
    if has_exact_version(vs, v) {
        build_value_spec(model, scope, v, t, vs[version_index(vs, v)].1)
    } else if n == 1 {
        Err(GeneratorErrorV::CouldNotFindVersion(c.name@, v))
    } else {
        build_conversion_spec(model, scope, vl[n - 2], v, c.value.value_type, ConvertParamV::Expression(LangExprV::ConstantValue(c.name@, vl[n - 2])))
    }
}

/// For the first `n` versions of `vl`: the member name, the constant's type
/// and its value there; the first error stops.
pub open spec fn constant_versions_upto<'a>(
    model: &'a Verilization,
    scope: Scope<'a>,
    c: Named<'a, Constant>,
    vl: Seq<nat>,
    n: nat,
) -> Result<Seq<(Seq<char>, LangTypeV<'a>, LangExprV<'a>)>, GeneratorErrorV>
    decreases n,
{
    if n == 0 || n > vl.len() {
        Ok(Seq::empty())
    } else {
        match constant_versions_upto(model, scope, c, vl, (n - 1) as nat) {
            Err(e) => Err(e),
            Ok(done) => {
                let v = vl[n - 1];
                match build_type_spec(model, v, c.value.value_type, scope, param_args(scope.params_view())) {
                    Err(e) => Err(e),
                    Ok(t) => match constant_value_spec(model, scope, c, vl, n, t) {
                        Err(e) => Err(e),
                        Ok(x) => Ok(done.push(("v"@ + decimal_text(v), t, x))),
                    },
                }
            },
        }
    }
}

/// What is generated for constant `c`: for each of its versions in turn,
/// the member name, its type and its value.
pub open spec fn generate_constant_spec<'a>(model: &'a Verilization, scope: Scope<'a>, c: Named<'a, Constant>) -> Result<Seq<(Seq<char>, LangTypeV<'a>, LangExprV<'a>)>, GeneratorErrorV> {
    let vl = version_list(c.value.versions@, 1, c.model.latest());
    constant_versions_upto(model, scope, c, vl, vl.len())
}

/// Once the versions before `k` fail, so do those before any later `n`.
pub proof fn lemma_constant_versions_err<'a>(
    model: &'a Verilization,
    scope: Scope<'a>,
    c: Named<'a, Constant>,
    vl: Seq<nat>,
    k: nat,
    n: nat,
)
    requires
        k <= n <= vl.len(),
        constant_versions_upto(model, scope, c, vl, k) is Err,
    ensures
        constant_versions_upto(model, scope, c, vl, n) == constant_versions_upto(model, scope, c, vl, k),
    decreases n,
{
    if n > k {
        lemma_constant_versions_err(model, scope, c, vl, k, (n - 1) as nat);
    }
}

/// The member for a constant's value at one version.
pub struct ConstantVersionOutput<'a> {
    pub version_name: String,
    pub value_type: LangType<'a>,
    pub value: LangExpr<'a>,
}

/// The view of a constant's output at one version.
pub open spec fn constant_output_view<'a>(o: ConstantVersionOutput<'a>) -> (Seq<char>, LangTypeV<'a>, LangExprV<'a>) {
    (o.version_name@, o.value_type@, o.value@)
}

/// Builds what is generated for one constant, with names looked up in the
/// constant's scope.
pub struct ConstGenerator<'a> {
    pub gen: Generator<'a>,
    pub constant: Named<'a, Constant>,
}

impl<'a> ConstGenerator<'a> {
    /// The generator for a constant of `model`.
    pub fn new(constant: Named<'a, Constant>) -> (r: ConstGenerator<'a>)
        ensures
            r.gen.model == constant.model,
            r.gen.scope.model == constant.model,
            r.gen.scope.current_pkg == Some(&constant.name.package),
            r.gen.scope.imports == Some(&constant.value.imports),
            r.gen.scope.type_params is None,
            r.constant == constant,
    {
        let scope = Scope::of_constant(&constant);
        ConstGenerator { gen: Generator { model: constant.model, scope }, constant }
    }

    /// The constant's value at `prev_ver`, converted to `version`.
    pub fn build_value_from_prev(&self, prev_ver: &BigNat, version: &BigNat, t: &Type) -> (r: Result<LangExpr<'a>, GeneratorError>)
        ensures
            expr_result(r) == build_conversion_spec(self.gen.model, self.gen.scope, prev_ver@, version@, *t,
                ConvertParamV::Expression(LangExprV::ConstantValue(self.constant.name@, prev_ver@))),
    {
        self.gen.build_conversion(prev_ver, version, t, ConvertParam::Expression(LangExpr::ConstantValue(self.constant.name, prev_ver.copy())))
    }

    /// What is generated for the constant: for each of its versions in turn,
    /// the member name, its type and its value.
    pub fn generate(&self) -> (r: Result<Vec<ConstantVersionOutput<'a>>, GeneratorError>)
        ensures
            match r {
                Ok(os) => generate_constant_spec(self.gen.model, self.gen.scope, self.constant)
                    == Ok::<Seq<(Seq<char>, LangTypeV<'a>, LangExprV<'a>)>, GeneratorErrorV>(os@.map_values(|o: ConstantVersionOutput<'a>| constant_output_view(o))),
                Err(e) => generate_constant_spec(self.gen.model, self.gen.scope, self.constant)
                    == Err::<Seq<(Seq<char>, LangTypeV<'a>, LangExprV<'a>)>, GeneratorErrorV>(e@),
            },
    {
        let c = self.constant.value;
        let vers = self.constant.versions();
        let ghost vl = version_list(c.versions@, 1, self.constant.model.latest());
        let ghost vs = c.versions@;
        let mut out: Vec<ConstantVersionOutput<'a>> = Vec::new();
        assert(out@.map_values(|o: ConstantVersionOutput<'a>| constant_output_view(o)) =~= Seq::empty());
        let mut i: usize = 0;
        while i < vers.len()
            invariant
                i <= vers@.len(),
                c == self.constant.value,
                vl == version_list(c.versions@, 1, self.constant.model.latest()),
                vs == c.versions@,
                vers@.len() == vl.len(),
                forall|k: int| 0 <= k < vers@.len() ==> {
                    &&& (#[trigger] vers@[k]).version@ == vl[k]
                    &&& (vers@[k].value is Some <==> has_exact_version(vs, vl[k]))
                    &&& vers@[k].value matches Some(x) ==> *x == vs[version_index(vs, vl[k])].1
                },
                constant_versions_upto(self.gen.model, self.gen.scope, self.constant, vl, i as nat)
                    == Ok::<Seq<(Seq<char>, LangTypeV<'a>, LangExprV<'a>)>, GeneratorErrorV>(out@.map_values(|o: ConstantVersionOutput<'a>| constant_output_view(o))),
            decreases vers@.len() - i,
        {
            let version = &vers[i].version;
            let version_name = constant_version_name(version);
            let t = match self.gen.build_type(version, &c.value_type) {
                Ok(t) => t,
                Err(e) => {
                    proof {
                        lemma_constant_versions_err(self.gen.model, self.gen.scope, self.constant, vl, (i + 1) as nat, vl.len());
                    }
                    return Err(e);
                },
            };
            let ghost tv = t@;
            let value = match vers[i].value {
                Some(v) => self.gen.build_value(version, t.copy(), v),
                None => if i == 0 {
                    Err(GeneratorError::CouldNotFindVersion(self.constant.name.copy(), version.copy()))
                } else {
                    self.build_value_from_prev(&vers[i - 1].version, version, &c.value_type)
                },
            };
            assert(expr_result(value) == constant_value_spec(self.gen.model, self.gen.scope, self.constant, vl, (i + 1) as nat, tv));
            let value = match value {
                Ok(x) => x,
                Err(e) => {
                    proof {
                        lemma_constant_versions_err(self.gen.model, self.gen.scope, self.constant, vl, (i + 1) as nat, vl.len());
                    }
                    return Err(e);
                },
            };
            let o = ConstantVersionOutput { version_name, value_type: t, value };
            let ghost before = out@;
            out.push(o);
            assert(out@.map_values(|o: ConstantVersionOutput<'a>| constant_output_view(o))
                =~= before.map_values(|o: ConstantVersionOutput<'a>| constant_output_view(o)).push(constant_output_view(o)));
            i = i + 1;
        }
        Ok(out)
    }
}

/// Every type is the same as itself.
pub proof fn lemma_same_type_reflexive<'a>(t: LangTypeV<'a>)
    ensures
        same_type_spec(t, t),
    decreases t, 0nat,
{
    match t {
        LangTypeV::Versioned(_, _, _, args, _) => lemma_same_types_reflexive(args, args.len()),
        LangTypeV::Extern(_, args, _) => lemma_same_types_reflexive(args, args.len()),
        LangTypeV::Converter(a, b) => {
            lemma_same_type_reflexive(*a);
            lemma_same_type_reflexive(*b);
        },
        LangTypeV::Codec(a) => lemma_same_type_reflexive(*a),
        LangTypeV::TypeParameter(_) => {},
    }
}

/// Every list of types is pairwise the same as itself.
pub proof fn lemma_same_types_reflexive<'a>(ts: Seq<LangTypeV<'a>>, n: nat)
    ensures
        same_types_upto(ts, ts, n),
    decreases ts, n,
{
    if n > 0 && n <= ts.len() {
        lemma_same_types_reflexive(ts, (n - 1) as nat);
        lemma_same_type_reflexive(ts[n - 1]);
    }
}

/// Whether two types are the same does not depend on their order.
pub proof fn lemma_same_type_symmetric<'a>(a: LangTypeV<'a>, b: LangTypeV<'a>)
    ensures
        same_type_spec(a, b) == same_type_spec(b, a),
    decreases a, 0nat,
{
    match (a, b) {
        (LangTypeV::Versioned(_, _, _, a1, _), LangTypeV::Versioned(_, _, _, a2, _)) => {
            if a1.len() == a2.len() {
                lemma_same_types_symmetric(a1, a2, a1.len());
            }
        },
        (LangTypeV::Extern(_, a1, _), LangTypeV::Extern(_, a2, _)) => {
            if a1.len() == a2.len() {
                lemma_same_types_symmetric(a1, a2, a1.len());
            }
        },
        (LangTypeV::Converter(f1, t1), LangTypeV::Converter(f2, t2)) => {
            lemma_same_type_symmetric(*f1, *f2);
            lemma_same_type_symmetric(*t1, *t2);
        },
        (LangTypeV::Codec(e1), LangTypeV::Codec(e2)) => lemma_same_type_symmetric(*e1, *e2),
        _ => {},
    }
}

/// Whether two lists of types are pairwise the same does not depend on
/// their order.
pub proof fn lemma_same_types_symmetric<'a>(a: Seq<LangTypeV<'a>>, b: Seq<LangTypeV<'a>>, n: nat)
    requires
        a.len() == b.len(),
    ensures
        same_types_upto(a, b, n) == same_types_upto(b, a, n),
    decreases a, n,
{
    if n > 0 && n <= a.len() {
        lemma_same_types_symmetric(a, b, (n - 1) as nat);
        lemma_same_type_symmetric(a[n - 1], b[n - 1]);
    }
}

/// No case of `cases[..n]` gives a value when none of them does.
proof fn lemma_no_enum_case_value<'a>(cases: Seq<(Seq<char>, Seq<char>, LangStmtV<'a>)>, n: nat)
    requires
        forall|k: int| 0 <= k < cases.len() ==> !has_value_spec(#[trigger] cases[k].2),
    ensures
        !enum_cases_have_value(cases, n),
    decreases n,
{
    if n > 0 && n <= cases.len() {
        lemma_no_enum_case_value(cases, (n - 1) as nat);
    }
}

/// The cases that write an enum's values have one entry per case, and none
/// gives a value.
proof fn lemma_write_cases_shape<'a>(fs: Seq<(Seq<char>, LangTypeV<'a>)>, n: nat)
    requires
        n <= fs.len(),
    ensures
        write_cases_upto(fs, n) matches Ok(cs) ==> cs.len() == n
            && forall|k: int| 0 <= k < cs.len() ==> !has_value_spec(#[trigger] cs[k].2),
    decreases n,
{
    if n > 0 {
        lemma_write_cases_shape(fs, (n - 1) as nat);
    }
}

/// The cases that read an enum's values have one entry per case, and each
/// gives a value.
proof fn lemma_read_cases_shape<'a>(owner: NameView, v: nat, targs: Seq<LangTypeV<'a>>, fs: Seq<(Seq<char>, LangTypeV<'a>)>, n: nat)
    requires
        n <= fs.len(),
    ensures
        read_cases_upto(owner, v, targs, fs, n) matches Ok(cs) ==> cs.len() == n
            && forall|k: int| 0 <= k < cs.len() ==> has_value_spec(#[trigger] cs[k].1),
    decreases n,
{
    if n > 0 {
        lemma_read_cases_shape(owner, v, targs, fs, (n - 1) as nat);
    }
}

/// Reading and writing the cases `fs[..n]` of an enum agree: the case read
/// under tag `i` is the case that writes tag `i`, and both use that case's
/// codec.
proof fn lemma_cases_agree<'a>(owner: NameView, v: nat, targs: Seq<LangTypeV<'a>>, fs: Seq<(Seq<char>, LangTypeV<'a>)>, n: nat)
    requires
        n <= fs.len(),
        read_cases_upto(owner, v, targs, fs, n) is Ok,
        write_cases_upto(fs, n) is Ok,
    ensures
        ({
            let cs = read_cases_upto(owner, v, targs, fs, n)->Ok_0;
            let ws = write_cases_upto(fs, n)->Ok_0;
            &&& cs.len() == n
            &&& ws.len() == n
            &&& forall|i: int| 0 <= i < n ==> {
                let c = build_codec_spec(fs[i].1)->Ok_0;
                &&& build_codec_spec(fs[i].1) is Ok
                &&& (#[trigger] cs[i]).0 == i
                &&& ws[i].0 == fs[i].0 && ws[i].1 == fs[i].0
                &&& cs[i].1 == LangStmtV::Expr(Seq::empty(), Some(LangExprV::CreateEnum(owner, v, targs, fs[i].0,
                    Box::new(LangExprV::CodecRead(Box::new(c))))))
                &&& ws[i].2 == LangStmtV::Expr(
                    seq![
                        LangExprV::WriteDiscriminator(i as nat),
                        LangExprV::CodecWrite(Box::new(c), Box::new(LangExprV::Identifier(fs[i].0))),
                    ],
                    None,
                )
            }
        }),
    decreases n,
{
    if n > 0 {
        lemma_cases_agree(owner, v, targs, fs, (n - 1) as nat);
    }
}

/// Reading and writing the fields `fs[..n]` of a struct agree: both take
/// the fields in the same order, each with its codec.
proof fn lemma_fields_agree<'a>(owner: NameView, v: nat, fs: Seq<(Seq<char>, LangTypeV<'a>)>, n: nat)
    requires
        n <= fs.len(),
        read_fields_upto(fs, n) is Ok,
        write_fields_upto(owner, v, fs, n) is Ok,
    ensures
        ({
            let rs = read_fields_upto(fs, n)->Ok_0;
            let ws = write_fields_upto(owner, v, fs, n)->Ok_0;
            &&& rs.len() == n
            &&& ws.len() == n
            &&& forall|i: int| 0 <= i < n ==> {
                let c = build_codec_spec(fs[i].1)->Ok_0;
                &&& (#[trigger] rs[i]) == (fs[i].0, LangExprV::CodecRead(Box::new(c)))
                &&& ws[i] == LangExprV::CodecWrite(Box::new(c),
                    Box::new(LangExprV::StructField(owner, v, fs[i].0, Box::new(LangExprV::Identifier("value"@)))))
            }
        }),
    decreases n,
{
    if n > 0 {
        lemma_fields_agree(owner, v, fs, (n - 1) as nat);
        let rp = read_fields_upto(fs, (n - 1) as nat)->Ok_0;
        let wp = write_fields_upto(owner, v, fs, (n - 1) as nat)->Ok_0;
        let rs = read_fields_upto(fs, n)->Ok_0;
        let ws = write_fields_upto(owner, v, fs, n)->Ok_0;
        assert(rs == rp.push((fs[n - 1].0, LangExprV::CodecRead(Box::new(build_codec_spec(fs[n - 1].1)->Ok_0)))));
        assert forall|i: int| 0 <= i < n implies {
            let c = build_codec_spec(fs[i].1)->Ok_0;
            &&& (#[trigger] rs[i]) == (fs[i].0, LangExprV::CodecRead(Box::new(c)))
            &&& ws[i] == LangExprV::CodecWrite(Box::new(c),
                Box::new(LangExprV::StructField(owner, v, fs[i].0, Box::new(LangExprV::Identifier("value"@)))))
        } by {
            if i < n - 1 {
                assert(rs[i] == rp[i]);
                assert(ws[i] == wp[i]);
            }
        }
    }
}

/// Whatever the struct or enum version `t`, where its codec can be both
/// read and written (by `codec_read_implementation` and
/// `codec_write_implementation`), the two agree: a struct's fields are read and written
/// in the same order, each with the same codec; an enum's case read under
/// tag `i` is the case whose write writes tag `i` before its value, and
/// both use that case's codec.
pub proof fn lemma_codec_agrees<'a>(owner: NameView, t: LangTypeV<'a>)
    requires
        codec_read_spec(owner, t) is Ok,
        codec_write_spec(owner, t) is Ok,
    ensures
        match t {
            LangTypeV::Versioned(VersionedTypeKind::Struct, _, v, targs, fields) => {
                let fs = fields_spec(fields)->Ok_0;
                &&& fields_spec(fields) is Ok
                &&& codec_read_spec(owner, t) == Ok::<LangStmtV<'a>, GeneratorErrorV>(LangStmtV::Expr(Seq::empty(),
                    Some(LangExprV::CreateStruct(owner, v, targs, read_fields_upto(fs, fs.len())->Ok_0))))
                &&& codec_write_spec(owner, t) == Ok::<LangStmtV<'a>, GeneratorErrorV>(LangStmtV::Expr(write_fields_upto(owner, v, fs, fs.len())->Ok_0, None))
                &&& read_fields_upto(fs, fs.len())->Ok_0.len() == fs.len()
                &&& write_fields_upto(owner, v, fs, fs.len())->Ok_0.len() == fs.len()
                &&& forall|i: int| 0 <= i < fs.len() ==> {
                    let c = build_codec_spec(fs[i].1)->Ok_0;
                    &&& (#[trigger] read_fields_upto(fs, fs.len())->Ok_0[i]) == (fs[i].0, LangExprV::CodecRead(Box::new(c)))
                    &&& write_fields_upto(owner, v, fs, fs.len())->Ok_0[i] == LangExprV::CodecWrite(Box::new(c),
                        Box::new(LangExprV::StructField(owner, v, fs[i].0, Box::new(LangExprV::Identifier("value"@)))))
                }
            },
            LangTypeV::Versioned(VersionedTypeKind::Enum, _, v, targs, fields) => {
                let fs = fields_spec(fields)->Ok_0;
                let cs = read_cases_upto(owner, v, targs, fs, fs.len())->Ok_0;
                let ws = write_cases_upto(fs, fs.len())->Ok_0;
                &&& fields_spec(fields) is Ok
                &&& codec_read_spec(owner, t) == Ok::<LangStmtV<'a>, GeneratorErrorV>(LangStmtV::MatchDiscriminator(LangExprV::ReadDiscriminator, cs))
                &&& codec_write_spec(owner, t) == Ok::<LangStmtV<'a>, GeneratorErrorV>(LangStmtV::MatchEnum(LangExprV::Identifier("value"@), t, ws))
                &&& cs.len() == fs.len()
                &&& ws.len() == fs.len()
                &&& forall|i: int| 0 <= i < fs.len() ==> {
                    let c = build_codec_spec(fs[i].1)->Ok_0;
                    &&& (#[trigger] cs[i]).0 == i
                    &&& ws[i].1 == fs[i].0
                    &&& cs[i].1 == LangStmtV::Expr(Seq::empty(), Some(LangExprV::CreateEnum(owner, v, targs, fs[i].0,
                        Box::new(LangExprV::CodecRead(Box::new(c))))))
                    &&& ws[i].2 == LangStmtV::Expr(
                        seq![
                            LangExprV::WriteDiscriminator(i as nat),
                            LangExprV::CodecWrite(Box::new(c), Box::new(LangExprV::Identifier(fs[i].0))),
                        ],
                        None,
                    )
                }
            },
            _ => false,
        },
{
    match t {
        LangTypeV::Versioned(VersionedTypeKind::Struct, _, v, targs, fields) => {
            let fs = fields_spec(fields)->Ok_0;
            lemma_fields_agree(owner, v, fs, fs.len());
        },
        LangTypeV::Versioned(VersionedTypeKind::Enum, _, v, targs, fields) => {
            let fs = fields_spec(fields)->Ok_0;
            lemma_cases_agree(owner, v, targs, fs, fs.len());
        },
        _ => {},
    }
}

/// A codec's write gives no value, and its read gives one unless it reads
/// an enum without cases.
pub proof fn lemma_codec_values<'a>(owner: NameView, t: LangTypeV<'a>)
    ensures
        codec_write_spec(owner, t) matches Ok(w) ==> !has_value_spec(w),
        codec_read_spec(owner, t) matches Ok(r) ==> (has_value_spec(r)
            <==> r != LangStmtV::<'a>::MatchDiscriminator(LangExprV::ReadDiscriminator, Seq::empty())),
{
    match t {
        LangTypeV::Versioned(VersionedTypeKind::Enum, _, v, targs, fields) => match fields_spec(fields) {
            Ok(fs) => {
                lemma_write_cases_shape(fs, fs.len());
                if let Ok(cs) = write_cases_upto(fs, fs.len()) {
                    lemma_no_enum_case_value(cs, cs.len());
                }
                lemma_read_cases_shape(owner, v, targs, fs, fs.len());
                if let Ok(cs) = read_cases_upto(owner, v, targs, fs, fs.len()) {
                    if cs.len() > 0 {
                        assert(has_value_spec(cs[cs.len() - 1].1));
                        assert(disc_cases_have_value(cs, cs.len()));
                    } else {
                        assert(cs =~= Seq::<(nat, LangStmtV<'a>)>::empty());
                    }
                }
            },
            Err(_) => {},
        },
        _ => {},
    }
}

} // verus!
