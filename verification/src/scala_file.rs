//! The Scala source files of a model: one object for each constant, and
//! for each struct or enum a sealed class with a case class (for a struct)
//! or a sealed class of case classes (for an enum) and an object for each
//! of its versions.
use vstd::prelude::*;
use crate::text::{append_str, joined_with};
use crate::names::strings_view;
use crate::model::{Named, NamedTypeDefinition, TypeDefinition, Verilization, VersionedTypeDefinitionData, Constant, NameView};
use crate::names::QualifiedName;
use crate::lang::{ScalaLanguage, VersionedTypeKind};
use crate::lang::Language;
use crate::bignum::{BigNat, decimal_text};
use crate::util::{capitalized, uncapitalized};
use crate::lang::{make_type_name, make_field_name};
use crate::generator::{
    GeneratorError, GeneratorErrorV, LangTypeV, OperationInfoV, TypeGenerator, ConstGenerator, TypeVersionOutput, ConstantVersionOutput,
    generate_type_spec, generate_constant_spec, versioned_scope, LangType, LangField, fields_spec, lang_fields_view,
};
use crate::java::{ok_text, wrote, tabs, write_indent, lemma_add_assoc};
use crate::java_file::{constant_scope, outputs_view, ops_view, text_result, names_joined};
use crate::scala::{
    ScalaOptions, scala_package, scala_package_spec, scala_type_text, scala_write_type, scala_expr_text, scala_write_expr,
    scala_ops_text, scala_write_ops, scala_package_clause, scala_write_package, scala_type_params_text, scala_write_type_params,
};

verus! {

/// The fields `fs[..n]` of a struct version's case class, each on a line
/// of its own: its name, its type and a comma.
pub open spec fn scala_record_fields(o: ScalaOptions, fs: Seq<(Seq<char>, LangTypeV)>, n: nat) -> Result<Seq<char>, GeneratorErrorV>
    decreases n,
{
    if n == 0 || n > fs.len() {
        Ok(Seq::empty())
    } else {
        match scala_record_fields(o, fs, (n - 1) as nat) {
            Err(e) => Err(e),
            Ok(p) => match scala_type_text(o, fs[n - 1].1) {
                Err(e) => Err(e),
                Ok(t) => Ok(p + tabs(2) + uncapitalized(fs[n - 1].0) + ": "@ + t + ",\n"@),
            },
        }
    }
}

/// The case classes of the cases `fs[..n]` of an enum version `v`, each
/// extending the version's class.
pub open spec fn scala_case_classes(o: ScalaOptions, tps: Seq<Seq<char>>, v: nat, fs: Seq<(Seq<char>, LangTypeV)>, n: nat) -> Result<Seq<char>, GeneratorErrorV>
    decreases n,
{
    if n == 0 || n > fs.len() {
        Ok(Seq::empty())
    } else {
        match scala_case_classes(o, tps, v, fs, (n - 1) as nat) {
            Err(e) => Err(e),
            Ok(p) => match scala_type_text(o, fs[n - 1].1) {
                Err(e) => Err(e),
                Ok(t) => Ok(p + tabs(2) + "final case class "@ + capitalized(fs[n - 1].0) + scala_type_params_text(tps) + "("@
                    + uncapitalized(fs[n - 1].0) + ": "@ + t + ") extends V"@ + decimal_text(v) + scala_type_params_text(tps) + "\n"@),
            },
        }
    }
}

/// Once the components before `k` fail, so do those before any later `n`.
proof fn lemma_scala_fields_text_err(o: ScalaOptions, fs: Seq<(Seq<char>, LangTypeV)>, k: nat, n: nat)
    requires
        k <= n <= fs.len(),
        scala_record_fields(o, fs, k) is Err,
    ensures
        scala_record_fields(o, fs, n) == scala_record_fields(o, fs, k),
    decreases n,
{
    if n > k {
        lemma_scala_fields_text_err(o, fs, k, (n - 1) as nat);
    }
}

/// Once the case classes before `k` fail, so do those before any later `n`.
proof fn lemma_scala_cases_err(o: ScalaOptions, tps: Seq<Seq<char>>, v: nat, fs: Seq<(Seq<char>, LangTypeV)>, k: nat, n: nat)
    requires
        k <= n <= fs.len(),
        scala_case_classes(o, tps, v, fs, k) is Err,
    ensures
        scala_case_classes(o, tps, v, fs, n) == scala_case_classes(o, tps, v, fs, k),
    decreases n,
{
    if n > k {
        lemma_scala_cases_err(o, tps, v, fs, k, (n - 1) as nat);
    }
}

/// The opening of a version of the struct or enum `nm`: for a struct a
/// case class of its fields, for an enum a sealed class, then the
/// version's object, which holds a case class for each case of an enum.
#[verifier::opaque]
pub open spec fn scala_version_header_text(o: ScalaOptions, nm: Seq<char>, tps: Seq<Seq<char>>, t: LangTypeV) -> Result<Seq<char>, GeneratorErrorV> {
    match t {
        LangTypeV::Versioned(VersionedTypeKind::Struct, _, v, _, f) => match fields_spec(f) {
            Err(e) => Err(e),
            Ok(fs) => match scala_record_fields(o, fs, fs.len()) {
                Err(e) => Err(e),
                Ok(c) => Ok(tabs(1) + "final case class V"@ + decimal_text(v) + scala_type_params_text(tps) + "(\n"@ + c
                    + tabs(1) + ") extends "@ + nm + "\n"@ + tabs(1) + "object V"@ + decimal_text(v) + " {\n"@),
            },
        },
        LangTypeV::Versioned(VersionedTypeKind::Enum, _, v, _, f) => match fields_spec(f) {
            Err(e) => Err(e),
            Ok(fs) => match scala_case_classes(o, tps, v, fs, fs.len()) {
                Err(e) => Err(e),
                Ok(c) => Ok(tabs(1) + "sealed abstract class V"@ + decimal_text(v) + scala_type_params_text(tps) + " extends "@ + nm + "\n"@
                    + tabs(1) + "object V"@ + decimal_text(v) + " {\n"@ + c),
            },
        },
        _ => Err(GeneratorErrorV::CouldNotGenerateType),
    }
}

/// Writes the fields of a struct version's case class.
#[verifier::spinoff_prover]
fn scala_write_record_fields(o: &ScalaOptions, out: &mut String, fs: &Vec<LangField>) -> (r: Result<(), GeneratorError>)
    ensures
        wrote(r, old(out)@, final(out)@, scala_record_fields(*o, lang_fields_view(fs@), fs@.len())),
{
    let ghost fv = lang_fields_view(fs@);
    let ghost start = out@;
    let mut i: usize = 0;
    while i < fs.len()
        invariant
            i <= fs@.len(),
            fv == lang_fields_view(fs@),
            scala_record_fields(*o, fv, i as nat) is Ok,
            out@ == start + ok_text(scala_record_fields(*o, fv, i as nat)),
        decreases fs@.len() - i,
    {
        write_indent(out, 2);
        let f = make_field_name(fs[i].name.as_str());
        append_str(out, f.as_str());
        append_str(out, ": ");
        match scala_write_type(o, out, &fs[i].field_type) {
            Ok(()) => {},
            Err(x) => {
                proof {
                    lemma_scala_fields_text_err(*o, fv, (i + 1) as nat, fv.len());
                }
                return Err(x);
            },
        }
        append_str(out, ",\n");
        assert(out@ =~= start + ok_text(scala_record_fields(*o, fv, (i + 1) as nat)));
        i = i + 1;
    }
    Ok(())
}

/// Writes the case class of one case of an enum version.
#[verifier::spinoff_prover]
fn scala_write_case_class(o: &ScalaOptions, out: &mut String, tps: &Vec<String>, v: &BigNat, f: &LangField) -> (r: Result<(), GeneratorError>)
    ensures
        match scala_type_text(*o, f.field_type@) {
            Err(e) => r matches Err(x) && x@ == e,
            Ok(t) => r is Ok && final(out)@ == old(out)@ + (tabs(2) + "final case class "@ + capitalized(f.name@) + scala_type_params_text(strings_view(tps@))
                + "("@ + uncapitalized(f.name@) + ": "@ + t + ") extends V"@ + decimal_text(v@) + scala_type_params_text(strings_view(tps@)) + "\n"@),
        },
{
    let ghost before = out@;
    write_indent(out, 2);
    append_str(out, "final case class ");
    let c = make_type_name(f.name.as_str());
    append_str(out, c.as_str());
    scala_write_type_params(out, tps);
    append_str(out, "(");
    let n = make_field_name(f.name.as_str());
    append_str(out, n.as_str());
    append_str(out, ": ");
    match scala_write_type(o, out, &f.field_type) {
        Ok(()) => {},
        Err(x) => return Err(x),
    }
    append_str(out, ") extends V");
    let d = v.to_decimal();
    append_str(out, d.as_str());
    scala_write_type_params(out, tps);
    append_str(out, "\n");
    let ghost t = ok_text(scala_type_text(*o, f.field_type@));
    assert(out@ =~= before + (tabs(2) + "final case class "@ + capitalized(f.name@) + scala_type_params_text(strings_view(tps@))
        + "("@ + uncapitalized(f.name@) + ": "@ + t + ") extends V"@ + decimal_text(v@) + scala_type_params_text(strings_view(tps@)) + "\n"@));
    Ok(())
}

/// Writes the case classes of the cases of an enum version.
#[verifier::spinoff_prover]
fn scala_write_case_classes(o: &ScalaOptions, out: &mut String, tps: &Vec<String>, v: &BigNat, fs: &Vec<LangField>) -> (r: Result<(), GeneratorError>)
    ensures
        wrote(r, old(out)@, final(out)@, scala_case_classes(*o, strings_view(tps@), v@, lang_fields_view(fs@), fs@.len())),
{
    let ghost fv = lang_fields_view(fs@);
    let ghost tv = strings_view(tps@);
    let ghost start = out@;
    let mut i: usize = 0;
    while i < fs.len()
        invariant
            i <= fs@.len(),
            fv == lang_fields_view(fs@),
            tv == strings_view(tps@),
            scala_case_classes(*o, tv, v@, fv, i as nat) is Ok,
            out@ == start + ok_text(scala_case_classes(*o, tv, v@, fv, i as nat)),
        decreases fs@.len() - i,
    {
        let ghost before = out@;
        match scala_write_case_class(o, out, tps, v, &fs[i]) {
            Ok(()) => {},
            Err(x) => {
                proof {
                    lemma_scala_cases_err(*o, tv, v@, fv, (i + 1) as nat, fv.len());
                }
                return Err(x);
            },
        }
        assert(out@ =~= start + ok_text(scala_case_classes(*o, tv, v@, fv, (i + 1) as nat)));
        i = i + 1;
    }
    Ok(())
}

/// Writes the opening of a version of the struct or enum `nm`.
#[verifier::spinoff_prover]
fn scala_write_version_header(o: &ScalaOptions, out: &mut String, nm: &str, tps: &Vec<String>, t: &LangType) -> (r: Result<(), GeneratorError>)
    ensures
        wrote(r, old(out)@, final(out)@, scala_version_header_text(*o, nm@, strings_view(tps@), t@)),
{
    reveal(scala_version_header_text);
    let ghost before = out@;
    let ghost tv = strings_view(tps@);
    match t {
        LangType::Versioned(kind, _, v, _, fields) => {
            let is_struct = match kind {
                VersionedTypeKind::Struct => true,
                VersionedTypeKind::Enum => false,
            };
            let fs = match fields.build() {
                Ok(fs) => fs,
                Err(e) => return Err(e),
            };
            let ghost fv = lang_fields_view(fs@);
            assert(fv.len() == fs@.len());
            let d = v.to_decimal();
            write_indent(out, 1);
            if is_struct {
                append_str(out, "final case class V");
                append_str(out, d.as_str());
                scala_write_type_params(out, tps);
                append_str(out, "(\n");
                let ghost h = tabs(1) + "final case class V"@ + decimal_text(v@) + scala_type_params_text(tv) + "(\n"@;
                assert(out@ =~= before + h);
                match scala_write_record_fields(o, out, &fs) {
                    Ok(()) => {},
                    Err(x) => return Err(x),
                }
                let ghost c = ok_text(scala_record_fields(*o, fv, fv.len()));
                assert(out@ =~= before + (h + c));
                write_indent(out, 1);
                append_str(out, ") extends ");
                append_str(out, nm);
                append_str(out, "\n");
                write_indent(out, 1);
                append_str(out, "object V");
                append_str(out, d.as_str());
                append_str(out, " {\n");
                assert(out@ =~= before + (h + c + tabs(1) + ") extends "@ + nm@ + "\n"@ + tabs(1) + "object V"@ + decimal_text(v@) + " {\n"@));
            } else {
                append_str(out, "sealed abstract class V");
                append_str(out, d.as_str());
                scala_write_type_params(out, tps);
                append_str(out, " extends ");
                append_str(out, nm);
                append_str(out, "\n");
                write_indent(out, 1);
                append_str(out, "object V");
                append_str(out, d.as_str());
                append_str(out, " {\n");
                let ghost h = tabs(1) + "sealed abstract class V"@ + decimal_text(v@) + scala_type_params_text(tv) + " extends "@ + nm@ + "\n"@
                    + tabs(1) + "object V"@ + decimal_text(v@) + " {\n"@;
                assert(out@ =~= before + h);
                match scala_write_case_classes(o, out, tps, v, &fs) {
                    Ok(()) => {},
                    Err(x) => return Err(x),
                }
                assert(out@ =~= before + (h + ok_text(scala_case_classes(*o, tv, v@, fv, fv.len()))));
            }
            Ok(())
        },
        _ => Err(GeneratorError::CouldNotGenerateType),
    }
}

/// One version of a struct or enum: its declaration, holding its
/// operations.
pub open spec fn scala_version_text(o: ScalaOptions, nm: Seq<char>, tps: Seq<Seq<char>>, t: LangTypeV, ops: Seq<OperationInfoV>) -> Result<Seq<char>, GeneratorErrorV> {
    match scala_version_header_text(o, nm, tps, t) {
        Err(e) => Err(e),
        Ok(h) => match scala_ops_text(o, 2, ops, ops.len()) {
            Err(e) => Err(e),
            Ok(os) => Ok(h + os + "}\n"@),
        },
    }
}

/// Writes one version of a struct or enum.
#[verifier::spinoff_prover]
fn scala_write_version(o: &ScalaOptions, out: &mut String, nm: &str, tps: &Vec<String>, v: &TypeVersionOutput) -> (r: Result<(), GeneratorError>)
    ensures
        wrote(r, old(out)@, final(out)@, scala_version_text(*o, nm@, strings_view(tps@), v.version_type@, ops_view(v.operations@))),
{
    let ghost before = out@;
    match scala_write_version_header(o, out, nm, tps, &v.version_type) {
        Ok(()) => {},
        Err(x) => return Err(x),
    }
    let ghost h = ok_text(scala_version_header_text(*o, nm@, strings_view(tps@), v.version_type@));
    match scala_write_ops(o, out, 2, &v.operations) {
        Ok(()) => {},
        Err(x) => return Err(x),
    }
    let ghost os = ok_text(scala_ops_text(*o, 2, ops_view(v.operations@), v.operations@.len()));
    append_str(out, "}\n");
    assert(out@ =~= before + (h + os + "}\n"@));
    Ok(())
}

/// The versions `outs[..n]` of a struct or enum.
pub open spec fn scala_versions_text(o: ScalaOptions, nm: Seq<char>, tps: Seq<Seq<char>>, outs: Seq<(LangTypeV, Seq<OperationInfoV>)>, n: nat) -> Result<Seq<char>, GeneratorErrorV>
    decreases n,
{
    if n == 0 || n > outs.len() {
        Ok(Seq::empty())
    } else {
        match scala_versions_text(o, nm, tps, outs, (n - 1) as nat) {
            Err(e) => Err(e),
            Ok(p) => match scala_version_text(o, nm, tps, outs[n - 1].0, outs[n - 1].1) {
                Err(e) => Err(e),
                Ok(t) => Ok(p + t),
            },
        }
    }
}

/// Once the versions before `k` fail, so do those before any later `n`.
proof fn lemma_scala_versions_err(o: ScalaOptions, nm: Seq<char>, tps: Seq<Seq<char>>, outs: Seq<(LangTypeV, Seq<OperationInfoV>)>, k: nat, n: nat)
    requires
        k <= n <= outs.len(),
        scala_versions_text(o, nm, tps, outs, k) is Err,
    ensures
        scala_versions_text(o, nm, tps, outs, n) == scala_versions_text(o, nm, tps, outs, k),
    decreases n,
{
    if n > k {
        lemma_scala_versions_err(o, nm, tps, outs, k, (n - 1) as nat);
    }
}

/// Writes the versions of a struct or enum.
#[verifier::spinoff_prover]
fn scala_write_versions<'a>(o: &ScalaOptions, out: &mut String, nm: &str, tps: &Vec<String>, outs: &Vec<TypeVersionOutput<'a>>) -> (r: Result<(), GeneratorError>)
    ensures
        wrote(r, old(out)@, final(out)@, scala_versions_text(*o, nm@, strings_view(tps@), outputs_view(outs@), outs@.len())),
{
    let ghost ov = outputs_view(outs@);
    let ghost tv = strings_view(tps@);
    let ghost start = out@;
    let mut i: usize = 0;
    while i < outs.len()
        invariant
            i <= outs@.len(),
            ov == outputs_view(outs@),
            ov.len() == outs@.len(),
            tv == strings_view(tps@),
            scala_versions_text(*o, nm@, tv, ov, i as nat) is Ok,
            out@ == start + ok_text(scala_versions_text(*o, nm@, tv, ov, i as nat)),
        decreases outs@.len() - i,
    {
        assert(ov[i as int] == (outs@[i as int].version_type@, ops_view(outs@[i as int].operations@)));
        let ghost done = scala_versions_text(*o, nm@, tv, ov, i as nat);
        match scala_write_version(o, out, nm, tps, &outs[i]) {
            Ok(()) => {},
            Err(x) => {
                proof {
                    lemma_scala_versions_err(*o, nm@, tv, ov, (i + 1) as nat, ov.len());
                }
                return Err(x);
            },
        }
        proof {
            lemma_add_assoc(start, ok_text(done), ok_text(scala_version_text(*o, nm@, tv, ov[i as int].0, ov[i as int].1)));
        }
        i = i + 1;
    }
    Ok(())
}

/// The Scala file of a struct or enum: its package, a sealed abstract class
/// and an object that holds the declarations of each version.
#[verifier::opaque]
pub open spec fn scala_type_file_text<'a>(o: ScalaOptions, td: Named<'a, VersionedTypeDefinitionData>) -> Result<Seq<char>, GeneratorErrorV> {
    match scala_package_clause(o, td.name.package@) {
        Err(e) => Err(e),
        Ok(pk) => match generate_type_spec(td.model, versioned_scope(td), td) {
            Err(e) => Err(e),
            Ok(outs) => {
                let c = capitalized(td.name.name@);
                match scala_versions_text(o, c, strings_view(td.value.type_params@), outs, outs.len()) {
                    Err(e) => Err(e),
                    Ok(vs) => Ok(pk + "sealed abstract class "@ + c + "\n"@ + "object "@ + c + " {\n"@ + vs + "}\n"@),
                }
            },
        },
    }
}

/// The Scala file of a struct or enum definition.
#[verifier::spinoff_prover]
pub fn scala_type_file<'a>(o: &ScalaOptions, td: Named<'a, VersionedTypeDefinitionData>) -> (r: Result<String, GeneratorError>)
    ensures
        text_result(r) == scala_type_file_text(*o, td),
{
    reveal(scala_type_file_text);
    let mut out = String::new();
    proof {
        assert(out@ == Seq::<char>::empty());
    }
    match scala_write_package(o, &mut out, &td.name.package) {
        Ok(()) => {},
        Err(x) => return Err(x),
    }
    let ghost pk = out@;
    let tg = TypeGenerator::new(td.share());
    let outs = match tg.generate() {
        Ok(os) => os,
        Err(x) => return Err(x),
    };
    proof {
        assert(outputs_view(outs@) =~= outs@.map_values(|o: TypeVersionOutput<'a>| crate::generator::version_output_view(o)));
    }
    let c = make_type_name(td.name.name.as_str());
    append_str(&mut out, "sealed abstract class ");
    append_str(&mut out, c.as_str());
    append_str(&mut out, "\n");
    append_str(&mut out, "object ");
    append_str(&mut out, c.as_str());
    append_str(&mut out, " {\n");
    let ghost head = pk + "sealed abstract class "@ + c@ + "\n"@ + "object "@ + c@ + " {\n"@;
    assert(out@ =~= head);
    match scala_write_versions(o, &mut out, c.as_str(), &td.value.type_params, &outs) {
        Ok(()) => {},
        Err(x) => return Err(x),
    }
    let ghost body = ok_text(scala_versions_text(*o, c@, strings_view(td.value.type_params@), outputs_view(outs@), outs@.len()));
    append_str(&mut out, "}\n");
    proof {
        lemma_add_assoc(head, body, "}\n"@);
        assert(out@ =~= pk + "sealed abstract class "@ + c@ + "\n"@ + "object "@ + c@ + " {\n"@ + body + "}\n"@);
    }
    Ok(out)
}

/// The members `outs[..n]` of a constant's object: one value for each
/// version.
pub open spec fn scala_const_members(o: ScalaOptions, outs: Seq<(Seq<char>, LangTypeV, crate::generator::LangExprV)>, n: nat) -> Result<Seq<char>, GeneratorErrorV>
    decreases n,
{
    if n == 0 || n > outs.len() {
        Ok(Seq::empty())
    } else {
        match scala_const_members(o, outs, (n - 1) as nat) {
            Err(e) => Err(e),
            Ok(p) => match scala_type_text(o, outs[n - 1].1) {
                Err(e) => Err(e),
                Ok(t) => match scala_expr_text(o, outs[n - 1].2) {
                    Err(e) => Err(e),
                    Ok(x) => Ok(p + tabs(1) + "val "@ + outs[n - 1].0 + ": "@ + t + " = "@ + x + "\n"@),
                },
            },
        }
    }
}

/// Once the members before `k` fail, so do those before any later `n`.
proof fn lemma_scala_members_err(o: ScalaOptions, outs: Seq<(Seq<char>, LangTypeV, crate::generator::LangExprV)>, k: nat, n: nat)
    requires
        k <= n <= outs.len(),
        scala_const_members(o, outs, k) is Err,
    ensures
        scala_const_members(o, outs, n) == scala_const_members(o, outs, k),
    decreases n,
{
    if n > k {
        lemma_scala_members_err(o, outs, k, (n - 1) as nat);
    }
}

/// The Scala file of a constant: its package and an object with a value for
/// each version.
#[verifier::opaque]
pub open spec fn scala_const_file_text<'a>(o: ScalaOptions, c: Named<'a, Constant>) -> Result<Seq<char>, GeneratorErrorV> {
    match scala_package_clause(o, c.name.package@) {
        Err(e) => Err(e),
        Ok(pk) => match generate_constant_spec(c.model, constant_scope(c), c) {
            Err(e) => Err(e),
            Ok(outs) => match scala_const_members(o, outs, outs.len()) {
                Err(e) => Err(e),
                Ok(ms) => {
                    let n = capitalized(c.name.name@);
                    Ok(pk + "object "@ + n + " {\n"@ + ms + "}\n"@)
                },
            },
        },
    }
}

/// Writes the members of a constant's object.
#[verifier::spinoff_prover]
fn scala_write_const_members<'a>(o: &ScalaOptions, out: &mut String, outs: &Vec<ConstantVersionOutput<'a>>) -> (r: Result<(), GeneratorError>)
    ensures
        wrote(r, old(out)@, final(out)@, scala_const_members(*o, outs@.map_values(|x: ConstantVersionOutput<'a>| crate::generator::constant_output_view(x)), outs@.len())),
{
    let ghost ov = outs@.map_values(|x: ConstantVersionOutput<'a>| crate::generator::constant_output_view(x));
    let ghost start = out@;
    let mut i: usize = 0;
    while i < outs.len()
        invariant
            i <= outs@.len(),
            ov == outs@.map_values(|x: ConstantVersionOutput<'a>| crate::generator::constant_output_view(x)),
            scala_const_members(*o, ov, i as nat) is Ok,
            out@ == start + ok_text(scala_const_members(*o, ov, i as nat)),
        decreases outs@.len() - i,
    {
        let ghost before = out@;
        write_indent(out, 1);
        append_str(out, "val ");
        append_str(out, outs[i].version_name.as_str());
        append_str(out, ": ");
        match scala_write_type(o, out, &outs[i].value_type) {
            Ok(()) => {},
            Err(x) => {
                proof {
                    lemma_scala_members_err(*o, ov, (i + 1) as nat, ov.len());
                }
                return Err(x);
            },
        }
        append_str(out, " = ");
        match scala_write_expr(o, out, &outs[i].value) {
            Ok(()) => {},
            Err(x) => {
                proof {
                    lemma_scala_members_err(*o, ov, (i + 1) as nat, ov.len());
                }
                return Err(x);
            },
        }
        append_str(out, "\n");
        let ghost m = tabs(1) + "val "@ + ov[i as int].0 + ": "@ + ok_text(scala_type_text(*o, ov[i as int].1))
            + " = "@ + ok_text(scala_expr_text(*o, ov[i as int].2)) + "\n"@;
        assert(out@ =~= before + m);
        proof {
            lemma_add_assoc(start, ok_text(scala_const_members(*o, ov, i as nat)), m);
        }
        i = i + 1;
    }
    Ok(())
}

/// The Scala file of a constant.
#[verifier::spinoff_prover]
pub fn scala_const_file<'a>(o: &ScalaOptions, c: Named<'a, Constant>) -> (r: Result<String, GeneratorError>)
    ensures
        text_result(r) == scala_const_file_text(*o, c),
{
    reveal(scala_const_file_text);
    let mut out = String::new();
    proof {
        assert(out@ == Seq::<char>::empty());
    }
    match scala_write_package(o, &mut out, &c.name.package) {
        Ok(()) => {},
        Err(x) => return Err(x),
    }
    let ghost pk = out@;
    let cg = ConstGenerator::new(c.share());
    assert(cg.gen.scope == constant_scope(c));
    let outs = match cg.generate() {
        Ok(os) => os,
        Err(x) => return Err(x),
    };
    let ghost ov = outs@.map_values(|x: ConstantVersionOutput<'a>| crate::generator::constant_output_view(x));
    let n = make_type_name(c.name.name.as_str());
    append_str(&mut out, "object ");
    append_str(&mut out, n.as_str());
    append_str(&mut out, " {\n");
    let ghost head = pk + "object "@ + n@ + " {\n"@;
    assert(out@ =~= head);
    match scala_write_const_members(o, &mut out, &outs) {
        Ok(()) => {},
        Err(x) => return Err(x),
    }
    let ghost ms = ok_text(scala_const_members(*o, ov, ov.len()));
    append_str(&mut out, "}\n");
    proof {
        lemma_add_assoc(head, ms, "}\n"@);
        assert(out@ =~= pk + "object "@ + n@ + " {\n"@ + ms + "}\n"@);
    }
    Ok(out)
}


/// The path of the Scala file of the type or constant `n`: the output
/// directory, the parts of its Scala package, then its name with `.scala`.
pub open spec fn scala_file_path(o: ScalaOptions, n: NameView) -> Result<Seq<Seq<char>>, GeneratorErrorV> {
    match scala_package_spec(o, n.0) {
        Err(e) => Err(e),
        Ok(parts) => Ok(seq![o.output_dir@] + parts + seq![n.1 + ".scala"@]),
    }
}

/// The path of the Scala file of the type or constant `name`, part by part.
#[verifier::spinoff_prover]
pub fn scala_file_path_exec(o: &ScalaOptions, name: &QualifiedName) -> (r: Result<Vec<String>, GeneratorError>)
    ensures
        match scala_file_path(*o, name@) {
            Ok(p) => r matches Ok(x) && strings_view(x@) == p,
            Err(e) => r matches Err(x) && x@ == e,
        },
{
    let sp = match scala_package(o, &name.package) {
        Ok(p) => p,
        Err(x) => return Err(x),
    };
    let mut path: Vec<String> = Vec::new();
    let mut dir = String::new();
    append_str(&mut dir, o.output_dir.as_str());
    path.push(dir);
    let ghost pv = strings_view(sp.package@);
    let mut i: usize = 0;
    while i < sp.package.len()
        invariant
            i <= sp.package@.len(),
            pv == strings_view(sp.package@),
            strings_view(path@) == seq![o.output_dir@] + pv.take(i as int),
        decreases sp.package@.len() - i,
    {
        let mut part = String::new();
        append_str(&mut part, sp.package[i].as_str());
        let ghost before = path@;
        let ghost partv = part@;
        path.push(part);
        assert(strings_view(path@) =~= strings_view(before).push(partv));
        assert(pv.take(i + 1) =~= pv.take(i as int).push(partv));
        assert(strings_view(path@) =~= seq![o.output_dir@] + pv.take(i + 1));
        i = i + 1;
    }
    let mut file = String::new();
    append_str(&mut file, name.name.as_str());
    append_str(&mut file, ".scala");
    let ghost before = path@;
    let ghost filev = file@;
    path.push(file);
    assert(strings_view(path@) =~= strings_view(before).push(filev));
    assert(pv.take(i as int) =~= pv);
    assert(strings_view(path@) =~= seq![o.output_dir@] + pv + seq![name@.1 + ".scala"@]);
    Ok(path)
}

/// A generated Scala file: its path, part by part, and its text.
pub struct ScalaFile {
    pub path: Vec<String>,
    pub contents: String,
}

/// The view of a generated file.
pub open spec fn scala_file_view(f: ScalaFile) -> (Seq<Seq<char>>, Seq<char>) {
    (strings_view(f.path@), f.contents@)
}

/// A file at the path of `n` with the text `text`, unless either fails.
pub open spec fn scala_file_entry(o: ScalaOptions, n: NameView, text: Result<Seq<char>, GeneratorErrorV>) -> Result<(Seq<Seq<char>>, Seq<char>), GeneratorErrorV> {
    match scala_file_path(o, n) {
        Err(e) => Err(e),
        Ok(p) => match text {
            Err(e) => Err(e),
            Ok(t) => Ok((p, t)),
        },
    }
}

/// The files of the first `n` constants of `model`.
pub open spec fn scala_const_files(o: ScalaOptions, model: &Verilization, n: nat) -> Result<Seq<(Seq<Seq<char>>, Seq<char>)>, GeneratorErrorV>
    decreases n,
{
    let es = model.constant_entries();
    if n == 0 || n > es.len() {
        Ok(Seq::empty())
    } else {
        match scala_const_files(o, model, (n - 1) as nat) {
            Err(e) => Err(e),
            Ok(p) => {
                let c = Named { model: model, name: &es[n - 1].0, value: &es[n - 1].1 };
                match scala_file_entry(o, es[n - 1].0@, scala_const_file_text(o, c)) {
                    Err(e) => Err(e),
                    Ok(f) => Ok(p.push(f)),
                }
            },
        }
    }
}

/// The files of the first `n` type definitions of `model`: one for each
/// struct or enum; an extern type has none.
pub open spec fn scala_type_files(o: ScalaOptions, model: &Verilization, n: nat) -> Result<Seq<(Seq<Seq<char>>, Seq<char>)>, GeneratorErrorV>
    decreases n,
{
    let es = model.type_entries();
    if n == 0 || n > es.len() {
        Ok(Seq::empty())
    } else {
        match scala_type_files(o, model, (n - 1) as nat) {
            Err(e) => Err(e),
            Ok(p) => match es[n - 1].1 {
                TypeDefinition::StructType(d) => match scala_file_entry(o, es[n - 1].0@,
                    scala_type_file_text(o, Named { model: model, name: &es[n - 1].0, value: &d })) {
                    Err(e) => Err(e),
                    Ok(f) => Ok(p.push(f)),
                },
                TypeDefinition::EnumType(d) => match scala_file_entry(o, es[n - 1].0@,
                    scala_type_file_text(o, Named { model: model, name: &es[n - 1].0, value: &d })) {
                    Err(e) => Err(e),
                    Ok(f) => Ok(p.push(f)),
                },
                TypeDefinition::ExternType(_) => Ok(p),
            },
        }
    }
}

/// The Scala files of a model: those of its constants, then those of its
/// types, each in the order of the model; the first error stops.
pub open spec fn scala_files(o: ScalaOptions, model: &Verilization) -> Result<Seq<(Seq<Seq<char>>, Seq<char>)>, GeneratorErrorV> {
    match scala_const_files(o, model, model.constant_entries().len()) {
        Err(e) => Err(e),
        Ok(cs) => match scala_type_files(o, model, model.type_entries().len()) {
            Err(e) => Err(e),
            Ok(ts) => Ok(cs + ts),
        },
    }
}

/// Once the constants before `k` fail, so do those before any later `n`.
proof fn lemma_scala_const_files_err(o: ScalaOptions, model: &Verilization, k: nat, n: nat)
    requires
        k <= n <= model.constant_entries().len(),
        scala_const_files(o, model, k) is Err,
    ensures
        scala_const_files(o, model, n) == scala_const_files(o, model, k),
    decreases n,
{
    if n > k {
        lemma_scala_const_files_err(o, model, k, (n - 1) as nat);
    }
}

/// Once the types before `k` fail, so do those before any later `n`.
proof fn lemma_scala_type_files_err(o: ScalaOptions, model: &Verilization, k: nat, n: nat)
    requires
        k <= n <= model.type_entries().len(),
        scala_type_files(o, model, k) is Err,
    ensures
        scala_type_files(o, model, n) == scala_type_files(o, model, k),
    decreases n,
{
    if n > k {
        lemma_scala_type_files_err(o, model, k, (n - 1) as nat);
    }
}

/// The views of generated files.
pub open spec fn scala_files_view(fs: Seq<ScalaFile>) -> Seq<(Seq<Seq<char>>, Seq<char>)> {
    fs.map_values(|f: ScalaFile| scala_file_view(f))
}

/// A generated file at the path of `name`, with `text`.
#[verifier::spinoff_prover]
fn scala_make_file(o: &ScalaOptions, name: &QualifiedName, text: Result<String, GeneratorError>) -> (r: Result<ScalaFile, GeneratorError>)
    ensures
        match scala_file_entry(*o, name@, text_result(text)) {
            Ok(f) => r matches Ok(x) && scala_file_view(x) == f,
            Err(e) => r matches Err(x) && x@ == e,
        },
{
    let path = match scala_file_path_exec(o, name) {
        Ok(p) => p,
        Err(x) => return Err(x),
    };
    match text {
        Ok(contents) => Ok(ScalaFile { path, contents }),
        Err(x) => Err(x),
    }
}

/// The files of the constants of a model.
#[verifier::spinoff_prover]
fn scala_constant_files(model: &Verilization, options: &ScalaOptions) -> (r: Result<Vec<ScalaFile>, GeneratorError>)
    ensures
        match scala_const_files(*options, model, model.constant_entries().len()) {
            Ok(fs) => r matches Ok(x) && scala_files_view(x@) == fs,
            Err(e) => r matches Err(x) && x@ == e,
        },
{
    let mut files: Vec<ScalaFile> = Vec::new();
    assert(scala_files_view(files@) =~= Seq::empty());
    let consts = model.constants();
    let ghost ces = model.constant_entries();
    let mut i: usize = 0;
    while i < consts.len()
        invariant
            i <= consts@.len(),
            consts@.len() == ces.len(),
            ces == model.constant_entries(),
            forall|k: int| 0 <= k < consts@.len() ==> *(#[trigger] consts@[k]).value == ces[k].1
                && *consts@[k].name == ces[k].0 && consts@[k].model == model,
            scala_const_files(*options, model, i as nat) == Ok::<Seq<(Seq<Seq<char>>, Seq<char>)>, GeneratorErrorV>(scala_files_view(files@)),
        decreases consts@.len() - i,
    {
        let c = consts[i].share();
        assert(c == Named { model: model, name: &ces[i as int].0, value: &ces[i as int].1 });
        let text = scala_const_file(options, c.share());
        match scala_make_file(options, c.name, text) {
            Ok(f) => {
                let ghost before = files@;
                let ghost fv = scala_file_view(f);
                files.push(f);
                assert(scala_files_view(files@) =~= scala_files_view(before).push(fv));
            },
            Err(x) => {
                proof {
                    lemma_scala_const_files_err(*options, model, (i + 1) as nat, ces.len());
                }
                return Err(x);
            },
        }
        i = i + 1;
    }
    Ok(files)
}

/// The file of one type definition, if it is a struct or an enum.
#[verifier::spinoff_prover]
fn scala_type_def_file(t: &NamedTypeDefinition, options: &ScalaOptions) -> (r: Option<Result<ScalaFile, GeneratorError>>)
    ensures
        match *t {
            NamedTypeDefinition::StructType(d) => r matches Some(x) && match scala_file_entry(*options, d.name@, scala_type_file_text(*options, d)) {
                Ok(f) => x matches Ok(y) && scala_file_view(y) == f,
                Err(e) => x matches Err(y) && y@ == e,
            },
            NamedTypeDefinition::EnumType(d) => r matches Some(x) && match scala_file_entry(*options, d.name@, scala_type_file_text(*options, d)) {
                Ok(f) => x matches Ok(y) && scala_file_view(y) == f,
                Err(e) => x matches Err(y) && y@ == e,
            },
            NamedTypeDefinition::ExternType(_) => r is None,
        },
{
    match t {
        NamedTypeDefinition::StructType(d) => {
            let text = scala_type_file(options, d.share());
            Some(scala_make_file(options, d.name, text))
        },
        NamedTypeDefinition::EnumType(d) => {
            let text = scala_type_file(options, d.share());
            Some(scala_make_file(options, d.name, text))
        },
        NamedTypeDefinition::ExternType(_) => None,
    }
}

/// The files of the structs and enums of a model.
#[verifier::spinoff_prover]
fn scala_type_def_files(model: &Verilization, options: &ScalaOptions) -> (r: Result<Vec<ScalaFile>, GeneratorError>)
    ensures
        match scala_type_files(*options, model, model.type_entries().len()) {
            Ok(fs) => r matches Ok(x) && scala_files_view(x@) == fs,
            Err(e) => r matches Err(x) && x@ == e,
        },
{
    let types = model.types();
    let ghost tes = model.type_entries();
    let mut files: Vec<ScalaFile> = Vec::new();
    assert(scala_files_view(files@) =~= Seq::empty());
    let mut j: usize = 0;
    while j < types.len()
        invariant
            j <= types@.len(),
            types@.len() == tes.len(),
            tes == model.type_entries(),
            forall|k: int| 0 <= k < types@.len() ==> (#[trigger] types@[k]).definition() == tes[k].1
                && types@[k].is_in(model, tes[k].0),
            scala_type_files(*options, model, j as nat) == Ok::<Seq<(Seq<Seq<char>>, Seq<char>)>, GeneratorErrorV>(scala_files_view(files@)),
        decreases types@.len() - j,
    {
        let made = scala_type_def_file(&types[j], options);
        proof {
            match types@[j as int] {
                NamedTypeDefinition::StructType(d) => {
                    assert(d == Named { model: model, name: &tes[j as int].0, value: &(tes[j as int].1->StructType_0) });
                },
                NamedTypeDefinition::EnumType(d) => {
                    assert(d == Named { model: model, name: &tes[j as int].0, value: &(tes[j as int].1->EnumType_0) });
                },
                NamedTypeDefinition::ExternType(_) => {},
            }
        }
        match made {
            Some(Ok(f)) => {
                let ghost before = files@;
                let ghost fv = scala_file_view(f);
                files.push(f);
                assert(scala_files_view(files@) =~= scala_files_view(before).push(fv));
            },
            Some(Err(x)) => {
                proof {
                    lemma_scala_type_files_err(*options, model, (j + 1) as nat, tes.len());
                }
                return Err(x);
            },
            None => {},
        }
        j = j + 1;
    }
    Ok(files)
}

impl Language for ScalaLanguage {
    type Options = ScalaOptions;
    type File = ScalaFile;

    open spec fn language_name() -> Seq<char> {
        "scala"@
    }

    open spec fn generates(model: &Verilization, options: ScalaOptions, r: Result<Vec<ScalaFile>, GeneratorError>) -> bool {
        match scala_files(options, model) {
            Ok(fs) => r matches Ok(x) && scala_files_view(x@) == fs,
            Err(e) => r matches Err(x) && x@ == e,
        }
    }

    open spec fn file_view(file: ScalaFile) -> (Seq<Seq<char>>, Seq<char>) {
        scala_file_view(file)
    }

    fn name() -> (r: &'static str) {
        "scala"
    }

    /// The Scala files of a model: for each constant, then for each struct
    /// or enum, the path of its file and its text.
    fn generate(model: &Verilization, options: &ScalaOptions) -> (r: Result<Vec<ScalaFile>, GeneratorError>) {
        let mut files = match scala_constant_files(model, options) {
            Ok(fs) => fs,
            Err(x) => return Err(x),
        };
        let mut tfiles = match scala_type_def_files(model, options) {
            Ok(fs) => fs,
            Err(x) => return Err(x),
        };
        let ghost cs = scala_files_view(files@);
        let ghost ts = scala_files_view(tfiles@);
        files.append(&mut tfiles);
        assert(scala_files_view(files@) =~= cs + ts);
        Ok(files)
    }

    fn file_parts(file: ScalaFile) -> (r: (Vec<String>, String)) {
        (file.path, file.contents)
    }
}


/// The case class of a struct version has one line per field, in order:
/// that field's own name and the text of its own type.
pub proof fn lemma_scala_record_fields_each(o: ScalaOptions, xs: Seq<(Seq<char>, LangTypeV)>, ts: Seq<Seq<char>>, n: nat)
    requires
        n <= xs.len(),
        ts.len() == n,
        forall|i: int| 0 <= i < n ==> scala_type_text(o, #[trigger] xs[i].1) == Ok::<Seq<char>, GeneratorErrorV>(ts[i]),
    ensures
        scala_record_fields(o, xs, n) == Ok::<Seq<char>, GeneratorErrorV>(joined_with(Seq::new(n, |i: int| tabs(2) + uncapitalized(xs[i].0) + ": "@ + ts[i] + ",\n"@), Seq::empty())),
    decreases n,
{
    if n > 0 {
        let m = (n - 1) as nat;
        assert(scala_type_text(o, xs[m as int].1) == Ok::<Seq<char>, GeneratorErrorV>(ts[m as int]));
        lemma_scala_record_fields_each(o, xs, ts.drop_last(), m);
        let ys = Seq::new(n, |i: int| tabs(2) + uncapitalized(xs[i].0) + ": "@ + ts[i] + ",\n"@);
        assert(ys.drop_last() =~= Seq::new(m, |i: int| tabs(2) + uncapitalized(xs[i].0) + ": "@ + ts.drop_last()[i] + ",\n"@));
        let r = scala_record_fields(o, xs, n);
        assert(r is Ok);
        if n == 1 {
            assert(r->Ok_0 =~= ys[0]);
        } else {
            assert(r->Ok_0 =~= joined_with(ys, Seq::empty()));
        }
    }
}

} // verus!
