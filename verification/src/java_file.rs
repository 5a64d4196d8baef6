//! The Java source files of a model: one class for each constant and one
//! for each struct or enum, holding a record (for a struct) or a sealed
//! interface of case records (for an enum) for each of its versions.
use vstd::prelude::*;
use crate::text::{append_str, joined_with};
use crate::names::strings_view;
use crate::model::{Named, NamedTypeDefinition, TypeDefinition, Verilization, VersionedTypeDefinitionData, Constant, NameView};
use crate::names::QualifiedName;
use crate::lang::{JavaLanguage, VersionedTypeKind};
use crate::lang::Language;
use crate::names::PackageName;
use crate::scope::Scope;
use crate::bignum::{BigNat, decimal_text};
use crate::util::{capitalized, uncapitalized};
use crate::lang::{make_type_name, make_field_name};
use crate::generator::{
    GeneratorError, GeneratorErrorV, LangType, LangTypeV, LangExprStmt, LangExprStmtV, OperationInfo, OperationInfoV,
    type_args_view, lemma_type_args_view, TypeGenerator, ConstGenerator, TypeVersionOutput, ConstantVersionOutput,
    generate_type_spec, generate_constant_spec, type_versions_upto, versioned_scope, LangField, fields_spec, lang_fields_view,
};
use crate::java::{
    JavaOptions, java_package_spec, runtime_package, runtime_package_name, wrote, ok_text, tabs, deeper, deeper_exec, write_indent, type_text,
    write_type, stmt_text, write_statement, expr_text, write_expr, operation_name_text, write_operation_name, lemma_add_assoc,
};

verus! {

/// How an operation is carried out, as Java text: an expression, or an
/// anonymous codec or converter class. Unless `is_expr`, it is returned
/// from a method body at indentation `ind`.
pub open spec fn impl_text(o: JavaOptions, ind: nat, s: LangExprStmtV, is_expr: bool) -> Result<Seq<char>, GeneratorErrorV> {
    let head = if is_expr { Seq::<char>::empty() } else { tabs(ind) + "return "@ };
    let i1 = deeper(ind);
    let i2 = deeper(i1);
    match s {
        LangExprStmtV::Expr(e) => match expr_text(o, e) {
            Err(e) => Err(e),
            Ok(x) => Ok(head + x + ";\n"@),
        },
        LangExprStmtV::CreateCodec(t, read, write) => match type_text(o, t, true) {
            Err(e) => Err(e),
            Ok(tt) => match stmt_text(o, i2, read, false) {
                Err(e) => Err(e),
                Ok(r) => match stmt_text(o, i2, write, false) {
                    Err(e) => Err(e),
                    Ok(w) => Ok(head + "new "@ + runtime_package() + ".Codec<"@ + tt + ">() {\n"@
                        + tabs(i1) + "@Override\n"@
                        + tabs(i1) + "public "@ + tt + " read("@ + runtime_package()
                        + ".FormatReader reader) throws java.io.IOException {\n"@
                        + r + tabs(i1) + "}\n"@
                        + tabs(i1) + "@Override\n"@
                        + tabs(i1) + "public void write("@ + runtime_package() + ".FormatWriter writer, "@ + tt
                        + " value) throws java.io.IOException {\n"@
                        + w + tabs(i1) + "}\n"@
                        + tabs(ind) + "};\n"@),
                },
            },
        },
        LangExprStmtV::CreateConverter(from, to, body) => match type_text(o, from, true) {
            Err(e) => Err(e),
            Ok(ft) => match type_text(o, to, true) {
                Err(e) => Err(e),
                Ok(tt) => match stmt_text(o, i2, body, false) {
                    Err(e) => Err(e),
                    Ok(b) => Ok(head + "new "@ + runtime_package() + ".Converter<"@ + ft + ", "@ + tt + ">() {\n"@
                        + tabs(i1) + "@Override\n"@
                        + tabs(i1) + "public "@ + tt + " convert("@ + ft + " prev) {\n"@
                        + b + tabs(i1) + "}\n"@
                        + tabs(ind) + "};\n"@),
                },
            },
        },
    }
}

/// Writes how an operation is carried out.
#[verifier::spinoff_prover]
pub fn write_impl(o: &JavaOptions, out: &mut String, ind: usize, s: &LangExprStmt, is_expr: bool) -> (r: Result<(), GeneratorError>)
    ensures
        wrote(r, old(out)@, final(out)@, impl_text(*o, ind as nat, s@, is_expr)),
{
    broadcast use lemma_add_assoc;
    let ghost before = out@;
    if !is_expr {
        write_indent(out, ind);
        append_str(out, "return ");
    }
    let ghost head = if is_expr { Seq::<char>::empty() } else { tabs(ind as nat) + "return "@ };
    assert(out@ == before + head);
    let i1 = deeper_exec(ind);
    let i2 = deeper_exec(i1);
    match s {
        LangExprStmt::Expr(e) => {
            match write_expr(o, out, e) {
                Ok(()) => {},
                Err(x) => return Err(x),
            }
            append_str(out, ";\n");
            assert(out@ == before + (head + ok_text(expr_text(*o, e@)) + ";\n"@));
            Ok(())
        },
        LangExprStmt::CreateCodec { t, read, write } => {
            append_str(out, "new ");
            append_str(out, runtime_package_name());
            append_str(out, ".Codec<");
            match write_type(o, out, t, true) {
                Ok(()) => {},
                Err(x) => return Err(x),
            }
            let ghost tt = ok_text(type_text(*o, t@, true));
            append_str(out, ">() {\n");
            write_indent(out, i1);
            append_str(out, "@Override\n");
            write_indent(out, i1);
            append_str(out, "public ");
            let ghost p1 = head + "new "@ + runtime_package() + ".Codec<"@ + tt + ">() {\n"@ + tabs(i1 as nat) + "@Override\n"@
                + tabs(i1 as nat) + "public "@;
            assert(out@ == before + p1);
            match write_type(o, out, t, true) {
                Ok(()) => {},
                Err(x) => {
                    assert(false);
                    return Err(x);
                },
            }
            append_str(out, " read(");
            append_str(out, runtime_package_name());
            append_str(out, ".FormatReader reader) throws java.io.IOException {\n");
            let ghost p2 = p1 + tt + " read("@ + runtime_package() + ".FormatReader reader) throws java.io.IOException {\n"@;
            assert(out@ == before + p2);
            match write_statement(o, out, i2, read, false) {
                Ok(()) => {},
                Err(x) => return Err(x),
            }
            let ghost rt = ok_text(stmt_text(*o, i2 as nat, (**read)@, false));
            write_indent(out, i1);
            append_str(out, "}\n");
            write_indent(out, i1);
            append_str(out, "@Override\n");
            write_indent(out, i1);
            append_str(out, "public void write(");
            append_str(out, runtime_package_name());
            append_str(out, ".FormatWriter writer, ");
            let ghost p3 = p2 + rt + tabs(i1 as nat) + "}\n"@ + tabs(i1 as nat) + "@Override\n"@ + tabs(i1 as nat) + "public void write("@
                + runtime_package() + ".FormatWriter writer, "@;
            assert(out@ == before + p3);
            match write_type(o, out, t, true) {
                Ok(()) => {},
                Err(x) => {
                    assert(false);
                    return Err(x);
                },
            }
            append_str(out, " value) throws java.io.IOException {\n");
            let ghost p4 = p3 + tt + " value) throws java.io.IOException {\n"@;
            assert(out@ == before + p4);
            match write_statement(o, out, i2, write, false) {
                Ok(()) => {},
                Err(x) => return Err(x),
            }
            let ghost wt = ok_text(stmt_text(*o, i2 as nat, (**write)@, false));
            write_indent(out, i1);
            append_str(out, "}\n");
            write_indent(out, ind);
            append_str(out, "};\n");
            assert(out@ == before + (p4 + wt + tabs(i1 as nat) + "}\n"@ + tabs(ind as nat) + "};\n"@));
            Ok(())
        },
        LangExprStmt::CreateConverter { from_type, to_type, body } => {
            append_str(out, "new ");
            append_str(out, runtime_package_name());
            append_str(out, ".Converter<");
            match write_type(o, out, from_type, true) {
                Ok(()) => {},
                Err(x) => return Err(x),
            }
            let ghost ft = ok_text(type_text(*o, from_type@, true));
            append_str(out, ", ");
            let ghost p1 = head + "new "@ + runtime_package() + ".Converter<"@ + ft + ", "@;
            assert(out@ == before + p1);
            match write_type(o, out, to_type, true) {
                Ok(()) => {},
                Err(x) => return Err(x),
            }
            let ghost tt = ok_text(type_text(*o, to_type@, true));
            append_str(out, ">() {\n");
            write_indent(out, i1);
            append_str(out, "@Override\n");
            write_indent(out, i1);
            append_str(out, "public ");
            let ghost p2 = p1 + tt + ">() {\n"@ + tabs(i1 as nat) + "@Override\n"@ + tabs(i1 as nat) + "public "@;
            assert(out@ == before + p2);
            match write_type(o, out, to_type, true) {
                Ok(()) => {},
                Err(x) => {
                    assert(false);
                    return Err(x);
                },
            }
            append_str(out, " convert(");
            let ghost p3 = p2 + tt + " convert("@;
            assert(out@ == before + p3);
            match write_type(o, out, from_type, true) {
                Ok(()) => {},
                Err(x) => {
                    assert(false);
                    return Err(x);
                },
            }
            append_str(out, " prev) {\n");
            let ghost p4 = p3 + ft + " prev) {\n"@;
            assert(out@ == before + p4);
            match write_statement(o, out, i2, body, false) {
                Ok(()) => {},
                Err(x) => return Err(x),
            }
            let ghost bt = ok_text(stmt_text(*o, i2 as nat, (**body)@, false));
            write_indent(out, i1);
            append_str(out, "}\n");
            write_indent(out, ind);
            append_str(out, "};\n");
            assert(out@ == before + (p4 + bt + tabs(i1 as nat) + "}\n"@ + tabs(ind as nat) + "};\n"@));
            Ok(())
        },
    }
}


/// The names in `ps[..n]`, separated by commas.
pub open spec fn names_joined(ps: Seq<Seq<char>>, n: nat) -> Seq<char>
    decreases n,
{
    if n == 0 || n > ps.len() {
        Seq::empty()
    } else if n == 1 {
        ps[0]
    } else {
        names_joined(ps, (n - 1) as nat) + ", "@ + ps[n - 1]
    }
}

/// Type parameters in angle brackets; nothing when there are none.
pub open spec fn type_params_text(ps: Seq<Seq<char>>) -> Seq<char> {
    if ps.len() == 0 {
        Seq::empty()
    } else {
        "<"@ + names_joined(ps, ps.len()) + ">"@
    }
}

/// Writes the names of `ps`, separated by commas.
#[verifier::spinoff_prover]
pub(crate) fn write_names(out: &mut String, ps: &Vec<String>)
    ensures
        final(out)@ == old(out)@ + names_joined(strings_view(ps@), ps@.len()),
{
    broadcast use lemma_add_assoc;
    let ghost pv = strings_view(ps@);
    let mut i: usize = 0;
    while i < ps.len()
        invariant
            i <= ps@.len(),
            pv == strings_view(ps@),
            out@ == old(out)@ + names_joined(pv, i as nat),
        decreases ps@.len() - i,
    {
        if i > 0 {
            append_str(out, ", ");
        }
        append_str(out, ps[i].as_str());
        i = i + 1;
    }
}

/// Writes type parameters in angle brackets, if there are any.
#[verifier::spinoff_prover]
pub fn write_type_params(out: &mut String, ps: &Vec<String>)
    ensures
        final(out)@ == old(out)@ + type_params_text(strings_view(ps@)),
{
    broadcast use lemma_add_assoc;
    if ps.len() > 0 {
        append_str(out, "<");
        write_names(out, ps);
        append_str(out, ">");
    } else {
        assert(out@ == old(out)@ + type_params_text(strings_view(ps@)));
    }
}

/// The parameters `ps[..n]` of a method, each with its erased type,
/// separated by commas.
pub open spec fn params_text(o: JavaOptions, ps: Seq<(Seq<char>, LangTypeV)>, n: nat) -> Result<Seq<char>, GeneratorErrorV>
    decreases n,
{
    if n == 0 || n > ps.len() {
        Ok(Seq::empty())
    } else {
        match params_text(o, ps, (n - 1) as nat) {
            Err(e) => Err(e),
            Ok(p) => match type_text(o, ps[n - 1].1, true) {
                Err(e) => Err(e),
                Ok(t) => Ok(p + (if n == 1 { Seq::empty() } else { ", "@ }) + t + " "@ + ps[n - 1].0),
            },
        }
    }
}

/// Once the parameters before `k` fail, so do those before any later `n`.
proof fn lemma_params_err(o: JavaOptions, ps: Seq<(Seq<char>, LangTypeV)>, k: nat, n: nat)
    requires
        k <= n <= ps.len(),
        params_text(o, ps, k) is Err,
    ensures
        params_text(o, ps, n) == params_text(o, ps, k),
    decreases n,
{
    if n > k {
        lemma_params_err(o, ps, k, (n - 1) as nat);
    }
}

/// Writes the parameters of a method.
#[verifier::spinoff_prover]
fn write_params(o: &JavaOptions, out: &mut String, ps: &Vec<(String, LangType)>) -> (r: Result<(), GeneratorError>)
    ensures
        wrote(r, old(out)@, final(out)@, params_text(*o, type_args_view(ps@), ps@.len())),
{
    broadcast use lemma_add_assoc;
    let ghost pv = type_args_view(ps@);
    proof {
        lemma_type_args_view(ps@);
    }
    let ghost start = out@;
    let mut i: usize = 0;
    while i < ps.len()
        invariant
            i <= ps@.len(),
            pv == type_args_view(ps@),
            forall|j: int| 0 <= j < ps@.len() ==> #[trigger] pv[j] == (ps@[j].0@, ps@[j].1@),
            pv.len() == ps@.len(),
            params_text(*o, pv, i as nat) is Ok,
            out@ == start + ok_text(params_text(*o, pv, i as nat)),
        decreases ps@.len() - i,
    {
        if i > 0 {
            append_str(out, ", ");
        }
        match write_type(o, out, &ps[i].1, true) {
            Ok(()) => {},
            Err(x) => {
                proof {
                    lemma_params_err(*o, pv, (i + 1) as nat, pv.len());
                }
                return Err(x);
            },
        }
        append_str(out, " ");
        append_str(out, ps[i].0.as_str());
        i = i + 1;
    }
    Ok(())
}

/// Whether an operation is a method: it has type parameters or parameters.
/// Otherwise it is a constant field.
pub open spec fn is_func(op: OperationInfoV) -> bool {
    op.type_params.len() > 0 || op.params.len() > 0
}

/// An operation as a static member at indentation `ind`: a method where it
/// takes type parameters or parameters, else a final field.
pub open spec fn operation_text(o: JavaOptions, ind: nat, op: OperationInfoV) -> Result<Seq<char>, GeneratorErrorV> {
    let f = is_func(op);
    let head = tabs(ind) + "public static "@ + (if f { Seq::empty() } else { "final "@ }) + type_params_text(op.type_params)
        + (if op.type_params.len() > 0 { " "@ } else { Seq::empty() });
    match type_text(o, op.result, false) {
        Err(e) => Err(e),
        Ok(rt) => {
            let named = head + rt + " "@ + operation_name_text(op.operation);
            if f {
                match params_text(o, op.params, op.params.len()) {
                    Err(e) => Err(e),
                    Ok(ps) => match impl_text(o, deeper(ind), op.implementation, false) {
                        Err(e) => Err(e),
                        Ok(b) => Ok(named + "("@ + ps + ") {\n"@ + b + tabs(ind) + "}\n"@),
                    },
                }
            } else {
                match impl_text(o, ind, op.implementation, true) {
                    Err(e) => Err(e),
                    Ok(b) => Ok(named + " = "@ + b),
                }
            }
        },
    }
}

/// Writes an operation as a static member.
#[verifier::spinoff_prover]
pub fn write_operation(o: &JavaOptions, out: &mut String, ind: usize, op: &OperationInfo) -> (r: Result<(), GeneratorError>)
    ensures
        wrote(r, old(out)@, final(out)@, operation_text(*o, ind as nat, op@)),
{
    broadcast use lemma_add_assoc;
    let ghost before = out@;
    proof {
        lemma_type_args_view(op.params@);
    }
    let f = op.type_params.len() > 0 || op.params.len() > 0;
    assert(op@.type_params.len() == op.type_params@.len());
    assert(op@.params.len() == op.params@.len());
    write_indent(out, ind);
    append_str(out, "public static ");
    if !f {
        append_str(out, "final ");
    }
    write_type_params(out, &op.type_params);
    if op.type_params.len() > 0 {
        append_str(out, " ");
    }
    let ghost head = tabs(ind as nat) + "public static "@ + (if f { Seq::<char>::empty() } else { "final "@ })
        + type_params_text(op@.type_params) + (if op@.type_params.len() > 0 { " "@ } else { Seq::<char>::empty() });
    assert(out@ == before + head);
    match write_type(o, out, &op.result, false) {
        Ok(()) => {},
        Err(x) => return Err(x),
    }
    append_str(out, " ");
    write_operation_name(out, &op.operation);
    let ghost named = head + ok_text(type_text(*o, op@.result, false)) + " "@ + operation_name_text(op@.operation);
    assert(out@ == before + named);
    if f {
        append_str(out, "(");
        match write_params(o, out, &op.params) {
            Ok(()) => {},
            Err(x) => return Err(x),
        }
        append_str(out, ") {\n");
        let ghost p = named + "("@ + ok_text(params_text(*o, op@.params, op@.params.len())) + ") {\n"@;
        assert(out@ == before + p);
        let inner = deeper_exec(ind);
        match write_impl(o, out, inner, &op.implementation, false) {
            Ok(()) => {},
            Err(x) => return Err(x),
        }
        write_indent(out, ind);
        append_str(out, "}\n");
        assert(out@ == before + (p + ok_text(impl_text(*o, deeper(ind as nat), op@.implementation, false)) + tabs(ind as nat) + "}\n"@));
    } else {
        append_str(out, " = ");
        match write_impl(o, out, ind, &op.implementation, true) {
            Ok(()) => {},
            Err(x) => return Err(x),
        }
        assert(out@ == before + (named + " = "@ + ok_text(impl_text(*o, ind as nat, op@.implementation, true))));
    }
    Ok(())
}


/// The operations `ops[..n]` as static members at indentation `ind`.
pub open spec fn ops_text(o: JavaOptions, ind: nat, ops: Seq<OperationInfoV>, n: nat) -> Result<Seq<char>, GeneratorErrorV>
    decreases n,
{
    if n == 0 || n > ops.len() {
        Ok(Seq::empty())
    } else {
        match ops_text(o, ind, ops, (n - 1) as nat) {
            Err(e) => Err(e),
            Ok(p) => match operation_text(o, ind, ops[n - 1]) {
                Err(e) => Err(e),
                Ok(t) => Ok(p + t),
            },
        }
    }
}

/// Once the operations before `k` fail, so do those before any later `n`.
proof fn lemma_ops_err(o: JavaOptions, ind: nat, ops: Seq<OperationInfoV>, k: nat, n: nat)
    requires
        k <= n <= ops.len(),
        ops_text(o, ind, ops, k) is Err,
    ensures
        ops_text(o, ind, ops, n) == ops_text(o, ind, ops, k),
    decreases n,
{
    if n > k {
        lemma_ops_err(o, ind, ops, k, (n - 1) as nat);
    }
}

/// The views of a list of operations.
pub open spec fn ops_view<'a>(ops: Seq<OperationInfo<'a>>) -> Seq<OperationInfoV<'a>> {
    ops.map_values(|x: OperationInfo<'a>| x@)
}

/// Writes operations as static members.
#[verifier::spinoff_prover]
fn write_ops(o: &JavaOptions, out: &mut String, ind: usize, ops: &Vec<OperationInfo>) -> (r: Result<(), GeneratorError>)
    ensures
        wrote(r, old(out)@, final(out)@, ops_text(*o, ind as nat, ops_view(ops@), ops@.len())),
{
    let ghost ov = ops_view(ops@);
    let ghost start = out@;
    let mut i: usize = 0;
    while i < ops.len()
        invariant
            i <= ops@.len(),
            ov == ops_view(ops@),
            ops_text(*o, ind as nat, ov, i as nat) is Ok,
            out@ == start + ok_text(ops_text(*o, ind as nat, ov, i as nat)),
        decreases ops@.len() - i,
    {
        match write_operation(o, out, ind, &ops[i]) {
            Ok(()) => {},
            Err(x) => {
                proof {
                    lemma_ops_err(*o, ind as nat, ov, (i + 1) as nat, ov.len());
                }
                return Err(x);
            },
        }
        proof {
            lemma_add_assoc(start, ok_text(ops_text(*o, ind as nat, ov, i as nat)), ok_text(operation_text(*o, ind as nat, ov[i as int])));
        }
        i = i + 1;
    }
    Ok(())
}

/// The parts of a package name joined by dots.
pub open spec fn dot_joined(ps: Seq<Seq<char>>, n: nat) -> Seq<char>
    decreases n,
{
    if n == 0 || n > ps.len() {
        Seq::empty()
    } else if n == 1 {
        ps[0]
    } else {
        dot_joined(ps, (n - 1) as nat) + "."@ + ps[n - 1]
    }
}

/// The package declaration of a file for the package `pkg`: none where its
/// Java package is the default one.
pub open spec fn package_text(o: JavaOptions, pkg: Seq<Seq<char>>) -> Result<Seq<char>, GeneratorErrorV> {
    match java_package_spec(o, pkg) {
        Err(e) => Err(e),
        Ok(parts) => Ok(if parts.len() == 0 { Seq::empty() } else { "package "@ + dot_joined(parts, parts.len()) + ";\n"@ }),
    }
}

/// Writes the package declaration of a file for the package `pkg`.
#[verifier::spinoff_prover]
fn write_package(o: &JavaOptions, out: &mut String, pkg: &PackageName) -> (r: Result<(), GeneratorError>)
    ensures
        wrote(r, old(out)@, final(out)@, package_text(*o, pkg@)),
{
    broadcast use lemma_add_assoc;
    let jp = match o.java_package(pkg) {
        Ok(p) => p,
        Err(x) => return Err(x),
    };
    let parts = &jp.package;
    let ghost pv = strings_view(parts@);
    if parts.len() == 0 {
        return Ok(());
    }
    append_str(out, "package ");
    let ghost start = out@;
    let mut i: usize = 0;
    while i < parts.len()
        invariant
            i <= parts@.len(),
            pv == strings_view(parts@),
            out@ == start + dot_joined(pv, i as nat),
        decreases parts@.len() - i,
    {
        if i > 0 {
            append_str(out, ".");
        }
        append_str(out, parts[i].as_str());
        i = i + 1;
    }
    append_str(out, ";\n");
    Ok(())
}

/// The views of the outputs of each version.
pub open spec fn outputs_view<'a>(os: Seq<TypeVersionOutput<'a>>) -> Seq<(LangTypeV<'a>, Seq<OperationInfoV<'a>>)> {
    os.map_values(|x: TypeVersionOutput<'a>| (x.version_type@, x.operations@.map_values(|y: OperationInfo<'a>| y@)))
}

/// What the versions of a type give, when they give it, has one entry
/// for each version.
pub(crate) proof fn lemma_type_versions_len<'a>(
    model: &'a crate::model::Verilization,
    scope: Scope<'a>,
    td: Named<'a, VersionedTypeDefinitionData>,
    vl: Seq<nat>,
    n: nat,
)
    requires
        n <= vl.len(),
        type_versions_upto(model, scope, td, vl, n) is Ok,
    ensures
        type_versions_upto(model, scope, td, vl, n)->Ok_0.len() == n,
    decreases n,
{
    if n > 0 {
        lemma_type_versions_len(model, scope, td, vl, (n - 1) as nat);
    }
}

/// A result of a string, by its view.
pub open spec fn text_result(r: Result<String, GeneratorError>) -> Result<Seq<char>, GeneratorErrorV> {
    match r {
        Ok(s) => Ok(s@),
        Err(e) => Err(e@),
    }
}

/// The components of a struct version's record for the fields `fs[..n]`:
/// each field's type and name, separated by commas.
pub open spec fn record_components(o: JavaOptions, fs: Seq<(Seq<char>, LangTypeV)>, n: nat) -> Result<Seq<char>, GeneratorErrorV>
    decreases n,
{
    if n == 0 || n > fs.len() {
        Ok(Seq::empty())
    } else {
        match record_components(o, fs, (n - 1) as nat) {
            Err(e) => Err(e),
            Ok(p) => match type_text(o, fs[n - 1].1, false) {
                Err(e) => Err(e),
                Ok(t) => Ok(p + (if n == 1 { Seq::empty() } else { ","@ }) + t + " "@ + uncapitalized(fs[n - 1].0)),
            },
        }
    }
}

/// The records of the cases `fs[..n]` of an enum version `v`, each
/// implementing the version's interface.
pub open spec fn case_records(o: JavaOptions, tps: Seq<Seq<char>>, v: nat, fs: Seq<(Seq<char>, LangTypeV)>, n: nat) -> Result<Seq<char>, GeneratorErrorV>
    decreases n,
{
    if n == 0 || n > fs.len() {
        Ok(Seq::empty())
    } else {
        match case_records(o, tps, v, fs, (n - 1) as nat) {
            Err(e) => Err(e),
            Ok(p) => match type_text(o, fs[n - 1].1, false) {
                Err(e) => Err(e),
                Ok(t) => Ok(p + tabs(2) + "public static record "@ + capitalized(fs[n - 1].0) + type_params_text(tps) + "("@ + t + " "@
                    + uncapitalized(fs[n - 1].0) + ") implements V"@ + decimal_text(v) + type_params_text(tps) + " {}\n"@),
            },
        }
    }
}

/// Once the components before `k` fail, so do those before any later `n`.
proof fn lemma_record_components_err(o: JavaOptions, fs: Seq<(Seq<char>, LangTypeV)>, k: nat, n: nat)
    requires
        k <= n <= fs.len(),
        record_components(o, fs, k) is Err,
    ensures
        record_components(o, fs, n) == record_components(o, fs, k),
    decreases n,
{
    if n > k {
        lemma_record_components_err(o, fs, k, (n - 1) as nat);
    }
}

/// Once the records before `k` fail, so do those before any later `n`.
proof fn lemma_case_records_err(o: JavaOptions, tps: Seq<Seq<char>>, v: nat, fs: Seq<(Seq<char>, LangTypeV)>, k: nat, n: nat)
    requires
        k <= n <= fs.len(),
        case_records(o, tps, v, fs, k) is Err,
    ensures
        case_records(o, tps, v, fs, n) == case_records(o, tps, v, fs, k),
    decreases n,
{
    if n > k {
        lemma_case_records_err(o, tps, v, fs, k, (n - 1) as nat);
    }
}

/// The opening of the declaration of a version of a struct (a record of its
/// fields) or an enum (a sealed interface with a record for each case).
#[verifier::opaque]
pub open spec fn version_header_text(o: JavaOptions, tps: Seq<Seq<char>>, t: LangTypeV) -> Result<Seq<char>, GeneratorErrorV> {
    match t {
        LangTypeV::Versioned(VersionedTypeKind::Struct, _, v, _, f) => match fields_spec(f) {
            Err(e) => Err(e),
            Ok(fs) => match record_components(o, fs, fs.len()) {
                Err(e) => Err(e),
                Ok(c) => Ok(tabs(1) + "public static record V"@ + decimal_text(v) + type_params_text(tps) + "("@ + c + ") {\n"@),
            },
        },
        LangTypeV::Versioned(VersionedTypeKind::Enum, _, v, _, f) => match fields_spec(f) {
            Err(e) => Err(e),
            Ok(fs) => match case_records(o, tps, v, fs, fs.len()) {
                Err(e) => Err(e),
                Ok(c) => Ok(tabs(1) + "public static sealed interface V"@ + decimal_text(v) + type_params_text(tps) + " {\n"@ + c),
            },
        },
        _ => Err(GeneratorErrorV::CouldNotGenerateType),
    }
}

/// Writes the components of a struct version's record.
#[verifier::spinoff_prover]
fn write_record_components(o: &JavaOptions, out: &mut String, fs: &Vec<LangField>) -> (r: Result<(), GeneratorError>)
    ensures
        wrote(r, old(out)@, final(out)@, record_components(*o, lang_fields_view(fs@), fs@.len())),
{
    let ghost fv = lang_fields_view(fs@);
    let ghost start = out@;
    let mut i: usize = 0;
    while i < fs.len()
        invariant
            i <= fs@.len(),
            fv == lang_fields_view(fs@),
            record_components(*o, fv, i as nat) is Ok,
            out@ == start + ok_text(record_components(*o, fv, i as nat)),
        decreases fs@.len() - i,
    {
        if i > 0 {
            append_str(out, ",");
        }
        match write_type(o, out, &fs[i].field_type, false) {
            Ok(()) => {},
            Err(x) => {
                proof {
                    lemma_record_components_err(*o, fv, (i + 1) as nat, fv.len());
                }
                return Err(x);
            },
        }
        append_str(out, " ");
        let f = make_field_name(fs[i].name.as_str());
        append_str(out, f.as_str());
        assert(out@ =~= start + ok_text(record_components(*o, fv, (i + 1) as nat)));
        i = i + 1;
    }
    Ok(())
}

/// Writes the record of one case of an enum version.
#[verifier::spinoff_prover]
fn write_case_record(o: &JavaOptions, out: &mut String, tps: &Vec<String>, v: &BigNat, f: &LangField) -> (r: Result<(), GeneratorError>)
    ensures
        match type_text(*o, f.field_type@, false) {
            Err(e) => r matches Err(x) && x@ == e,
            Ok(t) => r is Ok && final(out)@ == old(out)@ + (tabs(2) + "public static record "@ + capitalized(f.name@) + type_params_text(strings_view(tps@))
                + "("@ + t + " "@ + uncapitalized(f.name@) + ") implements V"@ + decimal_text(v@) + type_params_text(strings_view(tps@)) + " {}\n"@),
        },
{
    let ghost before = out@;
    write_indent(out, 2);
    append_str(out, "public static record ");
    let c = make_type_name(f.name.as_str());
    append_str(out, c.as_str());
    write_type_params(out, tps);
    append_str(out, "(");
    match write_type(o, out, &f.field_type, false) {
        Ok(()) => {},
        Err(x) => return Err(x),
    }
    append_str(out, " ");
    let n = make_field_name(f.name.as_str());
    append_str(out, n.as_str());
    append_str(out, ") implements V");
    let d = v.to_decimal();
    append_str(out, d.as_str());
    write_type_params(out, tps);
    append_str(out, " {}\n");
    let ghost t = ok_text(type_text(*o, f.field_type@, false));
    assert(out@ =~= before + (tabs(2) + "public static record "@ + capitalized(f.name@) + type_params_text(strings_view(tps@))
        + "("@ + t + " "@ + uncapitalized(f.name@) + ") implements V"@ + decimal_text(v@) + type_params_text(strings_view(tps@)) + " {}\n"@));
    Ok(())
}

/// Writes the records of the cases of an enum version.
#[verifier::spinoff_prover]
fn write_case_records(o: &JavaOptions, out: &mut String, tps: &Vec<String>, v: &BigNat, fs: &Vec<LangField>) -> (r: Result<(), GeneratorError>)
    ensures
        wrote(r, old(out)@, final(out)@, case_records(*o, strings_view(tps@), v@, lang_fields_view(fs@), fs@.len())),
{
    let ghost fv = lang_fields_view(fs@);
    let ghost tv = strings_view(tps@);
    let ghost start = out@;
    let mut i: usize = 0;
    while i < fs.len()
        invariant
            i <= fs@.len(),
            fv == lang_fields_view(fs@),
            tv == strings_view(tps@),
            case_records(*o, tv, v@, fv, i as nat) is Ok,
            out@ == start + ok_text(case_records(*o, tv, v@, fv, i as nat)),
        decreases fs@.len() - i,
    {
        let ghost before = out@;
        match write_case_record(o, out, tps, v, &fs[i]) {
            Ok(()) => {},
            Err(x) => {
                proof {
                    lemma_case_records_err(*o, tv, v@, fv, (i + 1) as nat, fv.len());
                }
                return Err(x);
            },
        }
        assert(out@ =~= start + ok_text(case_records(*o, tv, v@, fv, (i + 1) as nat)));
        i = i + 1;
    }
    Ok(())
}

/// Writes the opening of the declaration of a version of a struct or enum.
#[verifier::spinoff_prover]
fn write_version_header(o: &JavaOptions, out: &mut String, tps: &Vec<String>, t: &LangType) -> (r: Result<(), GeneratorError>)
    ensures
        wrote(r, old(out)@, final(out)@, version_header_text(*o, strings_view(tps@), t@)),
{
    reveal(version_header_text);
    let ghost before = out@;
    let ghost tv = strings_view(tps@);
    match t {
        LangType::Versioned(kind, _, v, _, fields) => {
            let is_struct = match kind {
                VersionedTypeKind::Struct => true,
                VersionedTypeKind::Enum => false,
            };
            let fs = match fields.build() {
                Ok(fs) => fs,
                Err(e) => return Err(e),
            };
            let ghost fv = lang_fields_view(fs@);
            assert(fv.len() == fs@.len());
            let d = v.to_decimal();
            write_indent(out, 1);
            if is_struct {
                append_str(out, "public static record V");
                append_str(out, d.as_str());
                write_type_params(out, tps);
                append_str(out, "(");
                let ghost h = tabs(1) + "public static record V"@ + decimal_text(v@) + type_params_text(tv) + "("@;
                assert(out@ =~= before + h);
                match write_record_components(o, out, &fs) {
                    Ok(()) => {},
                    Err(x) => return Err(x),
                }
                append_str(out, ") {\n");
                assert(out@ =~= before + (h + ok_text(record_components(*o, fv, fv.len())) + ") {\n"@));
            } else {
                append_str(out, "public static sealed interface V");
                append_str(out, d.as_str());
                write_type_params(out, tps);
                append_str(out, " {\n");
                let ghost h = tabs(1) + "public static sealed interface V"@ + decimal_text(v@) + type_params_text(tv) + " {\n"@;
                assert(out@ =~= before + h);
                match write_case_records(o, out, tps, v, &fs) {
                    Ok(()) => {},
                    Err(x) => return Err(x),
                }
                assert(out@ =~= before + (h + ok_text(case_records(*o, tv, v@, fv, fv.len()))));
            }
            Ok(())
        },
        _ => Err(GeneratorError::CouldNotGenerateType),
    }
}

/// One version of a struct or enum: its declaration, holding its
/// operations.
pub open spec fn version_text(o: JavaOptions, tps: Seq<Seq<char>>, t: LangTypeV, ops: Seq<OperationInfoV>) -> Result<Seq<char>, GeneratorErrorV> {
    match version_header_text(o, tps, t) {
        Err(e) => Err(e),
        Ok(h) => match ops_text(o, 2, ops, ops.len()) {
            Err(e) => Err(e),
            Ok(os) => Ok(h + os + "}\n"@),
        },
    }
}

/// Writes one version of a struct or enum.
#[verifier::spinoff_prover]
fn write_version(o: &JavaOptions, out: &mut String, tps: &Vec<String>, v: &TypeVersionOutput) -> (r: Result<(), GeneratorError>)
    ensures
        wrote(r, old(out)@, final(out)@, version_text(*o, strings_view(tps@), v.version_type@, ops_view(v.operations@))),
{
    let ghost before = out@;
    match write_version_header(o, out, tps, &v.version_type) {
        Ok(()) => {},
        Err(x) => return Err(x),
    }
    let ghost h = ok_text(version_header_text(*o, strings_view(tps@), v.version_type@));
    match write_ops(o, out, 2, &v.operations) {
        Ok(()) => {},
        Err(x) => return Err(x),
    }
    let ghost os = ok_text(ops_text(*o, 2, ops_view(v.operations@), v.operations@.len()));
    append_str(out, "}\n");
    assert(out@ =~= before + (h + os + "}\n"@));
    Ok(())
}

/// The versions `outs[..n]` of a struct or enum.
pub open spec fn versions_text(o: JavaOptions, tps: Seq<Seq<char>>, outs: Seq<(LangTypeV, Seq<OperationInfoV>)>, n: nat) -> Result<Seq<char>, GeneratorErrorV>
    decreases n,
{
    if n == 0 || n > outs.len() {
        Ok(Seq::empty())
    } else {
        match versions_text(o, tps, outs, (n - 1) as nat) {
            Err(e) => Err(e),
            Ok(p) => match version_text(o, tps, outs[n - 1].0, outs[n - 1].1) {
                Err(e) => Err(e),
                Ok(t) => Ok(p + t),
            },
        }
    }
}

/// Once the versions before `k` fail, so do those before any later `n`.
proof fn lemma_versions_err(o: JavaOptions, tps: Seq<Seq<char>>, outs: Seq<(LangTypeV, Seq<OperationInfoV>)>, k: nat, n: nat)
    requires
        k <= n <= outs.len(),
        versions_text(o, tps, outs, k) is Err,
    ensures
        versions_text(o, tps, outs, n) == versions_text(o, tps, outs, k),
    decreases n,
{
    if n > k {
        lemma_versions_err(o, tps, outs, k, (n - 1) as nat);
    }
}

/// Writes the versions of a struct or enum.
#[verifier::spinoff_prover]
fn write_versions<'a>(o: &JavaOptions, out: &mut String, tps: &Vec<String>, outs: &Vec<TypeVersionOutput<'a>>) -> (r: Result<(), GeneratorError>)
    ensures
        wrote(r, old(out)@, final(out)@, versions_text(*o, strings_view(tps@), outputs_view(outs@), outs@.len())),
{
    let ghost ov = outputs_view(outs@);
    let ghost tv = strings_view(tps@);
    let ghost start = out@;
    let mut i: usize = 0;
    while i < outs.len()
        invariant
            i <= outs@.len(),
            ov == outputs_view(outs@),
            ov.len() == outs@.len(),
            tv == strings_view(tps@),
            versions_text(*o, tv, ov, i as nat) is Ok,
            out@ == start + ok_text(versions_text(*o, tv, ov, i as nat)),
        decreases outs@.len() - i,
    {
        assert(ov[i as int] == (outs@[i as int].version_type@, ops_view(outs@[i as int].operations@)));
        let ghost done = versions_text(*o, tv, ov, i as nat);
        match write_version(o, out, tps, &outs[i]) {
            Ok(()) => {},
            Err(x) => {
                proof {
                    lemma_versions_err(*o, tv, ov, (i + 1) as nat, ov.len());
                }
                return Err(x);
            },
        }
        proof {
            lemma_add_assoc(start, ok_text(done), ok_text(version_text(*o, tv, ov[i as int].0, ov[i as int].1)));
        }
        i = i + 1;
    }
    Ok(())
}

/// The Java file of a struct or enum: its package, an abstract class with a
/// private constructor, and a declaration for each version.
#[verifier::opaque]
pub open spec fn type_file_text<'a>(o: JavaOptions, td: Named<'a, VersionedTypeDefinitionData>) -> Result<Seq<char>, GeneratorErrorV> {
    match package_text(o, td.name.package@) {
        Err(e) => Err(e),
        Ok(pk) => match generate_type_spec(td.model, versioned_scope(td), td) {
            Err(e) => Err(e),
            Ok(outs) => match versions_text(o, strings_view(td.value.type_params@), outs, outs.len()) {
                Err(e) => Err(e),
                Ok(vs) => {
                    let c = capitalized(td.name.name@);
                    Ok(pk + "public abstract class "@ + c + " {\n"@ + tabs(1) + "private "@ + c + "() {}\n"@ + vs + "}\n"@)
                },
            },
        },
    }
}

/// The Java file of a struct or enum definition.
#[verifier::spinoff_prover]
pub fn java_type_file<'a>(o: &JavaOptions, td: Named<'a, VersionedTypeDefinitionData>) -> (r: Result<String, GeneratorError>)
    ensures
        text_result(r) == type_file_text(*o, td),
{
    reveal(type_file_text);
    let mut out = String::new();
    proof {
        assert(out@ == Seq::<char>::empty());
    }
    match write_package(o, &mut out, &td.name.package) {
        Ok(()) => {},
        Err(x) => return Err(x),
    }
    let ghost pk = out@;
    let tg = TypeGenerator::new(td.share());
    let outs = match tg.generate() {
        Ok(os) => os,
        Err(x) => return Err(x),
    };
    proof {
        assert(outputs_view(outs@) =~= outs@.map_values(|o: TypeVersionOutput<'a>| crate::generator::version_output_view(o)));
    }
    let c = make_type_name(td.name.name.as_str());
    append_str(&mut out, "public abstract class ");
    append_str(&mut out, c.as_str());
    append_str(&mut out, " {\n");
    write_indent(&mut out, 1);
    append_str(&mut out, "private ");
    append_str(&mut out, c.as_str());
    append_str(&mut out, "() {}\n");
    let ghost head = pk + "public abstract class "@ + c@ + " {\n"@ + tabs(1) + "private "@ + c@ + "() {}\n"@;
    assert(out@ =~= head);
    match write_versions(o, &mut out, &td.value.type_params, &outs) {
        Ok(()) => {},
        Err(x) => return Err(x),
    }
    let ghost body = ok_text(versions_text(*o, strings_view(td.value.type_params@), outputs_view(outs@), outs@.len()));
    append_str(&mut out, "}\n");
    proof {
        lemma_add_assoc(head, body, "}\n"@);
        assert(out@ =~= pk + "public abstract class "@ + c@ + " {\n"@ + tabs(1) + "private "@ + c@ + "() {}\n"@ + body + "}\n"@);
    }
    Ok(out)
}

/// The scope of a constant's definition.
pub open spec fn constant_scope<'a>(c: Named<'a, Constant>) -> Scope<'a> {
    Scope { model: c.model, current_pkg: Some(&c.name.package), imports: Some(&c.value.imports), type_params: None }
}

/// The members `outs[..n]` of a constant's class: one static final field
/// for each version.
pub open spec fn const_members_text(o: JavaOptions, outs: Seq<(Seq<char>, LangTypeV, crate::generator::LangExprV)>, n: nat) -> Result<Seq<char>, GeneratorErrorV>
    decreases n,
{
    if n == 0 || n > outs.len() {
        Ok(Seq::empty())
    } else {
        match const_members_text(o, outs, (n - 1) as nat) {
            Err(e) => Err(e),
            Ok(p) => match type_text(o, outs[n - 1].1, false) {
                Err(e) => Err(e),
                Ok(t) => match expr_text(o, outs[n - 1].2) {
                    Err(e) => Err(e),
                    Ok(x) => Ok(p + tabs(1) + "public static final "@ + t + " "@ + outs[n - 1].0 + " = "@ + x + ";\n"@),
                },
            },
        }
    }
}

/// Once the members before `k` fail, so do those before any later `n`.
proof fn lemma_const_members_err(o: JavaOptions, outs: Seq<(Seq<char>, LangTypeV, crate::generator::LangExprV)>, k: nat, n: nat)
    requires
        k <= n <= outs.len(),
        const_members_text(o, outs, k) is Err,
    ensures
        const_members_text(o, outs, n) == const_members_text(o, outs, k),
    decreases n,
{
    if n > k {
        lemma_const_members_err(o, outs, k, (n - 1) as nat);
    }
}

/// The Java file of a constant: its package and a final class with a
/// private constructor and a static final field for each version.
#[verifier::opaque]
pub open spec fn const_file_text<'a>(o: JavaOptions, c: Named<'a, Constant>) -> Result<Seq<char>, GeneratorErrorV> {
    match package_text(o, c.name.package@) {
        Err(e) => Err(e),
        Ok(pk) => match generate_constant_spec(c.model, constant_scope(c), c) {
            Err(e) => Err(e),
            Ok(outs) => match const_members_text(o, outs, outs.len()) {
                Err(e) => Err(e),
                Ok(ms) => {
                    let n = capitalized(c.name.name@);
                    Ok(pk + "public final class "@ + n + " {\n"@ + tabs(1) + "private "@ + n + "() {}\n"@ + ms + "}\n"@)
                },
            },
        },
    }
}

/// Writes the members of a constant's class.
#[verifier::spinoff_prover]
fn write_const_members<'a>(o: &JavaOptions, out: &mut String, outs: &Vec<ConstantVersionOutput<'a>>) -> (r: Result<(), GeneratorError>)
    ensures
        wrote(r, old(out)@, final(out)@, const_members_text(*o, outs@.map_values(|x: ConstantVersionOutput<'a>| crate::generator::constant_output_view(x)), outs@.len())),
{
    let ghost ov = outs@.map_values(|x: ConstantVersionOutput<'a>| crate::generator::constant_output_view(x));
    let ghost start = out@;
    let mut i: usize = 0;
    while i < outs.len()
        invariant
            i <= outs@.len(),
            ov == outs@.map_values(|x: ConstantVersionOutput<'a>| crate::generator::constant_output_view(x)),
            const_members_text(*o, ov, i as nat) is Ok,
            out@ == start + ok_text(const_members_text(*o, ov, i as nat)),
        decreases outs@.len() - i,
    {
        let ghost before = out@;
        write_indent(out, 1);
        append_str(out, "public static final ");
        match write_type(o, out, &outs[i].value_type, false) {
            Ok(()) => {},
            Err(x) => {
                proof {
                    lemma_const_members_err(*o, ov, (i + 1) as nat, ov.len());
                }
                return Err(x);
            },
        }
        append_str(out, " ");
        append_str(out, outs[i].version_name.as_str());
        append_str(out, " = ");
        match write_expr(o, out, &outs[i].value) {
            Ok(()) => {},
            Err(x) => {
                proof {
                    lemma_const_members_err(*o, ov, (i + 1) as nat, ov.len());
                }
                return Err(x);
            },
        }
        append_str(out, ";\n");
        let ghost m = tabs(1) + "public static final "@ + ok_text(type_text(*o, ov[i as int].1, false)) + " "@ + ov[i as int].0
            + " = "@ + ok_text(expr_text(*o, ov[i as int].2)) + ";\n"@;
        assert(out@ =~= before + m);
        proof {
            lemma_add_assoc(start, ok_text(const_members_text(*o, ov, i as nat)), m);
        }
        i = i + 1;
    }
    Ok(())
}

/// The Java file of a constant.
#[verifier::spinoff_prover]
pub fn java_const_file<'a>(o: &JavaOptions, c: Named<'a, Constant>) -> (r: Result<String, GeneratorError>)
    ensures
        text_result(r) == const_file_text(*o, c),
{
    reveal(const_file_text);
    let mut out = String::new();
    proof {
        assert(out@ == Seq::<char>::empty());
    }
    match write_package(o, &mut out, &c.name.package) {
        Ok(()) => {},
        Err(x) => return Err(x),
    }
    let ghost pk = out@;
    let cg = ConstGenerator::new(c.share());
    assert(cg.gen.scope == constant_scope(c));
    let outs = match cg.generate() {
        Ok(os) => os,
        Err(x) => return Err(x),
    };
    let ghost ov = outs@.map_values(|x: ConstantVersionOutput<'a>| crate::generator::constant_output_view(x));
    let n = make_type_name(c.name.name.as_str());
    append_str(&mut out, "public final class ");
    append_str(&mut out, n.as_str());
    append_str(&mut out, " {\n");
    write_indent(&mut out, 1);
    append_str(&mut out, "private ");
    append_str(&mut out, n.as_str());
    append_str(&mut out, "() {}\n");
    let ghost head = pk + "public final class "@ + n@ + " {\n"@ + tabs(1) + "private "@ + n@ + "() {}\n"@;
    assert(out@ =~= head);
    match write_const_members(o, &mut out, &outs) {
        Ok(()) => {},
        Err(x) => return Err(x),
    }
    let ghost ms = ok_text(const_members_text(*o, ov, ov.len()));
    append_str(&mut out, "}\n");
    proof {
        lemma_add_assoc(head, ms, "}\n"@);
        assert(out@ =~= pk + "public final class "@ + n@ + " {\n"@ + tabs(1) + "private "@ + n@ + "() {}\n"@ + ms + "}\n"@);
    }
    Ok(out)
}


/// The path of the Java file of the type or constant `n`: the output
/// directory, the parts of its Java package, then its class name with
/// `.java`.
pub open spec fn java_file_path(o: JavaOptions, n: NameView) -> Result<Seq<Seq<char>>, GeneratorErrorV> {
    match java_package_spec(o, n.0) {
        Err(e) => Err(e),
        Ok(parts) => Ok(seq![o.output_dir@] + parts + seq![capitalized(n.1) + ".java"@]),
    }
}

/// The path of the Java file of the type or constant `name`, part by part.
#[verifier::spinoff_prover]
pub fn java_file_path_exec(o: &JavaOptions, name: &QualifiedName) -> (r: Result<Vec<String>, GeneratorError>)
    ensures
        match java_file_path(*o, name@) {
            Ok(p) => r matches Ok(x) && strings_view(x@) == p,
            Err(e) => r matches Err(x) && x@ == e,
        },
{
    let jp = match o.java_package(&name.package) {
        Ok(p) => p,
        Err(x) => return Err(x),
    };
    let mut path: Vec<String> = Vec::new();
    let mut dir = String::new();
    append_str(&mut dir, o.output_dir.as_str());
    path.push(dir);
    let ghost pv = strings_view(jp.package@);
    let mut i: usize = 0;
    while i < jp.package.len()
        invariant
            i <= jp.package@.len(),
            pv == strings_view(jp.package@),
            strings_view(path@) == seq![o.output_dir@] + pv.take(i as int),
        decreases jp.package@.len() - i,
    {
        let mut part = String::new();
        append_str(&mut part, jp.package[i].as_str());
        let ghost before = path@;
        let ghost partv = part@;
        path.push(part);
        assert(strings_view(path@) =~= strings_view(before).push(partv));
        assert(pv.take(i + 1) =~= pv.take(i as int).push(partv));
        assert(strings_view(path@) =~= seq![o.output_dir@] + pv.take(i + 1));
        i = i + 1;
    }
    let mut file = make_type_name(name.name.as_str());
    append_str(&mut file, ".java");
    let ghost before = path@;
    let ghost filev = file@;
    path.push(file);
    assert(strings_view(path@) =~= strings_view(before).push(filev));
    assert(pv.take(i as int) =~= pv);
    assert(strings_view(path@) =~= seq![o.output_dir@] + pv + seq![capitalized(name@.1) + ".java"@]);
    Ok(path)
}

/// A generated Java file: its path, part by part, and its text.
pub struct JavaFile {
    pub path: Vec<String>,
    pub contents: String,
}

/// The view of a generated file.
pub open spec fn java_file_view(f: JavaFile) -> (Seq<Seq<char>>, Seq<char>) {
    (strings_view(f.path@), f.contents@)
}

/// A file at the path of `n` with the text `text`, unless either fails.
pub open spec fn file_entry(o: JavaOptions, n: NameView, text: Result<Seq<char>, GeneratorErrorV>) -> Result<(Seq<Seq<char>>, Seq<char>), GeneratorErrorV> {
    match java_file_path(o, n) {
        Err(e) => Err(e),
        Ok(p) => match text {
            Err(e) => Err(e),
            Ok(t) => Ok((p, t)),
        },
    }
}

/// The files of the first `n` constants of `model`.
pub open spec fn const_files(o: JavaOptions, model: &Verilization, n: nat) -> Result<Seq<(Seq<Seq<char>>, Seq<char>)>, GeneratorErrorV>
    decreases n,
{
    let es = model.constant_entries();
    if n == 0 || n > es.len() {
        Ok(Seq::empty())
    } else {
        match const_files(o, model, (n - 1) as nat) {
            Err(e) => Err(e),
            Ok(p) => {
                let c = Named { model: model, name: &es[n - 1].0, value: &es[n - 1].1 };
                match file_entry(o, es[n - 1].0@, const_file_text(o, c)) {
                    Err(e) => Err(e),
                    Ok(f) => Ok(p.push(f)),
                }
            },
        }
    }
}

/// The files of the first `n` type definitions of `model`: one for each
/// struct or enum; an extern type has none.
pub open spec fn type_files(o: JavaOptions, model: &Verilization, n: nat) -> Result<Seq<(Seq<Seq<char>>, Seq<char>)>, GeneratorErrorV>
    decreases n,
{
    let es = model.type_entries();
    if n == 0 || n > es.len() {
        Ok(Seq::empty())
    } else {
        match type_files(o, model, (n - 1) as nat) {
            Err(e) => Err(e),
            Ok(p) => match es[n - 1].1 {
                TypeDefinition::StructType(d) => match file_entry(o, es[n - 1].0@,
                    type_file_text(o, Named { model: model, name: &es[n - 1].0, value: &d })) {
                    Err(e) => Err(e),
                    Ok(f) => Ok(p.push(f)),
                },
                TypeDefinition::EnumType(d) => match file_entry(o, es[n - 1].0@,
                    type_file_text(o, Named { model: model, name: &es[n - 1].0, value: &d })) {
                    Err(e) => Err(e),
                    Ok(f) => Ok(p.push(f)),
                },
                TypeDefinition::ExternType(_) => Ok(p),
            },
        }
    }
}

/// The Java files of a model: those of its constants, then those of its
/// types, each in the order of the model; the first error stops.
pub open spec fn java_files(o: JavaOptions, model: &Verilization) -> Result<Seq<(Seq<Seq<char>>, Seq<char>)>, GeneratorErrorV> {
    match const_files(o, model, model.constant_entries().len()) {
        Err(e) => Err(e),
        Ok(cs) => match type_files(o, model, model.type_entries().len()) {
            Err(e) => Err(e),
            Ok(ts) => Ok(cs + ts),
        },
    }
}

/// Once the constants before `k` fail, so do those before any later `n`.
proof fn lemma_const_files_err(o: JavaOptions, model: &Verilization, k: nat, n: nat)
    requires
        k <= n <= model.constant_entries().len(),
        const_files(o, model, k) is Err,
    ensures
        const_files(o, model, n) == const_files(o, model, k),
    decreases n,
{
    if n > k {
        lemma_const_files_err(o, model, k, (n - 1) as nat);
    }
}

/// Once the types before `k` fail, so do those before any later `n`.
proof fn lemma_type_files_err(o: JavaOptions, model: &Verilization, k: nat, n: nat)
    requires
        k <= n <= model.type_entries().len(),
        type_files(o, model, k) is Err,
    ensures
        type_files(o, model, n) == type_files(o, model, k),
    decreases n,
{
    if n > k {
        lemma_type_files_err(o, model, k, (n - 1) as nat);
    }
}

/// The views of generated files.
pub open spec fn java_files_view(fs: Seq<JavaFile>) -> Seq<(Seq<Seq<char>>, Seq<char>)> {
    fs.map_values(|f: JavaFile| java_file_view(f))
}

/// A generated file at the path of `name`, with `text`.
#[verifier::spinoff_prover]
fn make_file(o: &JavaOptions, name: &QualifiedName, text: Result<String, GeneratorError>) -> (r: Result<JavaFile, GeneratorError>)
    ensures
        match file_entry(*o, name@, text_result(text)) {
            Ok(f) => r matches Ok(x) && java_file_view(x) == f,
            Err(e) => r matches Err(x) && x@ == e,
        },
{
    let path = match java_file_path_exec(o, name) {
        Ok(p) => p,
        Err(x) => return Err(x),
    };
    match text {
        Ok(contents) => Ok(JavaFile { path, contents }),
        Err(x) => Err(x),
    }
}

/// The files of the constants of a model.
#[verifier::spinoff_prover]
fn constant_files(model: &Verilization, options: &JavaOptions) -> (r: Result<Vec<JavaFile>, GeneratorError>)
    ensures
        match const_files(*options, model, model.constant_entries().len()) {
            Ok(fs) => r matches Ok(x) && java_files_view(x@) == fs,
            Err(e) => r matches Err(x) && x@ == e,
        },
{
    let mut files: Vec<JavaFile> = Vec::new();
    assert(java_files_view(files@) =~= Seq::empty());
    let consts = model.constants();
    let ghost ces = model.constant_entries();
    let mut i: usize = 0;
    while i < consts.len()
        invariant
            i <= consts@.len(),
            consts@.len() == ces.len(),
            ces == model.constant_entries(),
            forall|k: int| 0 <= k < consts@.len() ==> *(#[trigger] consts@[k]).value == ces[k].1
                && *consts@[k].name == ces[k].0 && consts@[k].model == model,
            const_files(*options, model, i as nat) == Ok::<Seq<(Seq<Seq<char>>, Seq<char>)>, GeneratorErrorV>(java_files_view(files@)),
        decreases consts@.len() - i,
    {
        let c = consts[i].share();
        assert(c == Named { model: model, name: &ces[i as int].0, value: &ces[i as int].1 });
        let text = java_const_file(options, c.share());
        match make_file(options, c.name, text) {
            Ok(f) => {
                let ghost before = files@;
                let ghost fv = java_file_view(f);
                files.push(f);
                assert(java_files_view(files@) =~= java_files_view(before).push(fv));
            },
            Err(x) => {
                proof {
                    lemma_const_files_err(*options, model, (i + 1) as nat, ces.len());
                }
                return Err(x);
            },
        }
        i = i + 1;
    }
    Ok(files)
}

/// The file of one type definition, if it is a struct or an enum.
#[verifier::spinoff_prover]
fn type_def_file(t: &NamedTypeDefinition, options: &JavaOptions) -> (r: Option<Result<JavaFile, GeneratorError>>)
    ensures
        match *t {
            NamedTypeDefinition::StructType(d) => r matches Some(x) && match file_entry(*options, d.name@, type_file_text(*options, d)) {
                Ok(f) => x matches Ok(y) && java_file_view(y) == f,
                Err(e) => x matches Err(y) && y@ == e,
            },
            NamedTypeDefinition::EnumType(d) => r matches Some(x) && match file_entry(*options, d.name@, type_file_text(*options, d)) {
                Ok(f) => x matches Ok(y) && java_file_view(y) == f,
                Err(e) => x matches Err(y) && y@ == e,
            },
            NamedTypeDefinition::ExternType(_) => r is None,
        },
{
    match t {
        NamedTypeDefinition::StructType(d) => {
            let text = java_type_file(options, d.share());
            Some(make_file(options, d.name, text))
        },
        NamedTypeDefinition::EnumType(d) => {
            let text = java_type_file(options, d.share());
            Some(make_file(options, d.name, text))
        },
        NamedTypeDefinition::ExternType(_) => None,
    }
}

/// The files of the structs and enums of a model.
#[verifier::spinoff_prover]
fn type_def_files(model: &Verilization, options: &JavaOptions) -> (r: Result<Vec<JavaFile>, GeneratorError>)
    ensures
        match type_files(*options, model, model.type_entries().len()) {
            Ok(fs) => r matches Ok(x) && java_files_view(x@) == fs,
            Err(e) => r matches Err(x) && x@ == e,
        },
{
    let types = model.types();
    let ghost tes = model.type_entries();
    let mut files: Vec<JavaFile> = Vec::new();
    assert(java_files_view(files@) =~= Seq::empty());
    let mut j: usize = 0;
    while j < types.len()
        invariant
            j <= types@.len(),
            types@.len() == tes.len(),
            tes == model.type_entries(),
            forall|k: int| 0 <= k < types@.len() ==> (#[trigger] types@[k]).definition() == tes[k].1
                && types@[k].is_in(model, tes[k].0),
            type_files(*options, model, j as nat) == Ok::<Seq<(Seq<Seq<char>>, Seq<char>)>, GeneratorErrorV>(java_files_view(files@)),
        decreases types@.len() - j,
    {
        let made = type_def_file(&types[j], options);
        proof {
            match types@[j as int] {
                NamedTypeDefinition::StructType(d) => {
                    assert(d == Named { model: model, name: &tes[j as int].0, value: &(tes[j as int].1->StructType_0) });
                },
                NamedTypeDefinition::EnumType(d) => {
                    assert(d == Named { model: model, name: &tes[j as int].0, value: &(tes[j as int].1->EnumType_0) });
                },
                NamedTypeDefinition::ExternType(_) => {},
            }
        }
        match made {
            Some(Ok(f)) => {
                let ghost before = files@;
                let ghost fv = java_file_view(f);
                files.push(f);
                assert(java_files_view(files@) =~= java_files_view(before).push(fv));
            },
            Some(Err(x)) => {
                proof {
                    lemma_type_files_err(*options, model, (j + 1) as nat, tes.len());
                }
                return Err(x);
            },
            None => {},
        }
        j = j + 1;
    }
    Ok(files)
}

impl Language for JavaLanguage {
    type Options = JavaOptions;
    type File = JavaFile;

    open spec fn language_name() -> Seq<char> {
        "java"@
    }

    open spec fn generates(model: &Verilization, options: JavaOptions, r: Result<Vec<JavaFile>, GeneratorError>) -> bool {
        match java_files(options, model) {
            Ok(fs) => r matches Ok(x) && java_files_view(x@) == fs,
            Err(e) => r matches Err(x) && x@ == e,
        }
    }

    open spec fn file_view(file: JavaFile) -> (Seq<Seq<char>>, Seq<char>) {
        java_file_view(file)
    }

    fn name() -> (r: &'static str) {
        "java"
    }

    /// The Java files of a model: for each constant, then for each struct
    /// or enum, the path of its file and its text.
    fn generate(model: &Verilization, options: &JavaOptions) -> (r: Result<Vec<JavaFile>, GeneratorError>) {
        let mut files = match constant_files(model, options) {
            Ok(fs) => fs,
            Err(x) => return Err(x),
        };
        let mut tfiles = match type_def_files(model, options) {
            Ok(fs) => fs,
            Err(x) => return Err(x),
        };
        let ghost cs = java_files_view(files@);
        let ghost ts = java_files_view(tfiles@);
        files.append(&mut tfiles);
        assert(java_files_view(files@) =~= cs + ts);
        Ok(files)
    }

    fn file_parts(file: JavaFile) -> (r: (Vec<String>, String)) {
        (file.path, file.contents)
    }
}

/// The record of a struct version has one component per field, in order:
/// the text of that field's own type and that field's own name, the
/// components separated by ",".
pub proof fn lemma_record_components_each(o: JavaOptions, xs: Seq<(Seq<char>, LangTypeV)>, ts: Seq<Seq<char>>, n: nat)
    requires
        n <= xs.len(),
        ts.len() == n,
        forall|i: int| 0 <= i < n ==> type_text(o, #[trigger] xs[i].1, false) == Ok::<Seq<char>, GeneratorErrorV>(ts[i]),
    ensures
        record_components(o, xs, n) == Ok::<Seq<char>, GeneratorErrorV>(joined_with(Seq::new(n, |i: int| ts[i] + " "@ + uncapitalized(xs[i].0)), ","@)),
    decreases n,
{
    if n > 0 {
        let m = (n - 1) as nat;
        assert(type_text(o, xs[m as int].1, false) == Ok::<Seq<char>, GeneratorErrorV>(ts[m as int]));
        lemma_record_components_each(o, xs, ts.drop_last(), m);
        let ys = Seq::new(n, |i: int| ts[i] + " "@ + uncapitalized(xs[i].0));
        assert(ys.drop_last() =~= Seq::new(m, |i: int| ts.drop_last()[i] + " "@ + uncapitalized(xs[i].0)));
        let r = record_components(o, xs, n);
        assert(r is Ok);
        if n == 1 {
            assert(r->Ok_0 =~= ys[0]);
        } else {
            assert(r->Ok_0 =~= joined_with(ys, ","@));
        }
    }
}

/// Names are written in order, separated by ", ".
pub proof fn lemma_names_joined_each(ps: Seq<Seq<char>>, n: nat)
    requires
        n <= ps.len(),
    ensures
        names_joined(ps, n) == joined_with(ps.take(n as int), ", "@),
    decreases n,
{
    if n > 0 {
        lemma_names_joined_each(ps, (n - 1) as nat);
        assert(ps.take(n as int).drop_last() =~= ps.take(n - 1));
        if n == 1 {
            assert(joined_with(ps.take(1), ", "@) == ps[0]);
        }
    }
}

/// The parts of a package name are written in order, separated by dots.
pub proof fn lemma_dot_joined_each(ps: Seq<Seq<char>>, n: nat)
    requires
        n <= ps.len(),
    ensures
        dot_joined(ps, n) == joined_with(ps.take(n as int), "."@),
    decreases n,
{
    if n > 0 {
        lemma_dot_joined_each(ps, (n - 1) as nat);
        assert(ps.take(n as int).drop_last() =~= ps.take(n - 1));
        if n == 1 {
            assert(joined_with(ps.take(1), "."@) == ps[0]);
        }
    }
}

/// The parameters of a method are written in order, each as the text of
/// its own type and its own name, separated by ", ".
pub proof fn lemma_params_each(o: JavaOptions, xs: Seq<(Seq<char>, LangTypeV)>, ts: Seq<Seq<char>>, n: nat)
    requires
        n <= xs.len(),
        ts.len() == n,
        forall|i: int| 0 <= i < n ==> type_text(o, #[trigger] xs[i].1, true) == Ok::<Seq<char>, GeneratorErrorV>(ts[i]),
    ensures
        params_text(o, xs, n) == Ok::<Seq<char>, GeneratorErrorV>(joined_with(Seq::new(n, |i: int| ts[i] + " "@ + xs[i].0), ", "@)),
    decreases n,
{
    if n > 0 {
        let m = (n - 1) as nat;
        assert(type_text(o, xs[m as int].1, true) == Ok::<Seq<char>, GeneratorErrorV>(ts[m as int]));
        lemma_params_each(o, xs, ts.drop_last(), m);
        let ys = Seq::new(n, |i: int| ts[i] + " "@ + xs[i].0);
        assert(ys.drop_last() =~= Seq::new(m, |i: int| ts.drop_last()[i] + " "@ + xs[i].0));
        let r = params_text(o, xs, n);
        assert(r is Ok);
        if n == 1 {
            assert(r->Ok_0 =~= ys[0]);
        } else {
            assert(r->Ok_0 =~= joined_with(ys, ", "@));
        }
    }
}

} // verus!
