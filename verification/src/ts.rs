//! Code generation for TypeScript: the text of types, expressions and
//! statements of the generated code, and the user converters that the
//! expressions call.
use vstd::prelude::*;
use crate::bignum::{BigNat, decimal_text};
use crate::names::{QualifiedName, strings_view};
use crate::model::NameView;
use crate::text::{append_str, chars_of, string_push, joined_with};
use crate::util::{capitalized, uncapitalized};
use crate::lang::{make_type_name, make_field_name};
use crate::generator::{
    LangType, LangTypeV, lang_types_view, lemma_lang_types_view, LangExpr, LangExprV, lang_exprs_view, lemma_lang_exprs_view,
    named_exprs_view, lemma_named_exprs_view, Operation, OperationV, OperationTarget, OperationTargetV, LangStmt, LangStmtV,
    MatchCase, has_value_spec, match_cases_view, disc_cases_view, lemma_match_cases_view, lemma_disc_cases_view, opt_expr_view,
    LangExprStmt, LangExprStmtV, OperationInfo, OperationInfoV, type_args_view, lemma_type_args_view, GeneratorError, GeneratorErrorV,
    LangField, fields_spec, fields_result, lang_fields_view, FieldsV,
};
use crate::lang::VersionedTypeKind;
use crate::java_file::{type_params_text, write_type_params, is_func};
use crate::java::{decimal_int, write_decimal_int, operation_name_text, write_operation_name, tabs, deeper, deeper_exec, write_indent};

verus! {

/// The name that a file imports the module of `n` under: `sym_`, each part
/// of its package followed by `_`, then its name.
pub open spec fn import_name(n: NameView) -> Seq<char> {
    "sym_"@ + underscored(n.0, n.0.len()) + n.1
}

/// The parts `ps[..k]`, each followed by `_`.
pub open spec fn underscored(ps: Seq<Seq<char>>, k: nat) -> Seq<char>
    decreases k,
{
    if k == 0 || k > ps.len() {
        Seq::empty()
    } else {
        underscored(ps, (k - 1) as nat) + ps[k - 1] + "_"@
    }
}

/// Writes the import name of `n`.
#[verifier::spinoff_prover]
pub fn write_import_name(out: &mut String, n: &QualifiedName)
    ensures
        final(out)@ == old(out)@ + import_name(n@),
{
    append_str(out, "sym_");
    let ghost start = out@;
    let parts = &n.package.package;
    let ghost pv = strings_view(parts@);
    let mut i: usize = 0;
    while i < parts.len()
        invariant
            i <= parts@.len(),
            pv == strings_view(parts@),
            out@ == start + underscored(pv, i as nat),
        decreases parts@.len() - i,
    {
        append_str(out, parts[i].as_str());
        append_str(out, "_");
        assert(out@ =~= start + underscored(pv, (i + 1) as nat));
        i = i + 1;
    }
    append_str(out, n.name.as_str());
    assert(out@ =~= old(out)@ + import_name(n@));
}

/// The name of a value of the element being generated, `cur`: bare in its
/// own file, qualified by its import name elsewhere.
pub open spec fn qualifier(cur: Option<NameView>, n: NameView) -> Seq<char> {
    if cur == Some(n) {
        Seq::empty()
    } else {
        import_name(n) + "."@
    }
}

/// The view of the element being generated.
pub open spec fn cur_view(cur: Option<&QualifiedName>) -> Option<NameView> {
    match cur {
        Some(n) => Some(n@),
        None => None,
    }
}

/// Writes the qualifier of `n` seen from the element `cur`.
#[verifier::spinoff_prover]
fn write_qualifier(cur: Option<&QualifiedName>, out: &mut String, n: &QualifiedName)
    ensures
        final(out)@ == old(out)@ + qualifier(cur_view(cur), n@),
{
    let own = match cur {
        Some(c) => c.equals(n),
        None => false,
    };
    if !own {
        write_import_name(out, n);
        append_str(out, ".");
    } else {
        assert(out@ =~= old(out)@ + qualifier(cur_view(cur), n@));
    }
}

/// The TypeScript text of a type.
pub open spec fn ts_type_text(cur: Option<NameView>, t: LangTypeV) -> Seq<char>
    decreases t, 0nat,
{
    match t {
        LangTypeV::Versioned(_, name, version, args, _) => qualifier(cur, name) + "V"@ + decimal_text(version) + ts_type_args(cur, args),
        LangTypeV::Extern(name, args, _) => import_name(name) + "."@ + capitalized(name.1) + ts_type_args(cur, args),
        LangTypeV::TypeParameter(p) => p,
        LangTypeV::Converter(from, to) => "Converter<"@ + ts_type_text(cur, *from) + ", "@ + ts_type_text(cur, *to) + ">"@,
        LangTypeV::Codec(inner) => "Codec<"@ + ts_type_text(cur, *inner) + ">"@,
    }
}

/// Type arguments in angle brackets, or nothing when there are none.
pub open spec fn ts_type_args(cur: Option<NameView>, args: Seq<LangTypeV>) -> Seq<char>
    decreases args, args.len() + 1,
{
    if args.len() == 0 {
        Seq::empty()
    } else {
        "<"@ + ts_types_joined(cur, args, args.len()) + ">"@
    }
}

/// The types `args[..n]`, separated by commas.
pub open spec fn ts_types_joined(cur: Option<NameView>, args: Seq<LangTypeV>, n: nat) -> Seq<char>
    decreases args, n,
{
    if n == 0 || n > args.len() {
        Seq::empty()
    } else if n == 1 {
        ts_type_text(cur, args[0])
    } else {
        ts_types_joined(cur, args, (n - 1) as nat) + ", "@ + ts_type_text(cur, args[n - 1])
    }
}

/// Writes the TypeScript text of a type.
#[verifier::spinoff_prover]
pub fn ts_write_type(cur: Option<&QualifiedName>, out: &mut String, t: &LangType)
    ensures
        final(out)@ == old(out)@ + ts_type_text(cur_view(cur), t@),
    decreases t, 1nat,
{
    let ghost before = out@;
    let ghost c = cur_view(cur);
    match t {
        LangType::Versioned(_, name, version, args, _) => {
            write_qualifier(cur, out, name);
            append_str(out, "V");
            let d = version.to_decimal();
            append_str(out, d.as_str());
            ts_write_type_args(cur, out, args);
            assert(out@ =~= before + ts_type_text(c, t@));
        },
        LangType::Extern(name, args, _) => {
            write_import_name(out, name);
            append_str(out, ".");
            let n = make_type_name(name.name.as_str());
            append_str(out, n.as_str());
            ts_write_type_args(cur, out, args);
            assert(out@ =~= before + ts_type_text(c, t@));
        },
        LangType::TypeParameter(p) => {
            append_str(out, p.as_str());
        },
        LangType::Converter(from, to) => {
            append_str(out, "Converter<");
            ts_write_type(cur, out, &**from);
            append_str(out, ", ");
            ts_write_type(cur, out, &**to);
            append_str(out, ">");
            assert(out@ =~= before + ts_type_text(c, t@));
        },
        LangType::Codec(inner) => {
            append_str(out, "Codec<");
            ts_write_type(cur, out, &**inner);
            append_str(out, ">");
            assert(out@ =~= before + ts_type_text(c, t@));
        },
    }
}

/// Writes type arguments in angle brackets, if there are any.
#[verifier::spinoff_prover]
pub fn ts_write_type_args(cur: Option<&QualifiedName>, out: &mut String, args: &Vec<LangType>)
    ensures
        final(out)@ == old(out)@ + ts_type_args(cur_view(cur), lang_types_view(args@)),
    decreases args, 0nat,
{
    proof {
        lemma_lang_types_view(args@);
    }
    let ghost av = lang_types_view(args@);
    let ghost c = cur_view(cur);
    if args.len() == 0 {
        assert(out@ =~= old(out)@ + ts_type_args(c, av));
        return;
    }
    append_str(out, "<");
    let ghost start = out@;
    let mut i: usize = 0;
    while i < args.len()
        invariant
            i <= args@.len(),
            av == lang_types_view(args@),
            av.len() == args@.len(),
            forall|j: int| 0 <= j < args@.len() ==> #[trigger] av[j] == args@[j]@,
            c == cur_view(cur),
            out@ == start + ts_types_joined(c, av, i as nat),
        decreases args@.len() - i,
    {
        if i > 0 {
            append_str(out, ", ");
        }
        ts_write_type(cur, out, &args[i]);
        if i == 0 {
            assert(out@ =~= start + ts_types_joined(c, av, 1));
        } else {
            assert(out@ =~= start + ts_types_joined(c, av, (i + 1) as nat));
        }
        i = i + 1;
    }
    append_str(out, ">");
    assert(out@ =~= old(out)@ + ts_type_args(c, av));
}

/// A character as it is written inside a TypeScript string literal.
pub open spec fn ts_escaped_char(c: char) -> Seq<char> {
    if c == '"' {
        seq!['\\', '"']
    } else if c == '\\' {
        seq!['\\', '\\']
    } else if c == '\n' {
        seq!['\\', 'n']
    } else if c == '\r' {
        seq!['\\', 'r']
    } else if c == '\u{2028}' {
        seq!['\\', 'u', '2', '0', '2', '8']
    } else if c == '\u{2029}' {
        seq!['\\', 'u', '2', '0', '2', '9']
    } else {
        seq![c]
    }
}

/// The characters of a string as they are written inside a TypeScript
/// string literal.
pub open spec fn ts_escaped(s: Seq<char>) -> Seq<char>
    decreases s.len(),
{
    if s.len() == 0 {
        Seq::empty()
    } else {
        ts_escaped(s.drop_last()) + ts_escaped_char(s.last())
    }
}

/// Writes the characters of a string as they are written inside a
/// TypeScript string literal.
#[verifier::spinoff_prover]
fn ts_write_escaped(out: &mut String, s: &str)
    ensures
        final(out)@ == old(out)@ + ts_escaped(s@),
{
    let cs = chars_of(s);
    let mut i: usize = 0;
    while i < cs.len()
        invariant
            i <= cs@.len(),
            cs@ == s@,
            out@ == old(out)@ + ts_escaped(cs@.take(i as int)),
        decreases cs@.len() - i,
    {
        let c = cs[i];
        if c == '"' {
            string_push(out, '\\');
            string_push(out, '"');
        } else if c == '\\' {
            string_push(out, '\\');
            string_push(out, '\\');
        } else if c == '\n' {
            string_push(out, '\\');
            string_push(out, 'n');
        } else if c == '\r' {
            string_push(out, '\\');
            string_push(out, 'r');
        } else if c == '\u{2028}' {
            string_push(out, '\\');
            string_push(out, 'u');
            string_push(out, '2');
            string_push(out, '0');
            string_push(out, '2');
            string_push(out, '8');
        } else if c == '\u{2029}' {
            string_push(out, '\\');
            string_push(out, 'u');
            string_push(out, '2');
            string_push(out, '0');
            string_push(out, '2');
            string_push(out, '9');
        } else {
            string_push(out, c);
        }
        assert(cs@.take(i + 1).drop_last() =~= cs@.take(i as int));
        assert(out@ =~= old(out)@ + ts_escaped(cs@.take(i + 1)));
        i = i + 1;
    }
    assert(cs@.take(i as int) =~= cs@);
}

/// The target of an operation: a version of a struct or enum, or an extern
/// type.
pub open spec fn ts_target_text(cur: Option<NameView>, t: OperationTargetV) -> Seq<char> {
    match t {
        OperationTargetV::VersionedType(n, v) => qualifier(cur, n) + "V"@ + decimal_text(v),
        OperationTargetV::ExternType(n) => import_name(n),
    }
}

/// The name of the user converter from version `prev` to version `v`.
pub open spec fn user_converter_name(prev: nat, v: nat) -> Seq<char> {
    "v"@ + decimal_text(prev) + "_to_v"@ + decimal_text(v)
}

/// The TypeScript text of an expression.
pub open spec fn ts_expr_text(cur: Option<NameView>, e: LangExprV) -> Seq<char>
    decreases e, 0nat,
{
    match e {
        LangExprV::Identifier(n) => n,
        LangExprV::IntegerLiteral(n) => decimal_int(n) + "n"@,
        LangExprV::StringLiteral(s) => "\""@ + ts_escaped(s) + "\""@,
        LangExprV::InvokeConverter(c, v) => ts_expr_text(cur, *c) + ".convert("@ + ts_expr_text(cur, *v) + ")"@,
        LangExprV::IdentityConverter(t) => "Converter.identity<"@ + ts_type_text(cur, t) + ">()"@,
        LangExprV::ReadDiscriminator => "await natCodec.read(reader)"@,
        LangExprV::WriteDiscriminator(n) => "await natCodec.write(writer, "@ + decimal_text(n) + "n)"@,
        LangExprV::CodecRead(c) => "await "@ + ts_expr_text(cur, *c) + ".read(reader)"@,
        LangExprV::CodecWrite(c, v) => "await "@ + ts_expr_text(cur, *c) + ".write(writer, "@ + ts_expr_text(cur, *v) + ")"@,
        LangExprV::InvokeOperation(op, target, targs, args) => ts_target_text(cur, target) + "."@ + operation_name_text(op)
            + ts_type_args(cur, targs) + match op {
            OperationV::FromRecord(fields) => "({ "@ + ts_record_args(cur, fields, args, record_arg_count(fields, args)) + "})"@,
            _ => ts_args_text(cur, args),
        },
        LangExprV::InvokeUserConverter(_, prev, v, targs, args) => user_converter_name(prev, v) + ts_type_args(cur, targs)
            + ts_args_text(cur, args),
        LangExprV::ConstantValue(n, v) => qualifier(cur, n) + "v"@ + decimal_text(v),
        LangExprV::CreateStruct(_, _, _, fields) => "{ "@ + ts_field_values(cur, fields, fields.len()) + "}"@,
        LangExprV::CreateEnum(_, _, _, case, value) => "{ tag: \""@ + case + "\", "@ + uncapitalized(case) + ": "@
            + ts_expr_text(cur, *value) + "}"@,
        LangExprV::StructField(_, _, field, value) => ts_expr_text(cur, *value) + "."@ + uncapitalized(field),
    }
}

/// How many arguments a record literal has: one for each field name, as
/// far as there are arguments.
pub open spec fn record_arg_count(fields: Seq<Seq<char>>, args: Seq<LangExprV>) -> nat {
    if fields.len() <= args.len() { fields.len() } else { args.len() }
}

/// Arguments in parentheses, or nothing when there are none.
pub open spec fn ts_args_text(cur: Option<NameView>, es: Seq<LangExprV>) -> Seq<char>
    decreases es, es.len() + 1,
{
    if es.len() == 0 {
        Seq::empty()
    } else {
        "("@ + ts_exprs_joined(cur, es, es.len()) + ")"@
    }
}

/// The expressions `es[..n]`, separated by commas.
pub open spec fn ts_exprs_joined(cur: Option<NameView>, es: Seq<LangExprV>, n: nat) -> Seq<char>
    decreases es, n,
{
    if n == 0 || n > es.len() {
        Seq::empty()
    } else if n == 1 {
        ts_expr_text(cur, es[0])
    } else {
        ts_exprs_joined(cur, es, (n - 1) as nat) + ", "@ + ts_expr_text(cur, es[n - 1])
    }
}

/// The first `n` fields of a record literal: each name, its value and a
/// comma.
pub open spec fn ts_record_args(cur: Option<NameView>, fields: Seq<Seq<char>>, args: Seq<LangExprV>, n: nat) -> Seq<char>
    decreases args, n,
{
    if n == 0 || n > fields.len() || n > args.len() {
        Seq::empty()
    } else {
        ts_record_args(cur, fields, args, (n - 1) as nat) + uncapitalized(fields[n - 1]) + ": "@ + ts_expr_text(cur, args[n - 1]) + ", "@
    }
}

/// The first `n` fields of an object literal: each name, its value and a
/// comma.
pub open spec fn ts_field_values(cur: Option<NameView>, fs: Seq<(Seq<char>, LangExprV)>, n: nat) -> Seq<char>
    decreases fs, n,
{
    if n == 0 || n > fs.len() {
        Seq::empty()
    } else {
        ts_field_values(cur, fs, (n - 1) as nat) + uncapitalized(fs[n - 1].0) + ": "@ + ts_expr_text(cur, fs[n - 1].1) + ", "@
    }
}

/// The user converters that an expression calls, in the order they are
/// written.
pub open spec fn expr_convs(e: LangExprV) -> Seq<Seq<char>>
    decreases e, 0nat,
{
    match e {
        LangExprV::InvokeConverter(c, v) => expr_convs(*c) + expr_convs(*v),
        LangExprV::CodecRead(c) => expr_convs(*c),
        LangExprV::CodecWrite(c, v) => expr_convs(*c) + expr_convs(*v),
        LangExprV::InvokeOperation(op, _, _, args) => match op {
            OperationV::FromRecord(fields) => exprs_convs(args, record_arg_count(fields, args)),
            _ => exprs_convs(args, args.len()),
        },
        LangExprV::InvokeUserConverter(_, prev, v, _, args) => seq![user_converter_name(prev, v)] + exprs_convs(args, args.len()),
        LangExprV::CreateStruct(_, _, _, fields) => fields_convs(fields, fields.len()),
        LangExprV::CreateEnum(_, _, _, _, value) => expr_convs(*value),
        LangExprV::StructField(_, _, _, value) => expr_convs(*value),
        _ => Seq::empty(),
    }
}

/// The user converters that the expressions `es[..n]` call.
pub open spec fn exprs_convs(es: Seq<LangExprV>, n: nat) -> Seq<Seq<char>>
    decreases es, n,
{
    if n == 0 || n > es.len() {
        Seq::empty()
    } else {
        exprs_convs(es, (n - 1) as nat) + expr_convs(es[n - 1])
    }
}

/// The user converters that the values of the fields `fs[..n]` call.
pub open spec fn fields_convs(fs: Seq<(Seq<char>, LangExprV)>, n: nat) -> Seq<Seq<char>>
    decreases fs, n,
{
    if n == 0 || n > fs.len() {
        Seq::empty()
    } else {
        fields_convs(fs, (n - 1) as nat) + expr_convs(fs[n - 1].1)
    }
}

/// Writes the TypeScript text of an expression, and adds the user
/// converters it calls to `convs`.
#[verifier::spinoff_prover]
pub fn ts_write_expr(cur: Option<&QualifiedName>, out: &mut String, convs: &mut Vec<String>, e: &LangExpr)
    ensures
        final(out)@ == old(out)@ + ts_expr_text(cur_view(cur), e@),
        strings_view(final(convs)@) == strings_view(old(convs)@) + expr_convs(e@),
    decreases e, 1nat,
{
    let ghost before = out@;
    let ghost c = cur_view(cur);
    match e {
        LangExpr::Identifier(n) => {
            append_str(out, n.as_str());
            assert(strings_view(convs@) =~= strings_view(old(convs)@) + expr_convs(e@));
        },
        LangExpr::IntegerLiteral(n) => {
            write_decimal_int(out, n);
            append_str(out, "n");
            assert(out@ =~= before + ts_expr_text(c, e@));
            assert(strings_view(convs@) =~= strings_view(old(convs)@) + expr_convs(e@));
        },
        LangExpr::StringLiteral(s) => {
            append_str(out, "\"");
            ts_write_escaped(out, s.as_str());
            append_str(out, "\"");
            assert(out@ =~= before + ts_expr_text(c, e@));
            assert(strings_view(convs@) =~= strings_view(old(convs)@) + expr_convs(e@));
        },
        LangExpr::IdentityConverter(t) => {
            append_str(out, "Converter.identity<");
            ts_write_type(cur, out, t);
            append_str(out, ">()");
            assert(out@ =~= before + ts_expr_text(c, e@));
            assert(strings_view(convs@) =~= strings_view(old(convs)@) + expr_convs(e@));
        },
        LangExpr::ReadDiscriminator => {
            append_str(out, "await natCodec.read(reader)");
            assert(strings_view(convs@) =~= strings_view(old(convs)@) + expr_convs(e@));
        },
        LangExpr::WriteDiscriminator(n) => {
            append_str(out, "await natCodec.write(writer, ");
            let d = n.to_decimal();
            append_str(out, d.as_str());
            append_str(out, "n)");
            assert(out@ =~= before + ts_expr_text(c, e@));
            assert(strings_view(convs@) =~= strings_view(old(convs)@) + expr_convs(e@));
        },
        LangExpr::ConstantValue(n, v) => {
            write_qualifier(cur, out, n);
            append_str(out, "v");
            let d = v.to_decimal();
            append_str(out, d.as_str());
            assert(out@ =~= before + ts_expr_text(c, e@));
            assert(strings_view(convs@) =~= strings_view(old(convs)@) + expr_convs(e@));
        },
        LangExpr::InvokeConverter { .. } => ts_write_pair(cur, out, convs, e),
        LangExpr::CodecWrite { .. } => ts_write_pair(cur, out, convs, e),
        LangExpr::CodecRead { .. } => ts_write_wrapped(cur, out, convs, e),
        LangExpr::CreateEnum(..) => ts_write_wrapped(cur, out, convs, e),
        LangExpr::StructField(..) => ts_write_wrapped(cur, out, convs, e),
        LangExpr::InvokeOperation(..) => ts_write_invoke_operation(cur, out, convs, e),
        LangExpr::InvokeUserConverter { .. } => ts_write_user_converter(cur, out, convs, e),
        LangExpr::CreateStruct(..) => ts_write_create_struct(cur, out, convs, e),
    }
}

/// Writes an expression made of two subexpressions: a conversion, or a
/// codec's write of a value.
#[verifier::spinoff_prover]
fn ts_write_pair(cur: Option<&QualifiedName>, out: &mut String, convs: &mut Vec<String>, e: &LangExpr)
    requires
        e is InvokeConverter || e is CodecWrite,
    ensures
        final(out)@ == old(out)@ + ts_expr_text(cur_view(cur), e@),
        strings_view(final(convs)@) == strings_view(old(convs)@) + expr_convs(e@),
    decreases e, 0nat,
{
    let ghost before = out@;
    let ghost cb = strings_view(convs@);
    let ghost c = cur_view(cur);
    match e {
        LangExpr::InvokeConverter { converter, value } => {
            ts_write_expr(cur, out, convs, &**converter);
            append_str(out, ".convert(");
            ts_write_expr(cur, out, convs, &**value);
            append_str(out, ")");
            assert(out@ =~= before + ts_expr_text(c, e@));
            assert(strings_view(convs@) =~= cb + expr_convs(e@));
        },
        LangExpr::CodecWrite { codec, value } => {
            append_str(out, "await ");
            ts_write_expr(cur, out, convs, &**codec);
            append_str(out, ".write(writer, ");
            ts_write_expr(cur, out, convs, &**value);
            append_str(out, ")");
            assert(out@ =~= before + ts_expr_text(c, e@));
            assert(strings_view(convs@) =~= cb + expr_convs(e@));
        },
        _ => {
            proof {
                assert(false);
            }
        },
    }
}

/// Writes an expression around one subexpression: a codec's read, an enum
/// value, or a struct's field.
#[verifier::spinoff_prover]
fn ts_write_wrapped(cur: Option<&QualifiedName>, out: &mut String, convs: &mut Vec<String>, e: &LangExpr)
    requires
        e is CodecRead || e is CreateEnum || e is StructField,
    ensures
        final(out)@ == old(out)@ + ts_expr_text(cur_view(cur), e@),
        strings_view(final(convs)@) == strings_view(old(convs)@) + expr_convs(e@),
    decreases e, 0nat,
{
    let ghost before = out@;
    let ghost cb = strings_view(convs@);
    let ghost c = cur_view(cur);
    match e {
        LangExpr::CodecRead { codec } => {
            append_str(out, "await ");
            ts_write_expr(cur, out, convs, &**codec);
            append_str(out, ".read(reader)");
            assert(out@ =~= before + ts_expr_text(c, e@));
        },
        LangExpr::CreateEnum(_, _, _, case, value) => {
            append_str(out, "{ tag: \"");
            append_str(out, case.as_str());
            append_str(out, "\", ");
            let f = make_field_name(case.as_str());
            append_str(out, f.as_str());
            append_str(out, ": ");
            ts_write_expr(cur, out, convs, &**value);
            append_str(out, "}");
            assert(out@ =~= before + ts_expr_text(c, e@));
        },
        LangExpr::StructField(_, _, field, value) => {
            ts_write_expr(cur, out, convs, &**value);
            append_str(out, ".");
            let f = make_field_name(field.as_str());
            append_str(out, f.as_str());
            assert(out@ =~= before + ts_expr_text(c, e@));
        },
        _ => {
            proof {
                assert(false);
            }
        },
    }
}

/// Writes arguments in parentheses, if there are any, and adds the user
/// converters they call.
#[verifier::spinoff_prover]
fn ts_write_args(cur: Option<&QualifiedName>, out: &mut String, convs: &mut Vec<String>, es: &Vec<LangExpr>)
    ensures
        final(out)@ == old(out)@ + ts_args_text(cur_view(cur), lang_exprs_view(es@)),
        strings_view(final(convs)@) == strings_view(old(convs)@) + exprs_convs(lang_exprs_view(es@), es@.len()),
    decreases es, 0nat,
{
    proof {
        lemma_lang_exprs_view(es@);
    }
    let ghost ev = lang_exprs_view(es@);
    let ghost c = cur_view(cur);
    let ghost cb = strings_view(convs@);
    if es.len() == 0 {
        assert(out@ =~= old(out)@ + ts_args_text(c, ev));
        assert(strings_view(convs@) =~= cb + exprs_convs(ev, 0));
        return;
    }
    append_str(out, "(");
    let ghost start = out@;
    let mut i: usize = 0;
    while i < es.len()
        invariant
            i <= es@.len(),
            ev == lang_exprs_view(es@),
            ev.len() == es@.len(),
            forall|j: int| 0 <= j < es@.len() ==> #[trigger] ev[j] == es@[j]@,
            c == cur_view(cur),
            out@ == start + ts_exprs_joined(c, ev, i as nat),
            strings_view(convs@) == cb + exprs_convs(ev, i as nat),
        decreases es@.len() - i,
    {
        if i > 0 {
            append_str(out, ", ");
        }
        ts_write_expr(cur, out, convs, &es[i]);
        if i == 0 {
            assert(out@ =~= start + ts_exprs_joined(c, ev, 1));
        } else {
            assert(out@ =~= start + ts_exprs_joined(c, ev, (i + 1) as nat));
        }
        assert(strings_view(convs@) =~= cb + exprs_convs(ev, (i + 1) as nat));
        i = i + 1;
    }
    append_str(out, ")");
    assert(out@ =~= old(out)@ + ts_args_text(c, ev));
}

/// Writes the fields of a record literal for an operation, and adds the
/// user converters their values call.
#[verifier::spinoff_prover]
fn ts_write_record_args(cur: Option<&QualifiedName>, out: &mut String, convs: &mut Vec<String>, fields: &Vec<String>, es: &Vec<LangExpr>)
    ensures
        final(out)@ == old(out)@ + ts_record_args(cur_view(cur), strings_view(fields@), lang_exprs_view(es@),
            record_arg_count(strings_view(fields@), lang_exprs_view(es@))),
        strings_view(final(convs)@) == strings_view(old(convs)@) + exprs_convs(lang_exprs_view(es@),
            record_arg_count(strings_view(fields@), lang_exprs_view(es@))),
    decreases es, 0nat,
{
    proof {
        lemma_lang_exprs_view(es@);
    }
    let ghost ev = lang_exprs_view(es@);
    let ghost fv = strings_view(fields@);
    let ghost c = cur_view(cur);
    let ghost cb = strings_view(convs@);
    let ghost start = out@;
    let n = if fields.len() <= es.len() { fields.len() } else { es.len() };
    let mut i: usize = 0;
    while i < n
        invariant
            i <= n,
            n == record_arg_count(fv, ev),
            n <= es@.len(),
            n <= fields@.len(),
            ev == lang_exprs_view(es@),
            ev.len() == es@.len(),
            fv == strings_view(fields@),
            forall|j: int| 0 <= j < es@.len() ==> #[trigger] ev[j] == es@[j]@,
            c == cur_view(cur),
            out@ == start + ts_record_args(c, fv, ev, i as nat),
            strings_view(convs@) == cb + exprs_convs(ev, i as nat),
        decreases n - i,
    {
        let f = make_field_name(fields[i].as_str());
        append_str(out, f.as_str());
        append_str(out, ": ");
        ts_write_expr(cur, out, convs, &es[i]);
        append_str(out, ", ");
        assert(out@ =~= start + ts_record_args(c, fv, ev, (i + 1) as nat));
        assert(strings_view(convs@) =~= cb + exprs_convs(ev, (i + 1) as nat));
        i = i + 1;
    }
}

/// Writes the target of an operation.
#[verifier::spinoff_prover]
fn ts_write_target(cur: Option<&QualifiedName>, out: &mut String, t: &OperationTarget)
    ensures
        final(out)@ == old(out)@ + ts_target_text(cur_view(cur), t@),
{
    match t {
        OperationTarget::VersionedType(n, v) => {
            write_qualifier(cur, out, n);
            append_str(out, "V");
            let d = v.to_decimal();
            append_str(out, d.as_str());
            assert(out@ =~= old(out)@ + ts_target_text(cur_view(cur), t@));
        },
        OperationTarget::ExternType(n) => {
            write_import_name(out, n);
        },
    }
}

/// Writes a call of an operation.
#[verifier::spinoff_prover]
fn ts_write_invoke_operation(cur: Option<&QualifiedName>, out: &mut String, convs: &mut Vec<String>, e: &LangExpr)
    requires
        e is InvokeOperation,
    ensures
        final(out)@ == old(out)@ + ts_expr_text(cur_view(cur), e@),
        strings_view(final(convs)@) == strings_view(old(convs)@) + expr_convs(e@),
    decreases e, 0nat,
{
    let ghost before = out@;
    let ghost cb = strings_view(convs@);
    let ghost c = cur_view(cur);
    match e {
        LangExpr::InvokeOperation(op, target, targs, args) => {
            proof {
                lemma_lang_exprs_view(args@);
            }
            ts_write_target(cur, out, target);
            append_str(out, ".");
            write_operation_name(out, op);
            ts_write_type_args(cur, out, targs);
            let ghost mid = out@;
            match op {
                Operation::FromRecord(fields) => {
                    assert(fields@.map_values(|f: String| f@) =~= strings_view(fields@));
                    append_str(out, "({ ");
                    ts_write_record_args(cur, out, convs, fields, args);
                    append_str(out, "})");
                },
                _ => {
                    ts_write_args(cur, out, convs, args);
                },
            }
            assert(out@ =~= before + ts_expr_text(c, e@));
            assert(strings_view(convs@) =~= cb + expr_convs(e@));
        },
        _ => {
            proof {
                assert(false);
            }
        },
    }
}

/// Writes a call of a user converter, and adds it to `convs`.
#[verifier::spinoff_prover]
fn ts_write_user_converter(cur: Option<&QualifiedName>, out: &mut String, convs: &mut Vec<String>, e: &LangExpr)
    requires
        e is InvokeUserConverter,
    ensures
        final(out)@ == old(out)@ + ts_expr_text(cur_view(cur), e@),
        strings_view(final(convs)@) == strings_view(old(convs)@) + expr_convs(e@),
    decreases e, 0nat,
{
    let ghost before = out@;
    let ghost cb = strings_view(convs@);
    let ghost c = cur_view(cur);
    match e {
        LangExpr::InvokeUserConverter { name: _, prev_ver, version, type_args, args } => {
            proof {
                lemma_lang_exprs_view(args@);
            }
            let mut n = String::new();
            append_str(&mut n, "v");
            let p = prev_ver.to_decimal();
            append_str(&mut n, p.as_str());
            append_str(&mut n, "_to_v");
            let v = version.to_decimal();
            append_str(&mut n, v.as_str());
            assert(n@ =~= user_converter_name(prev_ver@, version@));
            append_str(out, n.as_str());
            let ghost nv = n@;
            let ghost c0 = convs@;
            convs.push(n);
            assert(strings_view(convs@) =~= strings_view(c0).push(nv));
            ts_write_type_args(cur, out, type_args);
            ts_write_args(cur, out, convs, args);
            assert(out@ =~= before + ts_expr_text(c, e@));
            assert(strings_view(convs@) =~= cb + expr_convs(e@));
        },
        _ => {
            proof {
                assert(false);
            }
        },
    }
}

/// Writes the fields of an object literal, and adds the user converters
/// their values call.
#[verifier::spinoff_prover]
fn ts_write_field_values(cur: Option<&QualifiedName>, out: &mut String, convs: &mut Vec<String>, fields: &Vec<(&String, LangExpr)>)
    ensures
        final(out)@ == old(out)@ + ts_field_values(cur_view(cur), named_exprs_view(fields@), fields@.len()),
        strings_view(final(convs)@) == strings_view(old(convs)@) + fields_convs(named_exprs_view(fields@), fields@.len()),
    decreases fields, 0nat,
{
    proof {
        lemma_named_exprs_view(fields@);
    }
    let ghost fv = named_exprs_view(fields@);
    let ghost c = cur_view(cur);
    let ghost cb = strings_view(convs@);
    let ghost start = out@;
    let mut i: usize = 0;
    while i < fields.len()
        invariant
            i <= fields@.len(),
            fv == named_exprs_view(fields@),
            fv.len() == fields@.len(),
            forall|j: int| 0 <= j < fields@.len() ==> #[trigger] fv[j] == (fields@[j].0@, fields@[j].1@),
            c == cur_view(cur),
            out@ == start + ts_field_values(c, fv, i as nat),
            strings_view(convs@) == cb + fields_convs(fv, i as nat),
        decreases fields@.len() - i,
    {
        let f = make_field_name(fields[i].0.as_str());
        append_str(out, f.as_str());
        append_str(out, ": ");
        ts_write_expr(cur, out, convs, &fields[i].1);
        append_str(out, ", ");
        assert(out@ =~= start + ts_field_values(c, fv, (i + 1) as nat));
        assert(strings_view(convs@) =~= cb + fields_convs(fv, (i + 1) as nat));
        i = i + 1;
    }
}

/// Writes an object literal for a struct value.
#[verifier::spinoff_prover]
fn ts_write_create_struct(cur: Option<&QualifiedName>, out: &mut String, convs: &mut Vec<String>, e: &LangExpr)
    requires
        e is CreateStruct,
    ensures
        final(out)@ == old(out)@ + ts_expr_text(cur_view(cur), e@),
        strings_view(final(convs)@) == strings_view(old(convs)@) + expr_convs(e@),
    decreases e, 0nat,
{
    let ghost before = out@;
    let ghost c = cur_view(cur);
    match e {
        LangExpr::CreateStruct(_, _, _, fields) => {
            proof {
                lemma_named_exprs_view(fields@);
            }
            append_str(out, "{ ");
            ts_write_field_values(cur, out, convs, fields);
            append_str(out, "}");
            assert(out@ =~= before + ts_expr_text(c, e@));
        },
        _ => {
            proof {
                assert(false);
            }
        },
    }
}


/// The TypeScript text of a statement at indentation `ind`.
pub open spec fn ts_stmt_text(cur: Option<NameView>, ind: nat, st: LangStmtV) -> Seq<char>
    decreases st, 0nat,
{
    match st {
        LangStmtV::Expr(es, res) => ts_expr_stmt_text(cur, ind, es, res),
        LangStmtV::MatchEnum(v, _, cases) => ts_match_enum_text(cur, ind, v, cases, has_value_spec(st)),
        LangStmtV::MatchDiscriminator(v, cases) => ts_match_disc_text(cur, ind, v, cases),
    }
}

/// Expression statements, each on a line of its own, then the return of
/// the result where there is one.
pub open spec fn ts_expr_stmt_text(cur: Option<NameView>, ind: nat, es: Seq<LangExprV>, res: Option<LangExprV>) -> Seq<char> {
    ts_expr_lines(cur, ind, es, es.len()) + match res {
        None => Seq::empty(),
        Some(r) => tabs(ind) + "return "@ + ts_expr_text(cur, r) + ";\n"@,
    }
}

/// The expressions `es[..n]`, each on a line of its own.
pub open spec fn ts_expr_lines(cur: Option<NameView>, ind: nat, es: Seq<LangExprV>, n: nat) -> Seq<char>
    decreases n,
{
    if n == 0 || n > es.len() {
        Seq::empty()
    } else {
        ts_expr_lines(cur, ind, es, (n - 1) as nat) + tabs(ind) + ts_expr_text(cur, es[n - 1]) + ";\n"@
    }
}

/// A switch on the tag of an enum value; where the match gives a value,
/// other tags give the value itself.
pub open spec fn ts_match_enum_text(cur: Option<NameView>, ind: nat, v: LangExprV, cases: Seq<(Seq<char>, Seq<char>, LangStmtV)>, hv: bool) -> Seq<char>
    decreases cases, cases.len() + 1,
{
    let vt = ts_expr_text(cur, v);
    tabs(ind) + "switch("@ + vt + ".tag) {\n"@ + ts_enum_cases(cur, deeper(ind), v, cases, cases.len())
        + (if hv { tabs(deeper(ind)) + "default: return "@ + vt + ";\n"@ } else { Seq::empty() })
        + tabs(ind) + "}\n"@
}

/// The cases `cases[..n]` of a switch on the tag of an enum value.
pub open spec fn ts_enum_cases(cur: Option<NameView>, ind: nat, v: LangExprV, cases: Seq<(Seq<char>, Seq<char>, LangStmtV)>, n: nat) -> Seq<char>
    decreases cases, n,
{
    if n == 0 || n > cases.len() {
        Seq::empty()
    } else {
        ts_enum_cases(cur, ind, v, cases, (n - 1) as nat) + ts_enum_case(cur, ind, v, cases[n - 1])
    }
}

/// One case of a switch on the tag of an enum value: it binds the case's
/// value and runs its body, and ends with `break;` unless that gives a value.
pub open spec fn ts_enum_case(cur: Option<NameView>, ind: nat, v: LangExprV, c: (Seq<char>, Seq<char>, LangStmtV)) -> Seq<char>
    decreases c, 1nat,
{
    let i2 = deeper(ind);
    tabs(ind) + "case \""@ + c.1 + "\":\n"@ + tabs(ind) + "{\n"@
        + tabs(i2) + "const "@ + c.0 + " = "@ + ts_expr_text(cur, v) + "."@ + uncapitalized(c.1) + ";\n"@
        + ts_stmt_text(cur, i2, c.2)
        + (if has_value_spec(c.2) { Seq::empty() } else { tabs(i2) + "break;\n"@ })
        + tabs(ind) + "}\n"@
}

/// A switch on a discriminator, whose default case throws.
pub open spec fn ts_match_disc_text(cur: Option<NameView>, ind: nat, v: LangExprV, cases: Seq<(nat, LangStmtV)>) -> Seq<char>
    decreases cases, cases.len() + 1,
{
    tabs(ind) + "switch("@ + ts_expr_text(cur, v) + ") {\n"@ + ts_disc_cases(cur, deeper(ind), cases, cases.len())
        + tabs(deeper(ind)) + "default: throw new Error(\"Unknown tag\");"@ + tabs(ind) + "}\n"@
}

/// The cases `cases[..n]` of a switch on a discriminator.
pub open spec fn ts_disc_cases(cur: Option<NameView>, ind: nat, cases: Seq<(nat, LangStmtV)>, n: nat) -> Seq<char>
    decreases cases, n,
{
    if n == 0 || n > cases.len() {
        Seq::empty()
    } else {
        ts_disc_cases(cur, ind, cases, (n - 1) as nat) + ts_disc_case(cur, ind, cases[n - 1])
    }
}

/// One case of a switch on a discriminator.
pub open spec fn ts_disc_case(cur: Option<NameView>, ind: nat, c: (nat, LangStmtV)) -> Seq<char>
    decreases c, 1nat,
{
    let i2 = deeper(ind);
    tabs(ind) + "case "@ + decimal_text(c.0) + "n:\n"@ + tabs(ind) + "{\n"@ + ts_stmt_text(cur, i2, c.1)
        + (if has_value_spec(c.1) { Seq::empty() } else { tabs(i2) + "break;\n"@ })
        + tabs(ind) + "}\n"@
}

/// The user converters that a statement calls, in the order they are written.
pub open spec fn stmt_convs(st: LangStmtV) -> Seq<Seq<char>>
    decreases st, 0nat,
{
    match st {
        LangStmtV::Expr(es, res) => exprs_convs(es, es.len()) + match res {
            None => Seq::empty(),
            Some(r) => expr_convs(r),
        },
        LangStmtV::MatchEnum(v, _, cases) => match_enum_convs(v, cases, has_value_spec(st)),
        LangStmtV::MatchDiscriminator(v, cases) => expr_convs(v) + disc_cases_convs(cases, cases.len()),
    }
}

/// The user converters that a switch on the tag of an enum value calls.
pub open spec fn match_enum_convs(v: LangExprV, cases: Seq<(Seq<char>, Seq<char>, LangStmtV)>, hv: bool) -> Seq<Seq<char>>
    decreases cases, cases.len() + 1,
{
    expr_convs(v) + enum_cases_convs(v, cases, cases.len()) + (if hv { expr_convs(v) } else { Seq::empty() })
}

/// The user converters that the cases `cases[..n]` of a switch on the tag
/// of an enum value call.
pub open spec fn enum_cases_convs(v: LangExprV, cases: Seq<(Seq<char>, Seq<char>, LangStmtV)>, n: nat) -> Seq<Seq<char>>
    decreases cases, n,
{
    if n == 0 || n > cases.len() {
        Seq::empty()
    } else {
        enum_cases_convs(v, cases, (n - 1) as nat) + enum_case_convs(v, cases[n - 1])
    }
}

/// The user converters that one case of a switch on the tag of an enum
/// value calls.
pub open spec fn enum_case_convs(v: LangExprV, c: (Seq<char>, Seq<char>, LangStmtV)) -> Seq<Seq<char>>
    decreases c, 1nat,
{
    expr_convs(v) + stmt_convs(c.2)
}

/// The user converters that the cases `cases[..n]` of a switch on a
/// discriminator call.
pub open spec fn disc_cases_convs(cases: Seq<(nat, LangStmtV)>, n: nat) -> Seq<Seq<char>>
    decreases cases, n,
{
    if n == 0 || n > cases.len() {
        Seq::empty()
    } else {
        disc_cases_convs(cases, (n - 1) as nat) + disc_case_convs(cases[n - 1])
    }
}

/// The user converters that one case of a switch on a discriminator calls.
pub open spec fn disc_case_convs(c: (nat, LangStmtV)) -> Seq<Seq<char>>
    decreases c, 1nat,
{
    stmt_convs(c.1)
}

/// Writes the TypeScript text of a statement at indentation `ind`, and adds
/// the user converters it calls to `convs`.
#[verifier::spinoff_prover]
pub fn ts_write_statement(cur: Option<&QualifiedName>, out: &mut String, convs: &mut Vec<String>, ind: usize, st: &LangStmt)
    ensures
        final(out)@ == old(out)@ + ts_stmt_text(cur_view(cur), ind as nat, st@),
        strings_view(final(convs)@) == strings_view(old(convs)@) + stmt_convs(st@),
    decreases st, 2nat,
{
    match st {
        LangStmt::Expr(es, res) => {
            proof {
                lemma_lang_exprs_view(es@);
            }
            ts_write_expr_stmt(cur, out, convs, ind, es, res);
        },
        LangStmt::MatchEnum { value, value_type: _, cases } => {
            proof {
                lemma_match_cases_view(cases@);
            }
            let hv = st.has_value();
            ts_write_match_enum(cur, out, convs, ind, value, cases, hv);
        },
        LangStmt::MatchDiscriminator { value, cases } => {
            proof {
                lemma_disc_cases_view(cases@);
            }
            ts_write_match_disc(cur, out, convs, ind, value, cases);
        },
    }
}

/// Writes expression statements and the returned value.
#[verifier::spinoff_prover]
fn ts_write_expr_stmt(cur: Option<&QualifiedName>, out: &mut String, convs: &mut Vec<String>, ind: usize, es: &Vec<LangExpr>, res: &Option<LangExpr>)
    ensures
        final(out)@ == old(out)@ + ts_expr_stmt_text(cur_view(cur), ind as nat, lang_exprs_view(es@), opt_expr_view(*res)),
        strings_view(final(convs)@) == strings_view(old(convs)@) + exprs_convs(lang_exprs_view(es@), es@.len()) + match opt_expr_view(*res) {
            None => Seq::<Seq<char>>::empty(),
            Some(r) => expr_convs(r),
        },
{
    proof {
        lemma_lang_exprs_view(es@);
    }
    let ghost ev = lang_exprs_view(es@);
    let ghost c = cur_view(cur);
    let ghost cb = strings_view(convs@);
    let ghost start = out@;
    let mut i: usize = 0;
    while i < es.len()
        invariant
            i <= es@.len(),
            ev == lang_exprs_view(es@),
            ev.len() == es@.len(),
            forall|j: int| 0 <= j < es@.len() ==> #[trigger] ev[j] == es@[j]@,
            c == cur_view(cur),
            out@ == start + ts_expr_lines(c, ind as nat, ev, i as nat),
            strings_view(convs@) == cb + exprs_convs(ev, i as nat),
        decreases es@.len() - i,
    {
        write_indent(out, ind);
        ts_write_expr(cur, out, convs, &es[i]);
        append_str(out, ";\n");
        assert(out@ =~= start + ts_expr_lines(c, ind as nat, ev, (i + 1) as nat));
        assert(strings_view(convs@) =~= cb + exprs_convs(ev, (i + 1) as nat));
        i = i + 1;
    }
    let ghost mid = out@;
    let ghost cm = strings_view(convs@);
    match res {
        None => {
            assert(out@ =~= start + ts_expr_stmt_text(c, ind as nat, ev, opt_expr_view(*res)));
            assert(strings_view(convs@) =~= cb + exprs_convs(ev, es@.len()) + Seq::<Seq<char>>::empty());
        },
        Some(r) => {
            write_indent(out, ind);
            append_str(out, "return ");
            ts_write_expr(cur, out, convs, r);
            append_str(out, ";\n");
            assert(out@ =~= start + ts_expr_stmt_text(c, ind as nat, ev, opt_expr_view(*res)));
            assert(strings_view(convs@) =~= cb + exprs_convs(ev, es@.len()) + expr_convs(r@));
        },
    }
}

/// Writes one case of a switch on the tag of an enum value.
#[verifier::spinoff_prover]
#[verifier::rlimit(40)]
fn ts_write_enum_case(cur: Option<&QualifiedName>, out: &mut String, convs: &mut Vec<String>, ind: usize, value: &LangExpr, c: &MatchCase)
    ensures
        final(out)@ == old(out)@ + ts_enum_case(cur_view(cur), ind as nat, value@, (c.binding_name@, c.case_name@, c.body@)),
        strings_view(final(convs)@) == strings_view(old(convs)@) + enum_case_convs(value@, (c.binding_name@, c.case_name@, c.body@)),
    decreases c, 0nat,
{
    let ghost before = out@;
    let ghost cb = strings_view(convs@);
    let ghost cv = cur_view(cur);
    let i2 = deeper_exec(ind);
    write_indent(out, ind);
    append_str(out, "case \"");
    append_str(out, c.case_name.as_str());
    append_str(out, "\":\n");
    write_indent(out, ind);
    append_str(out, "{\n");
    write_indent(out, i2);
    append_str(out, "const ");
    append_str(out, c.binding_name.as_str());
    append_str(out, " = ");
    ts_write_expr(cur, out, convs, value);
    append_str(out, ".");
    let f = make_field_name(c.case_name.as_str());
    append_str(out, f.as_str());
    append_str(out, ";\n");
    let ghost head = tabs(ind as nat) + "case \""@ + c.case_name@ + "\":\n"@ + tabs(ind as nat) + "{\n"@
        + tabs(i2 as nat) + "const "@ + c.binding_name@ + " = "@ + ts_expr_text(cv, value@) + "."@ + uncapitalized(c.case_name@) + ";\n"@;
    assert(out@ =~= before + head);
    ts_write_statement(cur, out, convs, i2, &c.body);
    let ghost mid = out@;
    if !c.body.has_value() {
        write_indent(out, i2);
        append_str(out, "break;\n");
    }
    let ghost brk = if has_value_spec(c.body@) { Seq::<char>::empty() } else { tabs(i2 as nat) + "break;\n"@ };
    assert(out@ =~= mid + brk);
    write_indent(out, ind);
    append_str(out, "}\n");
    assert(out@ =~= before + (head + ts_stmt_text(cv, i2 as nat, c.body@) + brk + tabs(ind as nat) + "}\n"@));
    assert(strings_view(convs@) =~= cb + (expr_convs(value@) + stmt_convs(c.body@)));
}

/// Writes a switch on the tag of an enum value.
#[verifier::spinoff_prover]
fn ts_write_match_enum(cur: Option<&QualifiedName>, out: &mut String, convs: &mut Vec<String>, ind: usize, value: &LangExpr, cases: &Vec<MatchCase>, hv: bool)
    ensures
        final(out)@ == old(out)@ + ts_match_enum_text(cur_view(cur), ind as nat, value@, match_cases_view(cases@), hv),
        strings_view(final(convs)@) == strings_view(old(convs)@) + match_enum_convs(value@, match_cases_view(cases@), hv),
    decreases cases, 1nat,
{
    proof {
        lemma_match_cases_view(cases@);
    }
    let ghost before = out@;
    let ghost cb = strings_view(convs@);
    let ghost cv = cur_view(cur);
    let ghost mv = match_cases_view(cases@);
    let i1 = deeper_exec(ind);
    write_indent(out, ind);
    append_str(out, "switch(");
    ts_write_expr(cur, out, convs, value);
    append_str(out, ".tag) {\n");
    let ghost head = tabs(ind as nat) + "switch("@ + ts_expr_text(cv, value@) + ".tag) {\n"@;
    assert(out@ =~= before + head);
    let ghost start = out@;
    let ghost cs = strings_view(convs@);
    let mut i: usize = 0;
    while i < cases.len()
        invariant
            i <= cases@.len(),
            mv == match_cases_view(cases@),
            mv.len() == cases@.len(),
            forall|j: int| 0 <= j < cases@.len() ==> #[trigger] mv[j]
                == (cases@[j].binding_name@, cases@[j].case_name@, cases@[j].body@),
            cv == cur_view(cur),
            i1 == deeper(ind as nat),
            out@ == start + ts_enum_cases(cv, i1 as nat, value@, mv, i as nat),
            strings_view(convs@) == cs + enum_cases_convs(value@, mv, i as nat),
        decreases cases@.len() - i,
    {
        ts_write_enum_case(cur, out, convs, i1, value, &cases[i]);
        assert(out@ =~= start + ts_enum_cases(cv, i1 as nat, value@, mv, (i + 1) as nat));
        assert(strings_view(convs@) =~= cs + enum_cases_convs(value@, mv, (i + 1) as nat));
        i = i + 1;
    }
    let ghost body = ts_enum_cases(cv, i1 as nat, value@, mv, mv.len());
    let ghost cm = strings_view(convs@);
    if hv {
        write_indent(out, i1);
        append_str(out, "default: return ");
        ts_write_expr(cur, out, convs, value);
        append_str(out, ";\n");
    }
    let ghost dflt = if hv { tabs(i1 as nat) + "default: return "@ + ts_expr_text(cv, value@) + ";\n"@ } else { Seq::<char>::empty() };
    write_indent(out, ind);
    append_str(out, "}\n");
    assert(out@ =~= before + (head + body + dflt + tabs(ind as nat) + "}\n"@));
    assert(strings_view(convs@) =~= cb + (expr_convs(value@) + enum_cases_convs(value@, mv, mv.len())
        + (if hv { expr_convs(value@) } else { Seq::<Seq<char>>::empty() })));
}

/// Writes one case of a switch on a discriminator.
#[verifier::spinoff_prover]
#[verifier::rlimit(40)]
fn ts_write_disc_case(cur: Option<&QualifiedName>, out: &mut String, convs: &mut Vec<String>, ind: usize, c: &(BigNat, LangStmt))
    ensures
        final(out)@ == old(out)@ + ts_disc_case(cur_view(cur), ind as nat, (c.0@, c.1@)),
        strings_view(final(convs)@) == strings_view(old(convs)@) + disc_case_convs((c.0@, c.1@)),
    decreases c, 0nat,
{
    let ghost before = out@;
    let ghost cb = strings_view(convs@);
    let ghost cv = cur_view(cur);
    let i2 = deeper_exec(ind);
    write_indent(out, ind);
    append_str(out, "case ");
    let d = c.0.to_decimal();
    append_str(out, d.as_str());
    append_str(out, "n:\n");
    write_indent(out, ind);
    append_str(out, "{\n");
    let ghost head = tabs(ind as nat) + "case "@ + decimal_text(c.0@) + "n:\n"@ + tabs(ind as nat) + "{\n"@;
    assert(out@ =~= before + head);
    ts_write_statement(cur, out, convs, i2, &c.1);
    let ghost mid = out@;
    if !c.1.has_value() {
        write_indent(out, i2);
        append_str(out, "break;\n");
    }
    let ghost brk = if has_value_spec(c.1@) { Seq::<char>::empty() } else { tabs(i2 as nat) + "break;\n"@ };
    assert(out@ =~= mid + brk);
    write_indent(out, ind);
    append_str(out, "}\n");
    assert(out@ =~= before + (head + ts_stmt_text(cv, i2 as nat, c.1@) + brk + tabs(ind as nat) + "}\n"@));
    assert(strings_view(convs@) == cb + disc_case_convs((c.0@, c.1@)));
}

/// Writes a switch on a discriminator.
#[verifier::spinoff_prover]
fn ts_write_match_disc(cur: Option<&QualifiedName>, out: &mut String, convs: &mut Vec<String>, ind: usize, value: &LangExpr, cases: &Vec<(BigNat, LangStmt)>)
    ensures
        final(out)@ == old(out)@ + ts_match_disc_text(cur_view(cur), ind as nat, value@, disc_cases_view(cases@)),
        strings_view(final(convs)@) == strings_view(old(convs)@) + expr_convs(value@) + disc_cases_convs(disc_cases_view(cases@), cases@.len()),
    decreases cases, 1nat,
{
    proof {
        lemma_disc_cases_view(cases@);
    }
    let ghost before = out@;
    let ghost cb = strings_view(convs@);
    let ghost cv = cur_view(cur);
    let ghost dv = disc_cases_view(cases@);
    let i1 = deeper_exec(ind);
    write_indent(out, ind);
    append_str(out, "switch(");
    ts_write_expr(cur, out, convs, value);
    append_str(out, ") {\n");
    let ghost head = tabs(ind as nat) + "switch("@ + ts_expr_text(cv, value@) + ") {\n"@;
    assert(out@ =~= before + head);
    let ghost start = out@;
    let ghost cs = strings_view(convs@);
    let mut i: usize = 0;
    while i < cases.len()
        invariant
            i <= cases@.len(),
            dv == disc_cases_view(cases@),
            dv.len() == cases@.len(),
            forall|j: int| 0 <= j < cases@.len() ==> #[trigger] dv[j] == (cases@[j].0@, cases@[j].1@),
            cv == cur_view(cur),
            i1 == deeper(ind as nat),
            out@ == start + ts_disc_cases(cv, i1 as nat, dv, i as nat),
            strings_view(convs@) == cs + disc_cases_convs(dv, i as nat),
        decreases cases@.len() - i,
    {
        ts_write_disc_case(cur, out, convs, i1, &cases[i]);
        assert(out@ =~= start + ts_disc_cases(cv, i1 as nat, dv, (i + 1) as nat));
        assert(strings_view(convs@) =~= cs + disc_cases_convs(dv, (i + 1) as nat));
        i = i + 1;
    }
    write_indent(out, i1);
    append_str(out, "default: throw new Error(\"Unknown tag\");");
    write_indent(out, ind);
    append_str(out, "}\n");
    assert(out@ =~= before + (head + ts_disc_cases(cv, i1 as nat, dv, dv.len()) + tabs(i1 as nat)
        + "default: throw new Error(\"Unknown tag\");"@ + tabs(ind as nat) + "}\n"@));
}


/// An object literal of a codec for the type `t`, whose `read` and `write`
/// methods run `read` and `write`, ending at indentation `ind`.
pub open spec fn ts_codec_text(cur: Option<NameView>, ind: nat, t: LangTypeV, read: LangStmtV, write: LangStmtV) -> Seq<char> {
    let i1 = deeper(ind);
    let i2 = deeper(i1);
    "{\n"@
        + tabs(i1) + "async read(reader: FormatReader): Promise<"@ + ts_type_text(cur, t) + "> {\n"@
        + ts_stmt_text(cur, i2, read) + tabs(i1) + "},\n"@
        + tabs(i1) + "async write(writer: FormatWriter, value: "@ + ts_type_text(cur, t) + "): Promise<void> {\n"@
        + ts_stmt_text(cur, i2, write) + tabs(i1) + "},\n"@
        + tabs(ind) + "};\n"@
}

/// An object literal of a converter from `from` to `to`, whose `convert`
/// method runs `body`, ending at indentation `ind`.
pub open spec fn ts_converter_text(cur: Option<NameView>, ind: nat, from: LangTypeV, to: LangTypeV, body: LangStmtV) -> Seq<char> {
    let i1 = deeper(ind);
    let i2 = deeper(i1);
    "{\n"@
        + tabs(i1) + "convert(prev: "@ + ts_type_text(cur, from) + "): "@ + ts_type_text(cur, to) + " {\n"@
        + ts_stmt_text(cur, i2, body) + tabs(i1) + "},\n"@
        + tabs(ind) + "};\n"@
}

/// How an operation is carried out, as TypeScript text: an expression, or an
/// object literal of a codec or a converter. Unless `is_expr`, it is
/// returned from a function body at indentation `ind`.
pub open spec fn ts_impl_text(cur: Option<NameView>, ind: nat, s: LangExprStmtV, is_expr: bool) -> Seq<char> {
    (if is_expr { Seq::<char>::empty() } else { tabs(ind) + "return "@ }) + ts_impl_body(cur, ind, s)
}

/// How an operation is carried out, after any `return`.
pub open spec fn ts_impl_body(cur: Option<NameView>, ind: nat, s: LangExprStmtV) -> Seq<char> {
    match s {
        LangExprStmtV::Expr(e) => ts_expr_text(cur, e) + ";\n"@,
        LangExprStmtV::CreateCodec(t, read, write) => ts_codec_text(cur, ind, t, read, write),
        LangExprStmtV::CreateConverter(from, to, body) => ts_converter_text(cur, ind, from, to, body),
    }
}

/// The user converters that the way an operation is carried out calls.
pub open spec fn impl_convs(s: LangExprStmtV) -> Seq<Seq<char>> {
    match s {
        LangExprStmtV::Expr(e) => expr_convs(e),
        LangExprStmtV::CreateCodec(_, read, write) => stmt_convs(read) + stmt_convs(write),
        LangExprStmtV::CreateConverter(_, _, body) => stmt_convs(body),
    }
}

/// Writes the object literal of a codec.
#[verifier::spinoff_prover]
fn ts_write_codec(cur: Option<&QualifiedName>, out: &mut String, convs: &mut Vec<String>, ind: usize, t: &LangType, read: &LangStmt, write: &LangStmt)
    ensures
        final(out)@ == old(out)@ + ts_codec_text(cur_view(cur), ind as nat, t@, read@, write@),
        strings_view(final(convs)@) == strings_view(old(convs)@) + stmt_convs(read@) + stmt_convs(write@),
{
    let ghost before = out@;
    let ghost cv = cur_view(cur);
    let i1 = deeper_exec(ind);
    let i2 = deeper_exec(i1);
    append_str(out, "{\n");
    write_indent(out, i1);
    append_str(out, "async read(reader: FormatReader): Promise<");
    ts_write_type(cur, out, t);
    append_str(out, "> {\n");
    let ghost p1 = "{\n"@ + tabs(i1 as nat) + "async read(reader: FormatReader): Promise<"@ + ts_type_text(cv, t@) + "> {\n"@;
    assert(out@ =~= before + p1);
    ts_write_statement(cur, out, convs, i2, read);
    write_indent(out, i1);
    append_str(out, "},\n");
    write_indent(out, i1);
    append_str(out, "async write(writer: FormatWriter, value: ");
    ts_write_type(cur, out, t);
    append_str(out, "): Promise<void> {\n");
    let ghost p2 = p1 + ts_stmt_text(cv, i2 as nat, read@) + tabs(i1 as nat) + "},\n"@
        + tabs(i1 as nat) + "async write(writer: FormatWriter, value: "@ + ts_type_text(cv, t@) + "): Promise<void> {\n"@;
    assert(out@ =~= before + p2);
    ts_write_statement(cur, out, convs, i2, write);
    write_indent(out, i1);
    append_str(out, "},\n");
    write_indent(out, ind);
    append_str(out, "};\n");
    assert(out@ =~= before + (p2 + ts_stmt_text(cv, i2 as nat, write@) + tabs(i1 as nat) + "},\n"@ + tabs(ind as nat) + "};\n"@));
}

/// Writes the object literal of a converter.
#[verifier::spinoff_prover]
fn ts_write_converter(cur: Option<&QualifiedName>, out: &mut String, convs: &mut Vec<String>, ind: usize, from: &LangType, to: &LangType, body: &LangStmt)
    ensures
        final(out)@ == old(out)@ + ts_converter_text(cur_view(cur), ind as nat, from@, to@, body@),
        strings_view(final(convs)@) == strings_view(old(convs)@) + stmt_convs(body@),
{
    let ghost before = out@;
    let ghost cv = cur_view(cur);
    let i1 = deeper_exec(ind);
    let i2 = deeper_exec(i1);
    append_str(out, "{\n");
    write_indent(out, i1);
    append_str(out, "convert(prev: ");
    ts_write_type(cur, out, from);
    append_str(out, "): ");
    ts_write_type(cur, out, to);
    append_str(out, " {\n");
    let ghost p1 = "{\n"@ + tabs(i1 as nat) + "convert(prev: "@ + ts_type_text(cv, from@) + "): "@ + ts_type_text(cv, to@) + " {\n"@;
    assert(out@ =~= before + p1);
    ts_write_statement(cur, out, convs, i2, body);
    write_indent(out, i1);
    append_str(out, "},\n");
    write_indent(out, ind);
    append_str(out, "};\n");
    assert(out@ =~= before + (p1 + ts_stmt_text(cv, i2 as nat, body@) + tabs(i1 as nat) + "},\n"@ + tabs(ind as nat) + "};\n"@));
}

/// Writes how an operation is carried out, and adds the user converters it
/// calls to `convs`.
#[verifier::spinoff_prover]
pub fn ts_write_impl(cur: Option<&QualifiedName>, out: &mut String, convs: &mut Vec<String>, ind: usize, s: &LangExprStmt, is_expr: bool)
    ensures
        final(out)@ == old(out)@ + ts_impl_text(cur_view(cur), ind as nat, s@, is_expr),
        strings_view(final(convs)@) == strings_view(old(convs)@) + impl_convs(s@),
{
    let ghost before = out@;
    let ghost cv = cur_view(cur);
    if !is_expr {
        write_indent(out, ind);
        append_str(out, "return ");
    }
    let ghost head = if is_expr { Seq::<char>::empty() } else { tabs(ind as nat) + "return "@ };
    assert(out@ =~= before + head);
    let ghost mid = out@;
    match s {
        LangExprStmt::Expr(e) => {
            ts_write_expr(cur, out, convs, e);
            append_str(out, ";\n");
            assert(out@ =~= mid + (ts_expr_text(cv, e@) + ";\n"@));
        },
        LangExprStmt::CreateCodec { t, read, write } => {
            ts_write_codec(cur, out, convs, ind, t, read, write);
        },
        LangExprStmt::CreateConverter { from_type, to_type, body } => {
            ts_write_converter(cur, out, convs, ind, from_type, to_type, body);
        },
    }
    assert(out@ == mid + ts_impl_body(cv, ind as nat, s@));
    assert(out@ =~= before + ts_impl_text(cv, ind as nat, s@, is_expr));
}

/// The parameters `ps[..n]` of a function, each with its type, separated by
/// commas.
pub open spec fn ts_params_text(cur: Option<NameView>, ps: Seq<(Seq<char>, LangTypeV)>, n: nat) -> Seq<char>
    decreases n,
{
    if n == 0 || n > ps.len() {
        Seq::empty()
    } else {
        ts_params_text(cur, ps, (n - 1) as nat) + (if n == 1 { Seq::empty() } else { ", "@ }) + ps[n - 1].0 + ": "@
            + ts_type_text(cur, ps[n - 1].1)
    }
}

/// Writes the parameters of a function.
#[verifier::spinoff_prover]
fn ts_write_params(cur: Option<&QualifiedName>, out: &mut String, ps: &Vec<(String, LangType)>)
    ensures
        final(out)@ == old(out)@ + ts_params_text(cur_view(cur), type_args_view(ps@), ps@.len()),
{
    proof {
        lemma_type_args_view(ps@);
    }
    let ghost pv = type_args_view(ps@);
    let ghost cv = cur_view(cur);
    let ghost start = out@;
    let mut i: usize = 0;
    while i < ps.len()
        invariant
            i <= ps@.len(),
            pv == type_args_view(ps@),
            pv.len() == ps@.len(),
            forall|j: int| 0 <= j < ps@.len() ==> #[trigger] pv[j] == (ps@[j].0@, ps@[j].1@),
            cv == cur_view(cur),
            out@ == start + ts_params_text(cv, pv, i as nat),
        decreases ps@.len() - i,
    {
        if i > 0 {
            append_str(out, ", ");
        }
        append_str(out, ps[i].0.as_str());
        append_str(out, ": ");
        ts_write_type(cur, out, &ps[i].1);
        assert(out@ =~= start + ts_params_text(cv, pv, (i + 1) as nat));
        i = i + 1;
    }
}

/// The declaration of an operation up to its type.
pub open spec fn ts_operation_head(cur: Option<NameView>, ind: nat, op: OperationInfoV) -> Seq<char> {
    let f = is_func(op);
    tabs(ind) + "export "@ + (if f { "function "@ } else { "const "@ }) + operation_name_text(op.operation) + type_params_text(op.type_params)
        + (if f { "("@ + ts_params_text(cur, op.params, op.params.len()) + ")"@ } else { Seq::empty() })
        + ": "@ + ts_type_text(cur, op.result)
}

/// An operation as an exported member of a version's namespace at
/// indentation `ind`: a function where it takes type parameters or
/// parameters, else a constant.
#[verifier::opaque]
pub open spec fn ts_operation_text(cur: Option<NameView>, ind: nat, op: OperationInfoV) -> Seq<char> {
    ts_operation_head(cur, ind, op) + if is_func(op) {
        " {\n"@ + ts_impl_text(cur, deeper(ind), op.implementation, false) + tabs(ind) + "}\n"@
    } else {
        " = "@ + ts_impl_text(cur, ind, op.implementation, true)
    }
}

/// Writes the declaration of an operation up to its type.
#[verifier::spinoff_prover]
fn ts_write_operation_head(cur: Option<&QualifiedName>, out: &mut String, ind: usize, op: &OperationInfo)
    ensures
        final(out)@ == old(out)@ + ts_operation_head(cur_view(cur), ind as nat, op@),
{
    proof {
        lemma_type_args_view(op.params@);
    }
    let f = op.type_params.len() > 0 || op.params.len() > 0;
    assert(f == is_func(op@));
    write_indent(out, ind);
    append_str(out, "export ");
    if f {
        append_str(out, "function ");
    } else {
        append_str(out, "const ");
    }
    write_operation_name(out, &op.operation);
    write_type_params(out, &op.type_params);
    if f {
        append_str(out, "(");
        ts_write_params(cur, out, &op.params);
        append_str(out, ")");
    }
    append_str(out, ": ");
    ts_write_type(cur, out, &op.result);
    assert(out@ =~= old(out)@ + ts_operation_head(cur_view(cur), ind as nat, op@));
}

/// Writes an operation as an exported member, and adds the user converters
/// it calls to `convs`.
#[verifier::spinoff_prover]
pub fn ts_write_operation(cur: Option<&QualifiedName>, out: &mut String, convs: &mut Vec<String>, ind: usize, op: &OperationInfo)
    ensures
        final(out)@ == old(out)@ + ts_operation_text(cur_view(cur), ind as nat, op@),
        strings_view(final(convs)@) == strings_view(old(convs)@) + impl_convs(op@.implementation),
{
    reveal(ts_operation_text);
    let ghost before = out@;
    let ghost cv = cur_view(cur);
    ts_write_operation_head(cur, out, ind, op);
    let ghost head = ts_operation_head(cv, ind as nat, op@);
    let f = op.type_params.len() > 0 || op.params.len() > 0;
    assert(f == is_func(op@));
    if f {
        append_str(out, " {\n");
        let inner = deeper_exec(ind);
        ts_write_impl(cur, out, convs, inner, &op.implementation, false);
        write_indent(out, ind);
        append_str(out, "}\n");
        assert(out@ =~= before + (head + (" {\n"@ + ts_impl_text(cv, deeper(ind as nat), op@.implementation, false) + tabs(ind as nat) + "}\n"@)));
    } else {
        append_str(out, " = ");
        ts_write_impl(cur, out, convs, ind, &op.implementation, true);
        assert(out@ =~= before + (head + (" = "@ + ts_impl_text(cv, ind as nat, op@.implementation, true))));
    }
}

/// The fields `fs[..n]` of a struct version's interface.
pub open spec fn ts_struct_fields(cur: Option<NameView>, fs: Seq<(Seq<char>, LangTypeV)>, n: nat) -> Seq<char>
    decreases n,
{
    if n == 0 || n > fs.len() {
        Seq::empty()
    } else {
        ts_struct_fields(cur, fs, (n - 1) as nat) + tabs(1) + "readonly "@ + uncapitalized(fs[n - 1].0) + ": "@
            + ts_type_text(cur, fs[n - 1].1) + ";\n"@
    }
}

/// The alternatives `fs[..n]` of an enum version's union type.
pub open spec fn ts_enum_alts(cur: Option<NameView>, fs: Seq<(Seq<char>, LangTypeV)>, n: nat) -> Seq<char>
    decreases n,
{
    if n == 0 || n > fs.len() {
        Seq::empty()
    } else {
        ts_enum_alts(cur, fs, (n - 1) as nat) + (if n == 1 { Seq::empty() } else { "\n"@ + tabs(1) + "| "@ })
            + "{ readonly tag: \""@ + fs[n - 1].0 + "\", readonly "@ + uncapitalized(fs[n - 1].0) + ": "@
            + ts_type_text(cur, fs[n - 1].1) + ", }"@
    }
}

/// The declarations of a version of a struct (an interface) or an enum (a
/// union type), then the opening of its namespace.
#[verifier::opaque]
pub open spec fn ts_version_header(cur: Option<NameView>, tps: Seq<Seq<char>>, t: LangTypeV) -> Result<Seq<char>, GeneratorErrorV> {
    match t {
        LangTypeV::Versioned(VersionedTypeKind::Struct, _, v, _, f) => match fields_spec(f) {
            Err(e) => Err(e),
            Ok(fs) => Ok("export interface V"@ + decimal_text(v) + type_params_text(tps) + " {\n"@ + ts_struct_fields(cur, fs, fs.len())
                + "}\n"@ + "export namespace V"@ + decimal_text(v) + " {\n"@),
        },
        LangTypeV::Versioned(VersionedTypeKind::Enum, _, v, _, f) => match fields_spec(f) {
            Err(e) => Err(e),
            Ok(fs) => Ok("export type V"@ + decimal_text(v) + type_params_text(tps) + " = "@ + ts_enum_alts(cur, fs, fs.len())
                + (if fs.len() == 0 { "never"@ } else { Seq::empty() }) + ";\n"@
                + "export namespace V"@ + decimal_text(v) + " {\n"@),
        },
        _ => Err(GeneratorErrorV::CouldNotGenerateType),
    }
}

/// Writes the fields of a struct version's interface.
#[verifier::spinoff_prover]
fn ts_write_struct_fields(cur: Option<&QualifiedName>, out: &mut String, fs: &Vec<LangField>)
    ensures
        final(out)@ == old(out)@ + ts_struct_fields(cur_view(cur), lang_fields_view(fs@), fs@.len()),
{
    let ghost fv = lang_fields_view(fs@);
    let ghost cv = cur_view(cur);
    let ghost start = out@;
    let mut i: usize = 0;
    while i < fs.len()
        invariant
            i <= fs@.len(),
            fv == lang_fields_view(fs@),
            cv == cur_view(cur),
            out@ == start + ts_struct_fields(cv, fv, i as nat),
        decreases fs@.len() - i,
    {
        write_indent(out, 1);
        append_str(out, "readonly ");
        let f = make_field_name(fs[i].name.as_str());
        append_str(out, f.as_str());
        append_str(out, ": ");
        ts_write_type(cur, out, &fs[i].field_type);
        append_str(out, ";\n");
        assert(out@ =~= start + ts_struct_fields(cv, fv, (i + 1) as nat));
        i = i + 1;
    }
}

/// Writes the alternatives of an enum version's union type.
#[verifier::spinoff_prover]
fn ts_write_enum_alts(cur: Option<&QualifiedName>, out: &mut String, fs: &Vec<LangField>)
    ensures
        final(out)@ == old(out)@ + ts_enum_alts(cur_view(cur), lang_fields_view(fs@), fs@.len()),
{
    let ghost fv = lang_fields_view(fs@);
    let ghost cv = cur_view(cur);
    let ghost start = out@;
    let mut i: usize = 0;
    while i < fs.len()
        invariant
            i <= fs@.len(),
            fv == lang_fields_view(fs@),
            cv == cur_view(cur),
            out@ == start + ts_enum_alts(cv, fv, i as nat),
        decreases fs@.len() - i,
    {
        if i > 0 {
            append_str(out, "\n");
            write_indent(out, 1);
            append_str(out, "| ");
        }
        append_str(out, "{ readonly tag: \"");
        append_str(out, fs[i].name.as_str());
        append_str(out, "\", readonly ");
        let f = make_field_name(fs[i].name.as_str());
        append_str(out, f.as_str());
        append_str(out, ": ");
        ts_write_type(cur, out, &fs[i].field_type);
        append_str(out, ", }");
        assert(out@ =~= start + ts_enum_alts(cv, fv, (i + 1) as nat));
        i = i + 1;
    }
}

/// Writes the declarations of a version of a struct or enum and opens its
/// namespace.
#[verifier::spinoff_prover]
pub fn ts_write_version_header(cur: Option<&QualifiedName>, out: &mut String, tps: &Vec<String>, t: &LangType) -> (r: Result<(), GeneratorError>)
    ensures
        match ts_version_header(cur_view(cur), strings_view(tps@), t@) {
            Ok(x) => r is Ok && final(out)@ == old(out)@ + x,
            Err(e) => r matches Err(y) && y@ == e,
        },
{
    reveal(ts_version_header);
    let ghost before = out@;
    let ghost cv = cur_view(cur);
    let ghost tv = strings_view(tps@);
    match t {
        LangType::Versioned(kind, _, v, _, fields) => {
            let is_struct = match kind {
                VersionedTypeKind::Struct => true,
                VersionedTypeKind::Enum => false,
            };
            let fs = match fields.build() {
                Ok(fs) => fs,
                Err(e) => return Err(e),
            };
            let ghost fv = lang_fields_view(fs@);
            assert(fv.len() == fs@.len());
            let d = v.to_decimal();
            if is_struct {
                append_str(out, "export interface V");
                append_str(out, d.as_str());
                write_type_params(out, tps);
                append_str(out, " {\n");
                ts_write_struct_fields(cur, out, &fs);
                append_str(out, "}\n");
                append_str(out, "export namespace V");
                append_str(out, d.as_str());
                append_str(out, " {\n");
                assert(out@ =~= before + ("export interface V"@ + decimal_text(v@) + type_params_text(tv) + " {\n"@
                    + ts_struct_fields(cv, fv, fv.len()) + "}\n"@ + "export namespace V"@ + decimal_text(v@) + " {\n"@));
            } else {
                append_str(out, "export type V");
                append_str(out, d.as_str());
                write_type_params(out, tps);
                append_str(out, " = ");
                ts_write_enum_alts(cur, out, &fs);
                if fs.len() == 0 {
                    append_str(out, "never");
                }
                append_str(out, ";\n");
                append_str(out, "export namespace V");
                append_str(out, d.as_str());
                append_str(out, " {\n");
                assert(out@ =~= before + ("export type V"@ + decimal_text(v@) + type_params_text(tv) + " = "@
                    + ts_enum_alts(cv, fv, fv.len()) + (if fv.len() == 0 { "never"@ } else { Seq::<char>::empty() }) + ";\n"@
                    + "export namespace V"@ + decimal_text(v@) + " {\n"@));
            }
            Ok(())
        },
        _ => Err(GeneratorError::CouldNotGenerateType),
    }
}

/// The user converters imported after `pending[..n]` were seen, starting
/// from `imported`: each is imported once.
pub open spec fn imported_after(imported: Seq<Seq<char>>, pending: Seq<Seq<char>>, n: nat) -> Seq<Seq<char>>
    decreases n,
{
    if n == 0 || n > pending.len() {
        imported
    } else {
        let prev = imported_after(imported, pending, (n - 1) as nat);
        if prev.contains(pending[n - 1]) { prev } else { prev.push(pending[n - 1]) }
    }
}

/// The import lines for `pending[..n]`: one for each user converter not yet
/// imported, from the converter module of the type named `name`.
pub open spec fn conv_imports_text(imported: Seq<Seq<char>>, pending: Seq<Seq<char>>, name: Seq<char>, n: nat) -> Seq<char>
    decreases n,
{
    if n == 0 || n > pending.len() {
        Seq::empty()
    } else {
        let prev = imported_after(imported, pending, (n - 1) as nat);
        conv_imports_text(imported, pending, name, (n - 1) as nat) + if prev.contains(pending[n - 1]) {
            Seq::empty()
        } else {
            "import {"@ + pending[n - 1] + "} from \"./"@ + name + ".conv.js\";\n"@
        }
    }
}

/// Whether a list of strings holds `s`.
#[verifier::spinoff_prover]
fn strings_contain(v: &Vec<String>, s: &String) -> (r: bool)
    ensures
        r == strings_view(v@).contains(s@),
{
    let mut i: usize = 0;
    while i < v.len()
        invariant
            i <= v@.len(),
            forall|j: int| 0 <= j < i ==> v@[j]@ != s@,
        decreases v@.len() - i,
    {
        if crate::text::str_eq(v[i].as_str(), s.as_str()) {
            assert(strings_view(v@)[i as int] == s@);
            return true;
        }
        i = i + 1;
    }
    assert forall|j: int| 0 <= j < strings_view(v@).len() implies strings_view(v@)[j] != s@ by {
        assert(strings_view(v@)[j] == v@[j]@);
    }
    false
}

/// Closes a version's namespace and imports the user converters it called
/// that are not imported yet.
#[verifier::spinoff_prover]
pub fn ts_write_version_footer(out: &mut String, imported: &mut Vec<String>, pending: &Vec<String>, name: &str)
    ensures
        final(out)@ == old(out)@ + "}\n"@ + conv_imports_text(strings_view(old(imported)@), strings_view(pending@), name@, pending@.len()),
        strings_view(final(imported)@) == imported_after(strings_view(old(imported)@), strings_view(pending@), pending@.len()),
{
    append_str(out, "}\n");
    let ghost start = out@;
    let ghost iv = strings_view(imported@);
    let ghost pv = strings_view(pending@);
    let mut i: usize = 0;
    while i < pending.len()
        invariant
            i <= pending@.len(),
            pv == strings_view(pending@),
            pv.len() == pending@.len(),
            strings_view(imported@) == imported_after(iv, pv, i as nat),
            out@ == start + conv_imports_text(iv, pv, name@, i as nat),
        decreases pending@.len() - i,
    {
        assert(pv[i as int] == pending@[i as int]@);
        if !strings_contain(imported, &pending[i]) {
            append_str(out, "import {");
            append_str(out, pending[i].as_str());
            append_str(out, "} from \"./");
            append_str(out, name);
            append_str(out, ".conv.js\";\n");
            let ghost before = imported@;
            imported.push(pending[i].clone());
            assert(strings_view(imported@) =~= strings_view(before).push(pv[i as int]));
        }
        assert(out@ =~= start + conv_imports_text(iv, pv, name@, (i + 1) as nat));
        i = i + 1;
    }
}

/// The line of a struct version's interface that declares the field `f`:
/// its name, made lower case at the start, and the TypeScript text of its
/// own type.
pub open spec fn ts_field_line(cur: Option<NameView>, f: (Seq<char>, LangTypeV)) -> Seq<char> {
    seq!['\t'] + "readonly "@ + uncapitalized(f.0) + ": "@ + ts_type_text(cur, f.1) + ";\n"@
}

/// The interface of a struct version declares each field once, in field
/// order, each with its own name and its own type: the text for the first
/// `n` fields is their lines, one after the other.
pub proof fn lemma_struct_fields_lines(cur: Option<NameView>, fs: Seq<(Seq<char>, LangTypeV)>, n: nat)
    requires
        n <= fs.len(),
    ensures
        ts_struct_fields(cur, fs, n) == joined_with(Seq::new(n, |i: int| ts_field_line(cur, fs[i])), Seq::empty()),
    decreases n,
{
    assert(tabs(1) =~= seq!['\t']);
    if n > 0 {
        lemma_struct_fields_lines(cur, fs, (n - 1) as nat);
        let xs = Seq::new(n, |i: int| ts_field_line(cur, fs[i]));
        assert(xs.drop_last() =~= Seq::new((n - 1) as nat, |i: int| ts_field_line(cur, fs[i])));
        if n == 1 {
            assert(ts_struct_fields(cur, fs, 0) == Seq::<char>::empty());
            assert(ts_struct_fields(cur, fs, 1) =~= ts_field_line(cur, fs[0]));
        } else {
            assert(ts_struct_fields(cur, fs, n) =~= joined_with(xs, Seq::empty()));
        }
    }
}

/// The type arguments written are the types given, each with its own text,
/// in order, separated by ", ".
pub proof fn lemma_types_joined_each(cur: Option<NameView>, xs: Seq<LangTypeV>, n: nat)
    requires
        n <= xs.len(),
    ensures
        ts_types_joined(cur, xs, n) == joined_with(Seq::new(n, |i: int| ts_type_text(cur, xs[i])), ", "@),
    decreases n,
{
    if n > 0 {
        lemma_types_joined_each(cur, xs, (n - 1) as nat);
        let ys = Seq::new(n, |i: int| ts_type_text(cur, xs[i]));
        assert(ys.drop_last() =~= Seq::new((n - 1) as nat, |i: int| ts_type_text(cur, xs[i])));
        if n == 1 {
            assert(ts_types_joined(cur, xs, 0) == Seq::<char>::empty());
            assert(ts_types_joined(cur, xs, 1) =~= ys[0]);
        } else {
            assert(ts_types_joined(cur, xs, n) =~= joined_with(ys, ", "@));
        }
    }
}

/// The arguments written are the expressions given, each with its own
/// text, in order, separated by ", ".
pub proof fn lemma_exprs_joined_each(cur: Option<NameView>, xs: Seq<LangExprV>, n: nat)
    requires
        n <= xs.len(),
    ensures
        ts_exprs_joined(cur, xs, n) == joined_with(Seq::new(n, |i: int| ts_expr_text(cur, xs[i])), ", "@),
    decreases n,
{
    if n > 0 {
        lemma_exprs_joined_each(cur, xs, (n - 1) as nat);
        let ys = Seq::new(n, |i: int| ts_expr_text(cur, xs[i]));
        assert(ys.drop_last() =~= Seq::new((n - 1) as nat, |i: int| ts_expr_text(cur, xs[i])));
        if n == 1 {
            assert(ts_exprs_joined(cur, xs, 0) == Seq::<char>::empty());
            assert(ts_exprs_joined(cur, xs, 1) =~= ys[0]);
        } else {
            assert(ts_exprs_joined(cur, xs, n) =~= joined_with(ys, ", "@));
        }
    }
}

/// An object literal gives each field, in order, its own name and the text
/// of its own value, each followed by ", ".
pub proof fn lemma_field_values_each(cur: Option<NameView>, xs: Seq<(Seq<char>, LangExprV)>, n: nat)
    requires
        n <= xs.len(),
    ensures
        ts_field_values(cur, xs, n) == joined_with(Seq::new(n, |i: int| uncapitalized(xs[i].0) + ": "@ + ts_expr_text(cur, xs[i].1) + ", "@), Seq::empty()),
    decreases n,
{
    if n > 0 {
        lemma_field_values_each(cur, xs, (n - 1) as nat);
        let ys = Seq::new(n, |i: int| uncapitalized(xs[i].0) + ": "@ + ts_expr_text(cur, xs[i].1) + ", "@);
        assert(ys.drop_last() =~= Seq::new((n - 1) as nat, |i: int| uncapitalized(xs[i].0) + ": "@ + ts_expr_text(cur, xs[i].1) + ", "@));
        if n == 1 {
            assert(ts_field_values(cur, xs, 0) == Seq::<char>::empty());
            assert(ts_field_values(cur, xs, 1) =~= ys[0]);
        } else {
            assert(ts_field_values(cur, xs, n) =~= joined_with(ys, Seq::empty()));
        }
    }
}

/// The union type of an enum version has, for each case in order, the
/// alternative tagged with that case's name and holding that case's own
/// type, the alternatives separated by a new line and "| ".
pub proof fn lemma_enum_alts_each(cur: Option<NameView>, xs: Seq<(Seq<char>, LangTypeV)>, n: nat)
    requires
        n <= xs.len(),
    ensures
        ts_enum_alts(cur, xs, n) == joined_with(Seq::new(n, |i: int| "{ readonly tag: \""@ + xs[i].0 + "\", readonly "@ + uncapitalized(xs[i].0) + ": "@ + ts_type_text(cur, xs[i].1) + ", }"@), "\n"@ + tabs(1) + "| "@),
    decreases n,
{
    if n > 0 {
        lemma_enum_alts_each(cur, xs, (n - 1) as nat);
        let ys = Seq::new(n, |i: int| "{ readonly tag: \""@ + xs[i].0 + "\", readonly "@ + uncapitalized(xs[i].0) + ": "@ + ts_type_text(cur, xs[i].1) + ", }"@);
        assert(ys.drop_last() =~= Seq::new((n - 1) as nat, |i: int| "{ readonly tag: \""@ + xs[i].0 + "\", readonly "@ + uncapitalized(xs[i].0) + ": "@ + ts_type_text(cur, xs[i].1) + ", }"@));
        if n == 1 {
            assert(ts_enum_alts(cur, xs, 0) == Seq::<char>::empty());
            assert(ts_enum_alts(cur, xs, 1) =~= ys[0]);
        } else {
            assert(ts_enum_alts(cur, xs, n) =~= joined_with(ys, "\n"@ + tabs(1) + "| "@));
        }
    }
}

/// The parameters of a function are written in order, each as its own name
/// and the text of its own type, separated by ", ".
pub proof fn lemma_params_each(cur: Option<NameView>, xs: Seq<(Seq<char>, LangTypeV)>, n: nat)
    requires
        n <= xs.len(),
    ensures
        ts_params_text(cur, xs, n) == joined_with(Seq::new(n, |i: int| xs[i].0 + ": "@ + ts_type_text(cur, xs[i].1)), ", "@),
    decreases n,
{
    if n > 0 {
        lemma_params_each(cur, xs, (n - 1) as nat);
        let ys = Seq::new(n, |i: int| xs[i].0 + ": "@ + ts_type_text(cur, xs[i].1));
        assert(ys.drop_last() =~= Seq::new((n - 1) as nat, |i: int| xs[i].0 + ": "@ + ts_type_text(cur, xs[i].1)));
        if n == 1 {
            assert(ts_params_text(cur, xs, 0) == Seq::<char>::empty());
            assert(ts_params_text(cur, xs, 1) =~= ys[0]);
        } else {
            assert(ts_params_text(cur, xs, n) =~= joined_with(ys, ", "@));
        }
    }
}

} // verus!

