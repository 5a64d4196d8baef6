use verilization::assemble::parse_model;
use verilization::bignum::BigNat;
use verilization::generator::{
    codec_codec_param_name, constant_version_name, convert_conv_param_name, convert_current_type_param,
    convert_prev_type_param, ConstGenerator, ConvertParam, Generator, GeneratorError, LangExpr, LangExprStmt,
    LangStmt, LangType, Operation, OperationTarget, TypeGenerator,
};
use verilization::lang::VersionedTypeKind;
use verilization::model::{NamedTypeDefinition, Type, Verilization};
use verilization::names::QualifiedName;
use verilization::scope::Scope;

fn name(pkg: &[&str], n: &str) -> QualifiedName {
    QualifiedName::from_parts(pkg, n)
}

fn plain(n: &str) -> Type {
    Type { name: name(&[], n), args: Vec::new() }
}

fn applied(n: &str, args: Vec<Type>) -> Type {
    Type { name: name(&[], n), args }
}

fn versioned<'a>(model: &'a Verilization, n: &str) -> TypeGenerator<'a> {
    match model.get_type(&name(&[], n)).unwrap() {
        NamedTypeDefinition::StructType(t) | NamedTypeDefinition::EnumType(t) => TypeGenerator::new(t),
        _ => panic!("struct or enum expected"),
    }
}

fn constant<'a>(model: &'a Verilization, n: &str) -> ConstGenerator<'a> {
    ConstGenerator::new(model.get_constant(&name(&[], n)).unwrap())
}

fn v(n: u64) -> BigNat {
    BigNat::from_u64(n)
}

const PRELUDE: &str = "
extern int { literal { integer (,); } }
extern u8 { literal { integer [0, 256); } }
extern string { literal { string; } }
extern list<T> { literal { sequence T; } }
extern pair<A, B> { literal { case make(A, B); record { first: A; second: B; }; } }
";

fn model_of(text: &str) -> Verilization {
    let end = text.find(';').unwrap() + 1;
    parse_model(&format!("{}{}{}", &text[..end], PRELUDE, &text[end..])).unwrap()
}

#[test]
fn parameter_names() {
    assert_eq!(convert_prev_type_param("T"), "T_1");
    assert_eq!(convert_current_type_param("T"), "T_2");
    assert_eq!(convert_conv_param_name("T"), "T_conv");
    assert_eq!(codec_codec_param_name("T"), "T_codec");
    assert_eq!(constant_version_name(&v(12)), "v12");
    assert_eq!(constant_version_name(&v(0)), "v0");
}

#[test]
fn struct_versions_and_operations() {
    let model = model_of("version 2; struct Point { version 1 { x: int; y: int; } }");
    let gen = versioned(&model, "Point");
    let out = gen.generate().unwrap();
    assert_eq!(out.len(), 2);

    match &out[0].version_type {
        LangType::Versioned(VersionedTypeKind::Struct, n, ver, args, _) => {
            assert_eq!(n.name, "Point");
            assert_eq!(ver.to_u64(), Some(1));
            assert!(args.is_empty());
        },
        _ => panic!("versioned struct expected"),
    }
    assert_eq!(out[0].operations.len(), 1);
    assert!(matches!(out[0].operations[0].operation, Operation::TypeCodec));

    assert_eq!(out[1].operations.len(), 2);
    match &out[1].operations[0].operation {
        Operation::FromPreviousVersion(p) => assert_eq!(p.to_u64(), Some(1)),
        _ => panic!("conversion from version 1 expected"),
    }
    match &out[1].operations[0].implementation {
        LangExprStmt::CreateConverter { body, .. } => match &**body {
            LangStmt::Expr(steps, Some(LangExpr::CreateStruct(n, ver, _, fields))) => {
                assert!(steps.is_empty());
                assert_eq!(n.name, "Point");
                assert_eq!(ver.to_u64(), Some(2));
                assert_eq!(fields.len(), 2);
                assert_eq!(fields[0].0, "x");
                match &fields[0].1 {
                    LangExpr::StructField(_, fv, field, value) => {
                        assert_eq!(fv.to_u64(), Some(2));
                        assert_eq!(*field, "x");
                        assert!(matches!(&**value, LangExpr::Identifier(p) if p == "prev"));
                    },
                    _ => panic!("field taken unchanged expected"),
                }
            },
            _ => panic!("struct body expected"),
        },
        _ => panic!("converter expected"),
    }

    match &out[1].operations[1].implementation {
        LangExprStmt::CreateCodec { read, write, .. } => {
            match &**read {
                LangStmt::Expr(_, Some(LangExpr::CreateStruct(_, _, _, fields))) => {
                    assert_eq!(fields.len(), 2);
                    assert_eq!(fields[1].0, "y");
                    assert!(matches!(&fields[1].1, LangExpr::CodecRead { .. }));
                },
                _ => panic!("struct read expected"),
            }
            match &**write {
                LangStmt::Expr(steps, None) => {
                    assert_eq!(steps.len(), 2);
                    assert!(matches!(&steps[0], LangExpr::CodecWrite { .. }));
                },
                _ => panic!("field writes expected"),
            }
        },
        _ => panic!("codec expected"),
    }
}

#[test]
fn explicit_version_calls_written_converter() {
    let model = model_of("version 2; struct S { version 1 { a: int; } version 2 { b: int; } }");
    let out = versioned(&model, "S").generate().unwrap();
    match &out[1].operations[0].implementation {
        LangExprStmt::Expr(LangExpr::InvokeUserConverter { prev_ver, version, type_args, args, .. }) => {
            assert_eq!(prev_ver.to_u64(), Some(1));
            assert_eq!(version.to_u64(), Some(2));
            assert!(type_args.is_empty());
            assert!(args.is_empty());
        },
        _ => panic!("hand-written converter expected"),
    }
}

#[test]
fn final_generic_type_gets_final_converter() {
    let model = model_of("version 3; final struct Box<T> { version 1 { value: T; } }");
    let out = versioned(&model, "Box").generate().unwrap();
    assert_eq!(out.len(), 1);
    let ops = &out[0].operations;
    assert_eq!(ops.len(), 2);
    assert!(matches!(ops[0].operation, Operation::FinalTypeConverter));
    assert_eq!(ops[0].type_params, vec!["T_1", "T_2"]);
    assert_eq!(ops[0].params.len(), 1);
    assert_eq!(ops[0].params[0].0, "T_conv");
    assert!(matches!(&ops[0].params[0].1, LangType::Converter(_, _)));
    assert!(matches!(ops[1].operation, Operation::TypeCodec));
    assert_eq!(ops[1].params[0].0, "T_codec");
}

#[test]
fn enum_codec_numbers_cases() {
    let model = model_of("version 1; enum E { version 1 { a: int; b: string; } }");
    let out = versioned(&model, "E").generate().unwrap();
    match &out[0].operations[0].implementation {
        LangExprStmt::CreateCodec { read, write, .. } => {
            match &**read {
                LangStmt::MatchDiscriminator { value, cases } => {
                    assert!(matches!(value, LangExpr::ReadDiscriminator));
                    assert_eq!(cases.len(), 2);
                    assert_eq!(cases[1].0.to_u64(), Some(1));
                    assert!(cases[1].1.has_value());
                },
                _ => panic!("discriminator match expected"),
            }
            match &**write {
                LangStmt::MatchEnum { cases, .. } => {
                    assert_eq!(cases.len(), 2);
                    assert_eq!(cases[1].case_name, "b");
                    assert!(!cases[1].body.has_value());
                    match &cases[1].body {
                        LangStmt::Expr(steps, None) => {
                            assert!(matches!(&steps[0], LangExpr::WriteDiscriminator(n) if n.to_u64() == Some(1)));
                        },
                        _ => panic!("writes expected"),
                    }
                },
                _ => panic!("enum match expected"),
            }
        },
        _ => panic!("codec expected"),
    }
}

#[test]
fn enum_conversion_matches_cases() {
    let model = model_of("version 2; enum E { version 1 { a: int; } }");
    let out = versioned(&model, "E").generate().unwrap();
    match &out[1].operations[0].implementation {
        LangExprStmt::CreateConverter { body, .. } => {
            assert!(body.has_value());
            match &**body {
                LangStmt::MatchEnum { value, cases, .. } => {
                    assert!(matches!(value, LangExpr::Identifier(p) if p == "prev"));
                    assert_eq!(cases[0].binding_name, "a");
                    assert!(matches!(&cases[0].body, LangStmt::Expr(_, Some(LangExpr::CreateEnum(..)))));
                },
                _ => panic!("enum match expected"),
            }
        },
        _ => panic!("converter expected"),
    }
}

#[test]
fn constant_values_per_version() {
    let model = model_of("version 3; const c: int { version 1 = 5; }");
    let out = constant(&model, "c").generate().unwrap();
    assert_eq!(out.len(), 3);
    assert_eq!(out[0].version_name, "v1");
    assert_eq!(out[2].version_name, "v3");
    match &out[0].value {
        LangExpr::InvokeOperation(Operation::FromInteger, OperationTarget::ExternType(n), targs, args) => {
            assert_eq!(n.name, "int");
            assert!(targs.is_empty());
            assert!(matches!(&args[0], LangExpr::IntegerLiteral(x) if x.magnitude().to_u64() == Some(5)));
        },
        _ => panic!("integer literal expected"),
    }
    match &out[1].value {
        LangExpr::ConstantValue(n, ver) => {
            assert_eq!(n.name, "c");
            assert_eq!(ver.to_u64(), Some(1));
        },
        _ => panic!("earlier value expected"),
    }
}

#[test]
fn constant_of_struct_is_converted() {
    let model = model_of("version 2; struct P { version 1 { x: int; } } const origin: P { version 1 = { x = 1; }; }");
    let out = constant(&model, "origin").generate().unwrap();
    assert!(matches!(&out[0].value, LangExpr::CreateStruct(_, _, _, fields) if fields.len() == 1));
    match &out[1].value {
        LangExpr::InvokeConverter { converter, value } => {
            match &**converter {
                LangExpr::InvokeOperation(Operation::FromPreviousVersion(p), OperationTarget::VersionedType(n, ver), _, _) => {
                    assert_eq!(p.to_u64(), Some(1));
                    assert_eq!(n.name, "P");
                    assert_eq!(ver.to_u64(), Some(2));
                },
                _ => panic!("conversion from version 1 expected"),
            }
            assert!(matches!(&**value, LangExpr::ConstantValue(_, _)));
        },
        _ => panic!("converted value expected"),
    }
}

#[test]
fn integer_out_of_range() {
    let model = model_of("version 1; const a: u8 { version 1 = 300; }");
    assert!(matches!(constant(&model, "a").generate(), Err(GeneratorError::InvalidTypeForIntValue)));
    let ok = model_of("version 1; const a: u8 { version 1 = 255; }");
    assert!(constant(&ok, "a").generate().is_ok());
}

#[test]
fn value_errors() {
    let m = model_of("version 1; const a: int { version 1 = \"x\"; }");
    assert!(matches!(constant(&m, "a").generate(), Err(GeneratorError::InvalidTypeForString)));

    let m = model_of("version 1; struct S { version 1 { x: int; } } const a: S { version 1 = [1]; }");
    assert!(matches!(constant(&m, "a").generate(), Err(GeneratorError::TypeCannotBeSequence(n)) if n.name == "S"));

    let m = model_of("version 1; struct S { version 1 { x: int; } } const a: S { version 1 = { y = 1; }; }");
    match constant(&m, "a").generate() {
        Err(GeneratorError::CouldNotFindRecordField(n, Some(ver), f)) => {
            assert_eq!(n.name, "S");
            assert_eq!(ver.to_u64(), Some(1));
            assert_eq!(f, "x");
        },
        _ => panic!("missing record field expected"),
    }

    let m = model_of("version 1; struct S { version 1 { x: int; } } const a: S { version 1 = x(1); }");
    assert!(matches!(constant(&m, "a").generate(), Err(GeneratorError::RecordLiteralNotForStruct)));

    let m = model_of("version 1; enum E { version 1 { x: int; } } const a: E { version 1 = y(1); }");
    assert!(matches!(constant(&m, "a").generate(), Err(GeneratorError::TypeDoesNotHaveCase(_, Some(_), c)) if c == "y"));

    let m = model_of("version 1; enum E { version 1 { x: int; } } const a: E { version 1 = x(1, 2); }");
    assert!(matches!(constant(&m, "a").generate(), Err(GeneratorError::IncorrectCaseArity(_, c)) if c == "x"));

    let m = model_of("version 1; const a: string { version 1 = { k = 1; }; }");
    assert!(matches!(constant(&m, "a").generate(), Err(GeneratorError::ExternTypeDoesNotHaveRecordLiteral(n)) if n.name == "string"));
}

#[test]
fn extern_literal_values() {
    let m = model_of("version 1; const s: list(string) { version 1 = [\"a\", \"b\"]; }");
    match &constant(&m, "s").generate().unwrap()[0].value {
        LangExpr::InvokeOperation(Operation::FromSequence, OperationTarget::ExternType(n), targs, args) => {
            assert_eq!(n.name, "list");
            assert_eq!(targs.len(), 1);
            assert_eq!(args.len(), 2);
            assert!(matches!(&args[1], LangExpr::InvokeOperation(Operation::FromString, _, _, xs)
                if matches!(&xs[0], LangExpr::StringLiteral(s) if s == "b")));
        },
        _ => panic!("sequence expected"),
    }

    let m = model_of("version 1; const p: pair(int, string) { version 1 = make(1, \"a\"); }");
    match &constant(&m, "p").generate().unwrap()[0].value {
        LangExpr::InvokeOperation(Operation::FromCase(c), _, _, args) => {
            assert_eq!(c, "make");
            assert_eq!(args.len(), 2);
        },
        _ => panic!("case expected"),
    }

    let m = model_of("version 1; const p: pair(int, string) { version 1 = { second = \"a\"; first = 1; }; }");
    match &constant(&m, "p").generate().unwrap()[0].value {
        LangExpr::InvokeOperation(Operation::FromRecord(names), _, _, args) => {
            assert_eq!(names, &vec!["first", "second"]);
            assert!(matches!(&args[0], LangExpr::InvokeOperation(Operation::FromInteger, ..)));
        },
        _ => panic!("record expected"),
    }
}

#[test]
fn constant_reference_checks_type() {
    let m = model_of("version 1; const a: int { version 1 = 1; } const b: int { version 1 = a; } const c: string { version 1 = a; }");
    match &constant(&m, "b").generate().unwrap()[0].value {
        LangExpr::ConstantValue(n, ver) => {
            assert_eq!(n.name, "a");
            assert_eq!(ver.to_u64(), Some(1));
        },
        _ => panic!("reference expected"),
    }
    assert!(matches!(constant(&m, "c").generate(), Err(GeneratorError::TypeMismatch)));
}

#[test]
fn building_types_and_their_errors() {
    let model = model_of("version 2; struct S<T> { version 2 { x: T; } } enum E { version 1 { a: int; } }");
    let gen = Generator { model: &model, scope: Scope::empty(&model) };
    let t = gen.build_type(&v(2), &applied("S", vec![plain("int")])).unwrap();
    match &t {
        LangType::Versioned(VersionedTypeKind::Struct, n, ver, args, fields) => {
            assert_eq!(n.name, "S");
            assert_eq!(ver.to_u64(), Some(2));
            assert!(matches!(&args[0], LangType::Extern(e, _, _) if e.name == "int"));
            let fs = fields.build().unwrap();
            assert_eq!(fs.len(), 1);
            assert!(matches!(&fs[0].field_type, LangType::Extern(e, _, _) if e.name == "int"));
        },
        _ => panic!("struct expected"),
    }
    assert!(t.is_same_type(&gen.build_type(&v(2), &applied("S", vec![plain("int")])).unwrap()));
    assert!(!t.is_same_type(&gen.build_type(&v(2), &applied("S", vec![plain("string")])).unwrap()));

    assert!(matches!(gen.build_type(&v(2), &plain("Nope")), Err(GeneratorError::CouldNotFind(n)) if n.name == "Nope"));
    assert!(matches!(gen.build_type(&v(1), &applied("S", vec![plain("int")])), Err(GeneratorError::CouldNotFindVersion(_, ver)) if ver.to_u64() == Some(1)));
    assert!(matches!(gen.build_type(&v(2), &plain("S")), Err(GeneratorError::ArityMismatch(1, 0))));

    let enum_at_2 = gen.build_type(&v(2), &plain("E")).unwrap();
    assert!(matches!(&enum_at_2, LangType::Versioned(VersionedTypeKind::Enum, _, ver, _, _) if ver.to_u64() == Some(2)));
    assert!(!enum_at_2.is_final_in_version(&v(2), &model));
}

#[test]
fn type_parameters_in_scope() {
    let model = model_of("version 1; struct S<T> { version 1 { x: list(T); } }");
    let gen = versioned(&model, "S");
    let t = gen.gen.build_type(&v(1), &plain("T")).unwrap();
    assert!(matches!(&t, LangType::TypeParameter(p) if p == "T"));
    assert!(t.is_final_in_version(&v(1), &model));
    match gen.gen.build_codec(t) {
        Ok(LangExpr::Identifier(s)) => assert_eq!(s, "T_codec"),
        _ => panic!("codec parameter expected"),
    }
    assert!(gen.gen.requires_conversion(&plain("T"), &v(1)));
    assert!(!gen.gen.requires_conversion(&plain("int"), &v(1)));

    let outside = Generator { model: &model, scope: Scope::empty(&model) };
    assert!(matches!(outside.build_type(&v(1), &plain("T")), Err(GeneratorError::CouldNotFind(_))));
    assert!(matches!(gen.gen.build_type(&v(1), &applied("T", vec![plain("int")])), Err(GeneratorError::ArityMismatch(0, 1))));

    let conv = gen.gen.build_conversion(&v(1), &v(1), &plain("T"), ConvertParam::ConverterObject).unwrap();
    assert!(matches!(&conv, LangExpr::Identifier(s) if s == "T_conv"));
    let same = gen.gen.build_conversion(&v(1), &v(1), &plain("int"), ConvertParam::ConverterObject).unwrap();
    assert!(matches!(&same, LangExpr::IdentityConverter(LangType::Extern(..))));
}

#[test]
fn codec_of_converter_is_refused() {
    let model = model_of("version 1;");
    let gen = Generator { model: &model, scope: Scope::empty(&model) };
    let t = LangType::Converter(
        Box::new(LangType::TypeParameter(String::from("A"))),
        Box::new(LangType::TypeParameter(String::from("B"))),
    );
    assert!(matches!(gen.build_codec(t), Err(GeneratorError::InvalidTypeForCodec)));
}

#[test]
fn conversion_of_generic_argument() {
    let model = model_of("version 2; struct S<T> { version 1 { x: T; } } struct U { version 1 { s: S(int); } }");
    let out = versioned(&model, "U").generate().unwrap();
    match &out[1].operations[0].implementation {
        LangExprStmt::CreateConverter { body, .. } => match &**body {
            LangStmt::Expr(_, Some(LangExpr::CreateStruct(_, _, _, fields))) => match &fields[0].1 {
                LangExpr::InvokeConverter { converter, .. } => match &**converter {
                    LangExpr::InvokeOperation(Operation::FromPreviousVersion(_), OperationTarget::VersionedType(n, _), targs, args) => {
                        assert_eq!(n.name, "S");
                        assert_eq!(targs.len(), 2);
                        assert!(matches!(&args[0], LangExpr::IdentityConverter(_)));
                    },
                    _ => panic!("conversion of S expected"),
                },
                _ => panic!("converted field expected"),
            },
            _ => panic!("struct body expected"),
        },
        _ => panic!("converter expected"),
    }
}

#[test]
fn operations_state_of_a_version() {
    let model = model_of("version 3; final struct Box<T> { version 1 { value: T; } } enum E { version 1 { a: int; } }");
    let gen = versioned(&model, "Box");
    let out = gen.generate().unwrap();
    let state = gen.prepare_operations_state(&out[0].version_type, &v(1)).unwrap();
    assert!(state.is_final_last_version);
    assert!(matches!(state.type_kind, VersionedTypeKind::Struct));

    let egen = versioned(&model, "E");
    let eout = egen.generate().unwrap();
    let estate = egen.prepare_operations_state(&eout[0].version_type, &v(1)).unwrap();
    assert!(!estate.is_final_last_version);
    assert!(matches!(estate.type_kind, VersionedTypeKind::Enum));

    let param = LangType::TypeParameter("T".to_string());
    assert!(matches!(gen.prepare_operations_state(&param, &v(1)), Err(GeneratorError::CouldNotGenerateType)));
}
