use verilization::assemble::parse_model;
use verilization::bignum::{BigInt, BigNat};
use verilization::generator::{GeneratorError, LangExpr, LangType, Operation, OperationTarget};
use verilization::lang::{TypeScriptLanguage, Language, LanguageOptions, LanguageOptionsBuilder};
use verilization::loader::load_all_models;
use verilization::model::Verilization;
use verilization::names::QualifiedName;
use verilization::ts::{ts_write_expr, ts_write_type, write_import_name};
use verilization::ts_file::{path_join_exec, sort_names, ts_file_path_exec, TSFile, TSOptions, TSOptionsBuilder};

fn options(extra: &[(&str, &str)]) -> TSOptions {
    let mut b = TSOptionsBuilder::empty();
    b.add("out_dir", "out").unwrap();
    b.add("pkg:geom", "geom").unwrap();
    for (n, v) in extra {
        b.add(n, v).unwrap();
    }
    TSOptions::build(b).unwrap()
}

fn invalid_options(r: Result<(), GeneratorError>) -> String {
    match r {
        Err(GeneratorError::InvalidOptions(m)) => m,
        _ => panic!("invalid options expected"),
    }
}

const PRELUDE: &str = "version 1; package geom; extern int { literal { integer (,); } } ";

fn model(text: &str) -> Verilization {
    parse_model(&format!("{}{}", PRELUDE, text)).unwrap()
}

fn files(text: &str) -> Vec<TSFile> {
    TypeScriptLanguage::generate(&model(text), &options(&[])).unwrap()
}

fn name(s: &str) -> QualifiedName {
    QualifiedName::from_str(s).unwrap()
}

#[test]
fn ts_options_are_checked() {
    let mut b = TSOptionsBuilder::empty();
    b.add("out_dir", "a").unwrap();
    assert_eq!(invalid_options(b.add("out_dir", "b")), "Output directory already specified");
    assert_eq!(invalid_options(b.add("extern:x", "y")), "Unknown option: extern:x");
    b.add("pkg:x.y", "x/y").unwrap();
    assert_eq!(invalid_options(b.add("pkg:x.y", "z")), "Package already mapped: x.y");
    assert_eq!(invalid_options(b.add("lib:x.y", "z")), "Package already mapped: x.y");
    b.add("lib:rt", "@rt/lib").unwrap();
    assert_eq!(invalid_options(b.add("pkg:rt", "rt")), "Package already mapped: rt");
    let o = TSOptions::build(b).unwrap();
    assert_eq!(o.output_dir, "a");
    assert_eq!(o.package_mapping.len(), 1);
    assert_eq!(o.library_mapping.len(), 1);
    assert!(matches!(TSOptions::build(TSOptionsBuilder::empty()), Err(GeneratorError::InvalidOptions(m)) if m == "Output directory not specified"));
}

#[test]
fn paths_are_joined() {
    assert_eq!(path_join_exec("out", "geom"), "out/geom");
    assert_eq!(path_join_exec("out/", "geom"), "out/geom");
    assert_eq!(path_join_exec("", "geom"), "geom");
    assert_eq!(path_join_exec("out", "/abs"), "/abs");
    let o = options(&[]);
    assert_eq!(ts_file_path_exec(&o, &name("geom.point")).unwrap(), "out/geom/Point.ts");
    assert!(matches!(ts_file_path_exec(&o, &name("other.point")), Err(GeneratorError::UnmappedPackage(_))));
}

#[test]
fn names_are_sorted() {
    let sorted = sort_names(&vec![name("b.x"), name("a.z"), name("a.y"), name("c")]);
    let shown: Vec<String> = sorted.iter().map(|n| n.to_string()).collect();
    assert_eq!(shown, vec!["c", "a.y", "a.z", "b.x"]);
}

#[test]
fn ts_type_and_expression_text() {
    let mut out = String::new();
    write_import_name(&mut out, &name("a.b.c"));
    assert_eq!(out, "sym_a_b_c");

    let mut out = String::new();
    let t = LangType::Codec(Box::new(LangType::Converter(
        Box::new(LangType::TypeParameter("A".to_string())),
        Box::new(LangType::TypeParameter("B".to_string())),
    )));
    ts_write_type(None, &mut out, &t);
    assert_eq!(out, "Codec<Converter<A, B>>");

    let text = |e: LangExpr| {
        let mut out = String::new();
        let mut convs = Vec::new();
        ts_write_expr(None, &mut out, &mut convs, &e);
        (out, convs)
    };
    assert_eq!(text(LangExpr::IntegerLiteral(BigInt::from_i64(-7))).0, "-7n");
    assert_eq!(text(LangExpr::StringLiteral("a\"\u{2028}\t".to_string())).0, "\"a\\\"\\u2028\t\"");
    assert_eq!(text(LangExpr::ReadDiscriminator).0, "await natCodec.read(reader)");
    assert_eq!(text(LangExpr::WriteDiscriminator(BigNat::from_u64(2))).0, "await natCodec.write(writer, 2n)");
    let ext = name("geom.int");
    let call = LangExpr::InvokeOperation(
        Operation::FromRecord(vec!["First".to_string(), "second".to_string()]),
        OperationTarget::ExternType(&ext),
        Vec::new(),
        vec![LangExpr::Identifier("a".to_string()), LangExpr::Identifier("b".to_string())],
    );
    assert_eq!(text(call).0, "sym_geom_int.fromRecord({ first: a, second: b, })");
    let conv = LangExpr::InvokeUserConverter {
        name: &ext,
        prev_ver: BigNat::from_u64(1),
        version: BigNat::from_u64(2),
        type_args: Vec::new(),
        args: vec![LangExpr::Identifier("x".to_string())],
    };
    let (t, convs) = text(conv);
    assert_eq!(t, "v1_to_v2(x)");
    assert_eq!(convs, vec!["v1_to_v2"]);
}

#[test]
fn ts_struct_file() {
    let fs = files("struct Point { version 1 { x: int; } }");
    assert_eq!(fs.len(), 1);
    assert_eq!(fs[0].path, "out/geom/Point.ts");
    let expected = "import {Codec, FormatWriter, FormatReader, Converter, natCodec, RemoteObjectId, RemoteConnection, RemoteObject} from \"@verilization/runtime\";\n\
import * as sym_geom_int from \"./Int.js\";\n\
export interface V1 {\n\
\treadonly x: sym_geom_int.Int;\n\
}\n\
export namespace V1 {\n\
\texport const codec: Codec<V1> = {\n\
\t\tasync read(reader: FormatReader): Promise<V1> {\n\
\t\t\treturn { x: await sym_geom_int.codec.read(reader), };\n\
\t\t},\n\
\t\tasync write(writer: FormatWriter, value: V1): Promise<void> {\n\
\t\t\tawait sym_geom_int.codec.write(writer, value.x);\n\
\t\t},\n\
\t};\n\
}\n";
    assert_eq!(fs[0].contents, expected);
}

#[test]
fn ts_enum_file() {
    let fs = files("enum Shape { version 1 { circle: int; square: int; } }");
    assert_eq!(fs[0].path, "out/geom/Shape.ts");
    assert!(fs[0].contents.contains(
        "export type V1 = { readonly tag: \"circle\", readonly circle: sym_geom_int.Int, }\n\t| { readonly tag: \"square\", readonly square: sym_geom_int.Int, };\nexport namespace V1 {\n"
    ));
    assert!(fs[0].contents.contains("\t\t\tswitch(await natCodec.read(reader)) {\n\t\t\t\tcase 0n:\n"));
    assert!(fs[0].contents.contains("\t\t\tswitch(value.tag) {\n\t\t\t\tcase \"circle\":\n"));
    assert!(fs[0].contents.ends_with("\t};\n}\n"));
}

#[test]
fn ts_constant_file() {
    let fs = files("const zero: int { version 1 = 5; }");
    assert_eq!(fs.len(), 1);
    assert_eq!(fs[0].path, "out/geom/Zero.ts");
    assert_eq!(
        fs[0].contents,
        "import * as sym_geom_int from \"./Int.js\";\nexport const v1: sym_geom_int.Int = sym_geom_int.fromInteger(5n);\n"
    );
}

#[test]
fn ts_imports_from_other_packages() {
    let m = load_all_models(vec![
        parse_model("version 1; package geom; struct P { version 1 { a: lib.num.big; b: other.thing; } }"),
        parse_model("version 1; package other; struct thing { version 1 { } }"),
        parse_model("version 1; package lib.num; extern big { literal { integer (,); } }"),
    ])
    .unwrap();
    let o = options(&[("pkg:other", "x/other"), ("lib:lib.num", "@num/lib")]);
    let fs = TypeScriptLanguage::generate(&m, &o).unwrap();
    assert_eq!(fs.len(), 2);
    let p = fs.iter().find(|f| f.path == "out/geom/P.ts").unwrap();
    assert!(p.contents.contains(
        "import * as sym_lib_num_big from \"@num/lib/Big.js\";\nimport * as sym_other_thing from \"./../x/other/Thing.js\";\n"
    ));
    assert!(fs.iter().any(|f| f.path == "out/x/other/Thing.ts"));
}

#[test]
fn ts_unmapped_package_is_an_error() {
    let m = parse_model("version 1; package other; struct S { version 1 { } }").unwrap();
    let r = TypeScriptLanguage::generate(&m, &options(&[]));
    assert!(matches!(r, Err(GeneratorError::UnmappedPackage(p)) if p.package == vec!["other"]));
}
