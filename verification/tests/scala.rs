use verilization::assemble::parse_model;
use verilization::bignum::{BigInt, BigNat};
use verilization::generator::{GeneratorError, LangExpr, LangType};
use verilization::lang::{ScalaLanguage, Language, LanguageOptions, LanguageOptionsBuilder};
use verilization::model::Verilization;
use verilization::scala::{scala_write_expr, scala_write_type, ScalaOptions, ScalaOptionsBuilder};
use verilization::scala_file::ScalaFile;

fn options() -> ScalaOptions {
    let mut b = ScalaOptionsBuilder::empty();
    b.add("out_dir", "out").unwrap();
    b.add("pkg:geom", "com.example.geom").unwrap();
    ScalaOptions::build(b).unwrap()
}

fn invalid_options(r: Result<(), GeneratorError>) -> String {
    match r {
        Err(GeneratorError::InvalidOptions(m)) => m,
        _ => panic!("invalid options expected"),
    }
}

const PRELUDE: &str = "version 1; package geom; extern int { literal { integer (,); } } ";

fn model(text: &str) -> Verilization {
    parse_model(&format!("{}{}", PRELUDE, text)).unwrap()
}

fn files(text: &str) -> Vec<ScalaFile> {
    ScalaLanguage::generate(&model(text), &options()).unwrap()
}

#[test]
fn scala_options_are_checked() {
    let mut b = ScalaOptionsBuilder::empty();
    b.add("out_dir", "a").unwrap();
    assert_eq!(invalid_options(b.add("out_dir", "b")), "Output directory already specified");
    assert_eq!(invalid_options(b.add("extern:x.e", "String")), "Unknown option: extern:x.e");
    b.add("pkg:x.y", "org.x").unwrap();
    assert_eq!(invalid_options(b.add("pkg:x.y", "org.z")), "Package already mapped: x.y");
    assert_eq!(invalid_options(b.add("lib:x.y", "org.z")), "Package already mapped: x.y");
    b.add("lib:rt", "org.rt").unwrap();
    let o = ScalaOptions::build(b).unwrap();
    assert_eq!(o.output_dir, "a");
    assert_eq!(o.package_mapping.len(), 1);
    assert_eq!(o.library_mapping.len(), 1);
    let missing = ScalaOptions::build(ScalaOptionsBuilder::empty());
    assert!(matches!(missing, Err(GeneratorError::InvalidOptions(m)) if m == "Output directory not specified"));
}

#[test]
fn scala_type_and_literal_text() {
    let o = options();
    let mut out = String::new();
    let conv = LangType::Converter(Box::new(LangType::TypeParameter("A".to_string())), Box::new(LangType::Codec(Box::new(LangType::TypeParameter("B".to_string())))));
    scala_write_type(&o, &mut out, &conv).unwrap();
    assert_eq!(out, "dev.argon.verilization.scala_runtime.Converter[A, dev.argon.verilization.scala_runtime.Codec[B]]");
    let text = |e: LangExpr| {
        let mut out = String::new();
        scala_write_expr(&o, &mut out, &e).unwrap();
        out
    };
    assert_eq!(text(LangExpr::IntegerLiteral(BigInt::from_i64(7))), "7");
    assert_eq!(text(LangExpr::IntegerLiteral(BigInt::from_i64(4294967296))), "4294967296L");
    let big = BigInt::from_sign_magnitude(false, BigNat::from_digits(vec![0, 0, 1]));
    assert_eq!(text(LangExpr::IntegerLiteral(big)), "scala.math.BigInt(\"18446744073709551616\")");
    assert_eq!(text(LangExpr::StringLiteral("a\"b".to_string())), "\"a\\\"b\"");
    assert_eq!(text(LangExpr::ReadDiscriminator), "dev.argon.verilization.scala_runtime.StandardCodecs.natCodec.read(reader)");
    assert_eq!(
        text(LangExpr::WriteDiscriminator(BigNat::from_u64(3))),
        "dev.argon.verilization.scala_runtime.StandardCodecs.natCodec.write(writer, 3)"
    );
    assert_eq!(
        text(LangExpr::IdentityConverter(LangType::TypeParameter("T".to_string()))),
        "dev.argon.verilization.scala_runtime.Converter.identity[T]"
    );
}

#[test]
fn scala_struct_file() {
    let fs = files("struct Point { version 1 { x: int; } }");
    assert_eq!(fs.len(), 1);
    assert_eq!(fs[0].path, vec!["out", "com", "example", "geom", "Point.scala"]);
    let expected = "package com.example.geom\n\
sealed abstract class Point\n\
object Point {\n\
\tfinal case class V1(\n\
\t\tx: com.example.geom.Int,\n\
\t) extends Point\n\
\tobject V1 {\n\
\t\tval codec: dev.argon.verilization.scala_runtime.Codec[com.example.geom.Point.V1] = new dev.argon.verilization.scala_runtime.Codec[com.example.geom.Point.V1] {\n\
\t\t\toverride def read[R, E](reader: dev.argon.verilization.scala_runtime.FormatReader[R, E]): zio.ZIO[R, E, com.example.geom.Point.V1] = for {\n\
\t\t\t\tvalue0 <- com.example.geom.Int.codec.read(reader)\n\
\t\t\t} yield new com.example.geom.Point.V1(value0)\n\
\t\t\toverride def write[R, E](writer: dev.argon.verilization.scala_runtime.FormatWriter[R, E], value: com.example.geom.Point.V1): zio.ZIO[R, E, Unit] = for {\n\
\t\t\t\t_ <- com.example.geom.Int.codec.write(writer, value.x)\n\
\t\t\t} yield ()\n\
\t\t}\n\
}\n\
}\n";
    assert_eq!(fs[0].contents, expected);
}

#[test]
fn scala_enum_file() {
    let fs = files("enum Shape { version 1 { circle: int; } }");
    let expected = "package com.example.geom\n\
sealed abstract class Shape\n\
object Shape {\n\
\tsealed abstract class V1 extends Shape\n\
\tobject V1 {\n\
\t\tfinal case class Circle(circle: com.example.geom.Int) extends V1\n\
\t\tval codec: dev.argon.verilization.scala_runtime.Codec[com.example.geom.Shape.V1] = new dev.argon.verilization.scala_runtime.Codec[com.example.geom.Shape.V1] {\n\
\t\t\toverride def read[R, E](reader: dev.argon.verilization.scala_runtime.FormatReader[R, E]): zio.ZIO[R, E, com.example.geom.Shape.V1] = dev.argon.verilization.scala_runtime.StandardCodecs.natCodec.read(reader).flatMap { value0 =>\n\
\t\t\t\tvalue0 match {\n\
\t\t\t\t\tcase dev.argon.verilization.scala_runtime.Util.BigIntValue(0) => for {\n\
\t\t\t\t\t\tvalue0 <- com.example.geom.Int.codec.read(reader)\n\
\t\t\t\t\t} yield new com.example.geom.Shape.V1.Circle(value0)\n\
\t\t\t\t}\n\
\t\t\t}\n\
\t\t\toverride def write[R, E](writer: dev.argon.verilization.scala_runtime.FormatWriter[R, E], value: com.example.geom.Shape.V1): zio.ZIO[R, E, Unit] = value match {\n\
\t\t\t\tcase com.example.geom.Shape.V1.Circle(circle) => for {\n\
\t\t\t\t\t_ <- dev.argon.verilization.scala_runtime.StandardCodecs.natCodec.write(writer, 0)\n\
\t\t\t\t\t_ <- com.example.geom.Int.codec.write(writer, circle)\n\
\t\t\t\t} yield ()\n\
\t\t\t}\n\
\t\t}\n\
}\n\
}\n";
    assert_eq!(fs[0].contents, expected);
}

#[test]
fn scala_constant_file() {
    let fs = files("const zero: int { version 1 = 5; }");
    assert_eq!(fs[0].path, vec!["out", "com", "example", "geom", "zero.scala"]);
    assert_eq!(
        fs[0].contents,
        "package com.example.geom\nobject Zero {\n\tval v1: com.example.geom.Int = com.example.geom.Int.fromInteger(5)\n}\n"
    );
}

#[test]
fn scala_converter_between_versions() {
    let m = parse_model(
        "version 2; package geom; extern int { literal { integer (,); } } enum Shape { version 1 { circle: int; } }",
    )
    .unwrap();
    let fs = ScalaLanguage::generate(&m, &options()).unwrap();
    assert!(fs[0].contents.contains(
        "\t\tval fromV1: dev.argon.verilization.scala_runtime.Converter[com.example.geom.Shape.V1, com.example.geom.Shape.V2] = new dev.argon.verilization.scala_runtime.Converter[com.example.geom.Shape.V1, com.example.geom.Shape.V2] {\n\
\t\t\toverride def convert(prev: com.example.geom.Shape.V1): com.example.geom.Shape.V2 = prev match {\n\
\t\t\t\tcase com.example.geom.Shape.V1.Circle(circle) => {\n\
\t\t\t\t\tnew com.example.geom.Shape.V2.Circle(circle)\n\
\t\t\t\t}\n\
\t\t\t}\n\
\t\t};\n"
    ));
}

#[test]
fn scala_unmapped_package_is_an_error() {
    let m = parse_model("version 1; package other; struct S { version 1 { } }").unwrap();
    let r = ScalaLanguage::generate(&m, &options());
    assert!(matches!(r, Err(GeneratorError::UnmappedPackage(p)) if p.package == vec!["other"]));
}
