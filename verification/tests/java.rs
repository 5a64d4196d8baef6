use verilization::assemble::parse_model;
use verilization::bignum::{BigInt, BigNat};
use verilization::generator::{GeneratorError, LangExpr, LangType};
use verilization::java::{write_expr, write_type, JavaOptions, JavaOptionsBuilder};
use verilization::java_file::{java_file_path_exec, JavaFile};
use verilization::lang::{JavaLanguage, Language, LanguageOptions, LanguageOptionsBuilder};
use verilization::model::Verilization;
use verilization::names::{PackageName, QualifiedName};

fn options(extra: &[(&str, &str)]) -> JavaOptions {
    let mut b = JavaOptionsBuilder::empty();
    b.add("out_dir", "out").unwrap();
    b.add("pkg:geom", "com.example.geom").unwrap();
    b.add("extern:geom.int", "java.math.BigInteger").unwrap();
    for (n, v) in extra {
        b.add(n, v).unwrap();
    }
    JavaOptions::build(b).unwrap()
}

fn invalid_options(r: Result<(), GeneratorError>) -> String {
    match r {
        Err(GeneratorError::InvalidOptions(m)) => m,
        _ => panic!("invalid options expected"),
    }
}

const PRELUDE: &str = "version 1; package geom; extern int { literal { integer (,); } } ";

fn model(text: &str) -> Verilization {
    parse_model(&format!("{}{}", PRELUDE, text)).unwrap()
}

fn files(text: &str) -> Vec<JavaFile> {
    JavaLanguage::generate(&model(text), &options(&[])).unwrap()
}

#[test]
fn options_are_checked() {
    let mut b = JavaOptionsBuilder::empty();
    b.add("out_dir", "a").unwrap();
    assert_eq!(invalid_options(b.add("out_dir", "b")), "Output directory already specified");
    assert_eq!(invalid_options(b.add("color", "red")), "Unknown option: color");
    b.add("pkg:x.y", "org.x").unwrap();
    assert_eq!(invalid_options(b.add("pkg:x.y", "org.z")), "Package already mapped: x.y");
    assert_eq!(invalid_options(b.add("lib:x.y", "org.z")), "Package already mapped: x.y");
    b.add("lib:rt", "org.rt").unwrap();
    assert_eq!(invalid_options(b.add("pkg:rt", "org.rt")), "Package already mapped: rt");
    b.add("extern:x.e", "java.lang.String").unwrap();
    assert_eq!(invalid_options(b.add("extern:x.e", "java.lang.Object")), "Extern type already mapped: x.e");
    let o = JavaOptions::build(b).unwrap();
    assert_eq!(o.output_dir, "a");
    assert_eq!(o.package_mapping.len(), 1);
    assert_eq!(o.library_mapping.len(), 1);
    assert_eq!(o.extern_mapping.len(), 1);

    let missing = JavaOptions::build(JavaOptionsBuilder::empty());
    assert!(matches!(missing, Err(GeneratorError::InvalidOptions(m)) if m == "Output directory not specified"));
}

#[test]
fn java_package_lookup() {
    let o = options(&[("lib:std", "org.std")]);
    assert_eq!(o.java_package(&PackageName::from_str("geom")).unwrap().package, vec!["com", "example", "geom"]);
    assert_eq!(o.java_package(&PackageName::from_str("std")).unwrap().package, vec!["org", "std"]);
    assert!(matches!(o.java_package(&PackageName::from_str("other")), Err(GeneratorError::UnmappedPackage(p)) if p.package == vec!["other"]));
}

#[test]
fn extern_names_are_mapped_and_boxed() {
    let o = options(&[("extern:geom.flag", "boolean")]);
    let flag = QualifiedName::from_str("geom.flag").unwrap();
    assert_eq!(o.extern_type_name(&flag, false).unwrap().name, "boolean");
    let boxed = o.extern_type_name(&flag, true).unwrap();
    assert_eq!(boxed.package.package, vec!["java", "lang"]);
    assert_eq!(boxed.name, "Boolean");
    let other = QualifiedName::from_str("geom.thing").unwrap();
    let n = o.extern_type_name(&other, true).unwrap();
    assert_eq!(n.package.package, vec!["com", "example", "geom"]);
    assert_eq!(n.name, "Thing");
}

#[test]
fn type_text() {
    let o = options(&[]);
    let mut out = String::new();
    write_type(&o, &mut out, &LangType::Codec(Box::new(LangType::TypeParameter("T".to_string()))), false).unwrap();
    assert_eq!(out, "dev.argon.verilization.runtime.Codec<T>");
    let mut out = String::new();
    let conv = LangType::Converter(Box::new(LangType::TypeParameter("A".to_string())), Box::new(LangType::TypeParameter("B".to_string())));
    write_type(&o, &mut out, &conv, true).unwrap();
    assert_eq!(out, "dev.argon.verilization.runtime.Converter<A, B>");
}

#[test]
fn literal_text() {
    let o = options(&[]);
    let text = |e: LangExpr| {
        let mut out = String::new();
        write_expr(&o, &mut out, &e).unwrap();
        out
    };
    assert_eq!(text(LangExpr::IntegerLiteral(BigInt::from_i64(5))), "5");
    assert_eq!(text(LangExpr::IntegerLiteral(BigInt::from_i64(-2147483648))), "-2147483648");
    assert_eq!(text(LangExpr::IntegerLiteral(BigInt::from_i64(2147483648))), "2147483648L");
    let big = BigInt::from_sign_magnitude(true, BigNat::from_digits(vec![0, 0, 1]));
    assert_eq!(text(LangExpr::IntegerLiteral(big)), "new java.math.BigInteger(\"-18446744073709551616\")");
    assert_eq!(text(LangExpr::StringLiteral("a\"b\\c\n".to_string())), "\"a\\\"b\\\\c\\n\"");
    assert_eq!(text(LangExpr::StringLiteral("x\ty\r".to_string())), "\"x\ty\\r\"");
    assert_eq!(text(LangExpr::Identifier("value".to_string())), "value");
    assert_eq!(text(LangExpr::ReadDiscriminator), "dev.argon.verilization.runtime.Nat.codec.read(reader)");
    assert_eq!(
        text(LangExpr::WriteDiscriminator(BigNat::from_u64(3))),
        "dev.argon.verilization.runtime.Nat.codec.write(writer, java.math.BigInteger.valueOf(3))"
    );
}

#[test]
fn file_paths() {
    let o = options(&[]);
    let path = java_file_path_exec(&o, &QualifiedName::from_str("geom.point").unwrap()).unwrap();
    assert_eq!(path, vec!["out", "com", "example", "geom", "Point.java"]);
    assert!(matches!(
        java_file_path_exec(&o, &QualifiedName::from_str("elsewhere.point").unwrap()),
        Err(GeneratorError::UnmappedPackage(_))
    ));
}

#[test]
fn struct_file() {
    let fs = files("struct Point { version 1 { x: int; } }");
    assert_eq!(fs.len(), 1);
    assert_eq!(fs[0].path, vec!["out", "com", "example", "geom", "Point.java"]);
    let expected = "package com.example.geom;\n\
public abstract class Point {\n\
\tprivate Point() {}\n\
\tpublic static record V1(java.math.BigInteger x) {\n\
\t\tpublic static final dev.argon.verilization.runtime.Codec<com.example.geom.Point.V1> codec = new dev.argon.verilization.runtime.Codec<com.example.geom.Point.V1>() {\n\
\t\t\t@Override\n\
\t\t\tpublic com.example.geom.Point.V1 read(dev.argon.verilization.runtime.FormatReader reader) throws java.io.IOException {\n\
\t\t\t\treturn new com.example.geom.Point.V1(com.example.geom.Int.codec.read(reader));\n\
\t\t\t}\n\
\t\t\t@Override\n\
\t\t\tpublic void write(dev.argon.verilization.runtime.FormatWriter writer, com.example.geom.Point.V1 value) throws java.io.IOException {\n\
\t\t\t\tcom.example.geom.Int.codec.write(writer, value.x);\n\
\t\t\t}\n\
\t\t};\n\
}\n\
}\n";
    assert_eq!(fs[0].contents, expected);
}

#[test]
fn enum_file() {
    let fs = files("enum Shape { version 1 { circle: int; } }");
    assert_eq!(fs.len(), 1);
    assert_eq!(fs[0].path, vec!["out", "com", "example", "geom", "Shape.java"]);
    let expected = "package com.example.geom;\n\
public abstract class Shape {\n\
\tprivate Shape() {}\n\
\tpublic static sealed interface V1 {\n\
\t\tpublic static record Circle(java.math.BigInteger circle) implements V1 {}\n\
\t\tpublic static final dev.argon.verilization.runtime.Codec<com.example.geom.Shape.V1> codec = new dev.argon.verilization.runtime.Codec<com.example.geom.Shape.V1>() {\n\
\t\t\t@Override\n\
\t\t\tpublic com.example.geom.Shape.V1 read(dev.argon.verilization.runtime.FormatReader reader) throws java.io.IOException {\n\
\t\t\t\tswitch(dev.argon.verilization.runtime.Nat.codec.read(reader).intValueExact()) {\n\
\t\t\t\t\tcase 0:\n\
\t\t\t\t\t{\n\
\t\t\t\t\t\treturn new com.example.geom.Shape.V1.Circle(com.example.geom.Int.codec.read(reader));\n\
\t\t\t\t\t}\n\
\t\t\t\t\tdefault: throw new java.io.IOException(\"Invalid tag number.\");\n\
\t\t\t\t}\n\
\t\t\t}\n\
\t\t\t@Override\n\
\t\t\tpublic void write(dev.argon.verilization.runtime.FormatWriter writer, com.example.geom.Shape.V1 value) throws java.io.IOException {\n\
\t\t\t\tswitch(value) {\n\
\t\t\t\t\tcase com.example.geom.Shape.V1.Circle case_circle:\n\
\t\t\t\t\t{\n\
\t\t\t\t\t\tvar circle = case_circle.circle();\n\
\t\t\t\t\t\tdev.argon.verilization.runtime.Nat.codec.write(writer, java.math.BigInteger.valueOf(0));\n\
\t\t\t\t\t\tcom.example.geom.Int.codec.write(writer, circle);\n\
\t\t\t\t\t\tbreak;\n\
\t\t\t\t\t}\n\
\t\t\t\t}\n\
\t\t\t}\n\
\t\t};\n\
}\n\
}\n";
    assert_eq!(fs[0].contents, expected);
}

#[test]
fn constant_file() {
    let fs = files("const zero: int { version 1 = 5; }");
    assert_eq!(fs.len(), 1);
    assert_eq!(fs[0].path, vec!["out", "com", "example", "geom", "Zero.java"]);
    assert_eq!(
        fs[0].contents,
        "package com.example.geom;\npublic final class Zero {\n\tprivate Zero() {}\n\tpublic static final java.math.BigInteger v1 = com.example.geom.Int.fromInteger(5);\n}\n"
    );
}

#[test]
fn constants_come_before_types() {
    let fs = files("struct Point { version 1 { x: int; } } const zero: int { version 1 = 0; }");
    assert_eq!(fs.len(), 2);
    assert_eq!(fs[0].path[4], "Zero.java");
    assert_eq!(fs[1].path[4], "Point.java");
}

#[test]
fn unmapped_package_is_an_error() {
    let m = parse_model("version 1; package other; struct S { version 1 { } }").unwrap();
    let r = JavaLanguage::generate(&m, &options(&[]));
    assert!(matches!(r, Err(GeneratorError::UnmappedPackage(p)) if p.package == vec!["other"]));
}

#[test]
fn default_package_has_no_declaration() {
    let m = parse_model("version 1; struct S { version 1 { } }").unwrap();
    let fs = JavaLanguage::generate(&m, &options(&[("pkg:", "")])).unwrap();
    assert_eq!(fs[0].path, vec!["out", "S.java"]);
    assert!(fs[0].contents.starts_with("public abstract class S {\n"));
}

#[test]
fn generic_records() {
    let fs = files("struct Pair<A> { version 1 { first: A; second: int; } }");
    assert!(fs[0].contents.contains("\tpublic static record V1<A>(A first,java.math.BigInteger second) {\n"));
    let fs = files("enum Choice<T> { version 1 { some: T; other: int; } }");
    assert!(fs[0].contents.contains(
        "\tpublic static sealed interface V1<T> {\n\
\t\tpublic static record Some<T>(T some) implements V1<T> {}\n\
\t\tpublic static record Other<T>(java.math.BigInteger other) implements V1<T> {}\n"
    ));
}

#[test]
fn converters_between_versions() {
    let m = parse_model(
        "version 2; package geom; extern int { literal { integer (,); } } \
         struct Point { version 1 { x: int; } version 2 { x: int; y: int; } } \
         enum Shape { version 1 { circle: int; } }",
    )
    .unwrap();
    let fs = JavaLanguage::generate(&m, &options(&[])).unwrap();
    let point = fs.iter().find(|f| f.path[4] == "Point.java").unwrap();
    assert!(point.contents.contains(
        "\t\tpublic static final dev.argon.verilization.runtime.Converter<com.example.geom.Point.V1, com.example.geom.Point.V2> fromV1 = com.example.geom.Point_Conversions.v1ToV2;\n"
    ));
    let shape = fs.iter().find(|f| f.path[4] == "Shape.java").unwrap();
    assert!(shape.contents.contains(
        "\t\tpublic static final dev.argon.verilization.runtime.Converter<com.example.geom.Shape.V1, com.example.geom.Shape.V2> fromV1 = new dev.argon.verilization.runtime.Converter<com.example.geom.Shape.V1, com.example.geom.Shape.V2>() {\n\
\t\t\t@Override\n\
\t\t\tpublic com.example.geom.Shape.V2 convert(com.example.geom.Shape.V1 prev) {\n\
\t\t\t\treturn switch(prev) {\n\
\t\t\t\t\tcase com.example.geom.Shape.V1.Circle case_circle -> {\n\
\t\t\t\t\t\tvar circle = case_circle.circle();\n\
\t\t\t\t\t\tyield new com.example.geom.Shape.V2.Circle(circle);\n\
\t\t\t\t\t}\n\
\t\t\t\t};\n\
\t\t\t}\n\
\t\t};\n"
    ));
}
