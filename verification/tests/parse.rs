use verilization::assemble::{parse_model, ParseError};
use verilization::model::{
    ConstantValue, ExternLiteralIntBound, ExternLiteralSpecifier, ModelError, NamedTypeDefinition,
};
use verilization::names::QualifiedName;

const EXAMPLE: &str = "
version 3;
package com.example;

extern int {
    literal {
        integer (,);
    }
}

extern u8 {
    literal {
        integer [0, 256);
    }
}

extern string {
    literal {
        string;
    }
}

extern list<T> {
    literal {
        sequence T;
    }
}

final struct Point {
    version 1 {
        x: int;
        y: int;
    }
}

enum Shape<T> {
    version 1 {
        circle: int;
    }
    version 2 {
        circle: int;
        square: list(T);
    }
}

const origin: Point {
    version 1 = { x = 0; y = -0; };
}

const names: list(string) {
    version 2 = [\"a\", \"b\\\"c\",];
}
";

fn name(pkg: &[&str], n: &str) -> QualifiedName {
    QualifiedName::from_parts(pkg, n)
}

#[test]
fn parses_a_full_file() {
    let model = parse_model(EXAMPLE).unwrap();
    assert_eq!(model.latest_version().to_u64(), Some(3));
    assert_eq!(model.type_count(), 6);
    assert_eq!(model.constant_count(), 2);
    let pkg = ["com", "example"];

    match model.get_type(&name(&pkg, "u8")).unwrap() {
        NamedTypeDefinition::ExternType(t) => {
            assert_eq!(t.value.literals.len(), 1);
            match &t.value.literals[0] {
                ExternLiteralSpecifier::Integer(lb, lo, ub, hi) => {
                    assert_eq!(*lb, ExternLiteralIntBound::Inclusive);
                    assert_eq!(*ub, ExternLiteralIntBound::Exclusive);
                    assert_eq!(lo.as_ref().unwrap().magnitude().to_u64(), Some(0));
                    assert_eq!(hi.as_ref().unwrap().magnitude().to_u64(), Some(256));
                },
                _ => panic!("integer literal expected"),
            }
        },
        _ => panic!("extern type expected"),
    }

    match model.get_type(&name(&pkg, "int")).unwrap() {
        NamedTypeDefinition::ExternType(t) => match &t.value.literals[0] {
            ExternLiteralSpecifier::Integer(_, lo, _, hi) => {
                assert!(lo.is_none());
                assert!(hi.is_none());
            },
            _ => panic!("integer literal expected"),
        },
        _ => panic!("extern type expected"),
    }

    match model.get_type(&name(&pkg, "Point")).unwrap() {
        NamedTypeDefinition::StructType(t) => {
            assert!(t.value.is_final);
            assert_eq!(t.value.versions.len(), 1);
            let fields = &t.value.versions[0].1.fields;
            assert_eq!(fields.len(), 2);
            assert_eq!(fields[0].0, "x");
            assert_eq!(fields[1].1.field_type.name.name, "int");
        },
        _ => panic!("struct expected"),
    }

    match model.get_type(&name(&pkg, "Shape")).unwrap() {
        NamedTypeDefinition::EnumType(t) => {
            assert!(!t.value.is_final);
            assert_eq!(t.value.type_params, vec!["T"]);
            assert_eq!(t.value.versions.len(), 2);
            let square = &t.value.versions[1].1.fields[1].1.field_type;
            assert_eq!(square.name.name, "list");
            assert_eq!(square.args.len(), 1);
            assert_eq!(square.args[0].name.name, "T");
        },
        _ => panic!("enum expected"),
    }

    let names = model.get_constant(&name(&pkg, "names")).unwrap();
    assert_eq!(names.value.versions[0].0.to_u64(), Some(2));
    match &names.value.versions[0].1 {
        ConstantValue::Sequence(items) => {
            assert_eq!(items.len(), 2);
            match &items[1] {
                ConstantValue::String(s) => assert_eq!(s, "b\"c"),
                _ => panic!("string expected"),
            }
        },
        _ => panic!("sequence expected"),
    }
    assert!(model.get_type(&name(&[], "Point")).is_none());
    assert!(model.has_type(&name(&pkg, "list")));
    assert!(!model.has_constant(&name(&pkg, "list")));
}

#[test]
fn constant_values() {
    let model = parse_model(
        "version 1; const c: T { version 1 = some(other.thing, -12, +3, [], { a = x; }); }",
    )
    .unwrap();
    let c = model.get_constant(&name(&[], "c")).unwrap();
    match &c.value.versions[0].1 {
        ConstantValue::Case(n, args) => {
            assert_eq!(n, "some");
            assert_eq!(args.len(), 5);
            match &args[0] {
                ConstantValue::Constant(q) => assert_eq!(q.to_string(), "other.thing"),
                _ => panic!("constant expected"),
            }
            match &args[1] {
                ConstantValue::Integer(i) => {
                    assert_eq!(i.magnitude().to_u64(), Some(12));
                    assert_eq!(i.sign(), verilization::bignum::Sign::Minus);
                },
                _ => panic!("integer expected"),
            }
            match &args[3] {
                ConstantValue::Sequence(items) => assert!(items.is_empty()),
                _ => panic!("sequence expected"),
            }
            match &args[4] {
                ConstantValue::Record(fields) => assert_eq!(fields[0].0, "a"),
                _ => panic!("record expected"),
            }
        },
        _ => panic!("case expected"),
    }
}

fn syntax_error(text: &str) -> bool {
    matches!(parse_model(text), Err(ParseError::Syntax))
}

#[test]
fn syntax_errors() {
    assert!(syntax_error(""));
    assert!(syntax_error("version;"));
    assert!(syntax_error("version 1"));
    assert!(syntax_error("version1;"));
    assert!(syntax_error("version 1; struct A { version 1 { a: B } }"));
    assert!(syntax_error("version 1; struct A { } garbage"));
    assert!(syntax_error("version 1; interface A { }"));
    assert!(syntax_error("version 1; const c: T { version 1 = \"unterminated; }"));
    assert!(!syntax_error("  version 1 ;  \n  "));
    assert!(syntax_error("version 01;"));
}

#[test]
fn leading_zero_is_a_single_digit() {
    assert!(syntax_error("version 1; struct A { version 01 { } }"));
    let model = parse_model("version 0; ").unwrap();
    assert_eq!(model.latest_version().to_u64(), Some(0));
}

#[test]
fn duplicate_names_ignore_case() {
    match parse_model("version 1; struct Foo { } const foo: Foo { }") {
        Err(ParseError::Model(ModelError::DuplicateConstant(n))) => assert_eq!(n.name, "foo"),
        _ => panic!("duplicate constant expected"),
    }
    match parse_model("version 1; const foo: Foo { } extern FOO { }") {
        Err(ParseError::Model(ModelError::DuplicateType(n))) => assert_eq!(n.name, "FOO"),
        _ => panic!("duplicate type expected"),
    }
}

#[test]
fn duplicate_versions_and_fields() {
    match parse_model("version 2; struct A { version 1 { } version 1 { } }") {
        Err(ParseError::Model(ModelError::DuplicateVersion(n, v))) => {
            assert_eq!(n.name, "A");
            assert_eq!(v.to_u64(), Some(1));
        },
        _ => panic!("duplicate version expected"),
    }
    match parse_model("version 2; struct A { version 1 { a: X; b: X; a: Y; } }") {
        Err(ParseError::Model(ModelError::DuplicateField(n, v, f))) => {
            assert_eq!(n.name, "A");
            assert_eq!(v.to_u64(), Some(1));
            assert_eq!(f, "a");
        },
        _ => panic!("duplicate field expected"),
    }
    match parse_model("version 2; const c: X { version 2 = 1; version 2 = 2; }") {
        Err(ParseError::Model(ModelError::DuplicateVersion(n, v))) => {
            assert_eq!(n.name, "c");
            assert_eq!(v.to_u64(), Some(2));
        },
        _ => panic!("duplicate version expected"),
    }
}

#[test]
fn duplicate_record_fields() {
    match parse_model("version 1; const c: X { version 1 = { a = { b = 1; b = 2; }; a = 3; }; }") {
        Err(ParseError::Model(ModelError::DuplicateFieldValue(f))) => assert_eq!(f, "b"),
        _ => panic!("duplicate field value expected"),
    }
    match parse_model("version 1; extern E { literal { record { a: X; b: X; b: Y; }; } }") {
        Err(ParseError::Model(ModelError::DuplicateRecordField(n, f))) => {
            assert_eq!(n.name, "E");
            assert_eq!(f, "b");
        },
        _ => panic!("duplicate record field expected"),
    }
}

#[test]
fn merge_models() {
    let mut a = parse_model("version 2; struct A { version 1 { } }").unwrap();
    let b = parse_model("version 5; struct B { version 1 { } } const k: B { }").unwrap();
    a.merge(b).unwrap();
    assert_eq!(a.latest_version().to_u64(), Some(5));
    assert!(a.has_type(&name(&[], "A")));
    assert!(a.has_type(&name(&[], "B")));
    assert!(a.has_constant(&name(&[], "k")));

    let c = parse_model("version 1; const x: A { } struct a { }").unwrap();
    match a.merge(c) {
        Err(n) => assert_eq!(n.name, "a"),
        Ok(()) => panic!("clash expected"),
    }
    assert!(a.has_constant(&name(&[], "x")));
    assert_eq!(a.latest_version().to_u64(), Some(5));
}

#[test]
fn versions_in_effect() {
    let model = parse_model(
        "version 4; struct S { version 1 { a: X; } version 3 { b: X; } } final struct F { version 2 { } }",
    )
    .unwrap();
    let s = match model.get_type(&name(&[], "S")).unwrap() {
        NamedTypeDefinition::StructType(t) => t,
        _ => panic!("struct expected"),
    };
    let v = verilization::bignum::BigNat::from_u64;
    assert!(s.value.versioned(&v(0)).is_none());
    let at2 = s.value.versioned(&v(2)).unwrap();
    assert_eq!(at2.version.to_u64(), Some(2));
    assert!(!at2.explicit_version);
    assert_eq!(at2.ver_type.fields[0].0, "a");
    let at3 = s.value.versioned(&v(3)).unwrap();
    assert!(at3.explicit_version);
    assert_eq!(at3.ver_type.fields[0].0, "b");
    assert!(s.value.versioned(&v(5)).is_none());
    assert_eq!(s.value.last_explicit_version().unwrap().to_u64(), Some(3));

    let f = match model.get_type(&name(&[], "F")).unwrap() {
        NamedTypeDefinition::StructType(t) => t,
        _ => panic!("struct expected"),
    };
    let at9 = f.value.versioned(&v(9)).unwrap();
    assert_eq!(at9.version.to_u64(), Some(2));
    assert!(f.value.versioned(&v(1)).is_none());
}
