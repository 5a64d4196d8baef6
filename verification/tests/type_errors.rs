use verilization::assemble::parse_model;
use verilization::type_check::{type_check_verilization, TypeCheckError};

const PRELUDE: &str = "
extern int { literal { integer (,); } }
extern u8 { literal { integer [0, 256); } }
extern small { literal { integer (0, 10]; } }
extern string { literal { string; } }
extern list<T> { literal { sequence T; } }
extern bytes { literal { sequence u8; } }
extern optstring { literal { case some(string); case none(); } }
extern optint { literal { case some(int); case none(); } }
extern pair { literal { record { first: u8; second: string; }; } }
";

fn check(body: &str) -> Result<(), TypeCheckError> {
    let text = format!("version 3;\n{}\n{}", PRELUDE, body);
    let model = parse_model(&text).unwrap();
    type_check_verilization(&model)
}

#[test]
fn well_typed_model() {
    let body = "
        struct P { version 1 { x: int; y: bytes; } }
        enum E<T> { version 1 { a: T; b: optstring; } }
        const pt: P { version 1 = { x = -5; y = [0, 255]; }; }
        const ev: E(int) { version 2 = b(some(\"s\")); }
        const q: pair { version 1 = { first = 1; second = \"x\"; }; }
        const r: P { version 3 = pt; }
        const s: small { version 1 = 10; }
    ";
    assert!(check(body).is_ok());
}

#[test]
fn undefined_type() {
    match check("struct A { version 1 { b: Missing; } }") {
        Err(TypeCheckError::TypeNotDefined(n)) => assert_eq!(n.name, "Missing"),
        other => panic!("unexpected {:?}", other),
    }
}

#[test]
fn arity_mismatch() {
    match check("struct A { version 1 { b: list; } }") {
        Err(TypeCheckError::ArityMismatch(1, 0)) => (),
        other => panic!("unexpected {:?}", other),
    }
    match check("struct A<T> { version 1 { b: T(int); } }") {
        Err(TypeCheckError::ArityMismatch(0, 1)) => (),
        other => panic!("unexpected {:?}", other),
    }
}

#[test]
fn duplicate_literal() {
    match check("extern D { literal { string; string; } }") {
        Err(TypeCheckError::DuplicateLiteral(n)) => assert_eq!(n.name, "D"),
        other => panic!("unexpected {:?}", other),
    }
    match check("extern D { literal { case a(); case b(); case a(int); } }") {
        Err(TypeCheckError::DuplicateLiteral(n)) => assert_eq!(n.name, "D"),
        other => panic!("unexpected {:?}", other),
    }
}

#[test]
fn integer_ranges() {
    assert!(check("const a: u8 { version 1 = 255; }").is_ok());
    match check("const a: u8 { version 1 = 256; }") {
        Err(TypeCheckError::ConstantHasIncorrectType(n, v)) => {
            assert_eq!(n.name, "a");
            assert_eq!(v.to_u64(), Some(1));
        },
        other => panic!("unexpected {:?}", other),
    }
    assert!(check("const a: u8 { version 1 = -1; }").is_err());
    assert!(check("const a: small { version 1 = 0; }").is_err());
    assert!(check("const a: small { version 1 = 1; }").is_ok());
}

#[test]
fn wrong_values() {
    assert!(check("const a: int { version 1 = \"s\"; }").is_err());
    assert!(check("const a: bytes { version 1 = [1, 300]; }").is_err());
    assert!(check("const a: optint { version 1 = some(1, 2); }").is_err());
    assert!(check("const a: optint { version 1 = other(1); }").is_err());
    assert!(check("const a: optint { version 1 = some(1); }").is_ok());
    assert!(check("struct P { version 1 { x: int; } } const a: P { version 1 = { x = 1; y = 2; }; }").is_err());
    assert!(check("struct P { version 1 { x: int; y: int; } } const a: P { version 1 = { x = 1; }; }").is_err());
}

#[test]
fn constants_refer_to_constants() {
    match check("const a: int { version 1 = b; }") {
        Err(TypeCheckError::ConstantNotDefined(n)) => assert_eq!(n.name, "b"),
        other => panic!("unexpected {:?}", other),
    }
    match check("const b: int { version 2 = 1; } const a: int { version 1 = b; }") {
        Err(TypeCheckError::ConstantNotInVersion(n, v)) => {
            assert_eq!(n.name, "b");
            assert_eq!(v.to_u64(), Some(1));
        },
        other => panic!("unexpected {:?}", other),
    }
    assert!(check("const b: string { version 1 = \"x\"; } const a: int { version 1 = b; }").is_err());
}

#[test]
fn value_checked_at_every_later_version() {
    let body = "
        struct S { version 1 { x: int; } version 2 { y: int; } }
        const a: S { version 1 = { x = 1; }; }
    ";
    match check(body) {
        Err(TypeCheckError::ConstantHasIncorrectType(n, v)) => {
            assert_eq!(n.name, "a");
            assert_eq!(v.to_u64(), Some(2));
        },
        other => panic!("unexpected {:?}", other),
    }
}

#[test]
fn final_types() {
    assert!(check("final struct A { version 1 { x: int; } } final struct B { version 2 { a: A; l: list(A); } }").is_ok());
    match check("struct A { version 1 { } } final struct B { version 2 { l: list(A); } }") {
        Err(TypeCheckError::TypeNotFinal(n)) => assert_eq!(n.name, "B"),
        other => panic!("unexpected {:?}", other),
    }
    match check("final struct A { version 3 { } } final struct B { version 2 { a: A; } }") {
        Err(TypeCheckError::TypeNotInVersion(n, v)) => {
            assert_eq!(n.name, "A");
            assert_eq!(v.to_u64(), Some(2));
        },
        other => panic!("unexpected {:?}", other),
    }
}

#[test]
fn literal_element_types_are_read_in_the_constant_scope() {
    match check("const a: list(u8) { version 1 = [1]; }") {
        Err(TypeCheckError::TypeNotDefined(n)) => assert_eq!(n.name, "T"),
        other => panic!("unexpected {:?}", other),
    }
}
