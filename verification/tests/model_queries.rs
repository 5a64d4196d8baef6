use verilization::assemble::parse_model;
use verilization::bignum::BigNat;
use verilization::model::{
    ConstantValue, NamedTypeDefinition, Type, TypeDefinition, Verilization, VerilizationMetadata,
    VersionedTypeDefinitionData,
};
use verilization::names::QualifiedName;
use verilization::scope::Scope;
use verilization::model::ScopeLookup;

fn name(pkg: &[&str], n: &str) -> QualifiedName {
    QualifiedName::from_parts(pkg, n)
}

fn struct_named<'a>(model: &'a Verilization, n: &str) -> &'a VersionedTypeDefinitionData {
    match model.get_type(&name(&[], n)).unwrap() {
        NamedTypeDefinition::StructType(t) => t.value,
        NamedTypeDefinition::EnumType(t) => t.value,
        _ => panic!("struct expected"),
    }
}

#[test]
fn add_then_get() {
    let mut model = Verilization::new(VerilizationMetadata { latest_version: BigNat::from_u64(2) });
    let data = VersionedTypeDefinitionData {
        imports: Vec::new(),
        type_params: vec![String::from("T")],
        versions: Vec::new(),
        is_final: false,
        latest_version: BigNat::from_u64(2),
    };
    model.add_type(name(&["p"], "Thing"), TypeDefinition::EnumType(data)).unwrap();
    match model.get_type(&name(&["p"], "Thing")).unwrap() {
        NamedTypeDefinition::EnumType(t) => {
            assert_eq!(t.value.type_params, vec!["T"]);
            assert_eq!(t.name.name, "Thing");
        },
        _ => panic!("enum expected"),
    }
    assert_eq!(model.get_type(&name(&["p"], "Thing")).unwrap().arity(), 1);
    let again = VersionedTypeDefinitionData {
        imports: Vec::new(),
        type_params: Vec::new(),
        versions: Vec::new(),
        is_final: false,
        latest_version: BigNat::from_u64(2),
    };
    match model.add_type(name(&["P"], "THING"), TypeDefinition::StructType(again)) {
        Err(n) => assert_eq!(n.to_string(), "P.THING"),
        Ok(()) => panic!("clash expected"),
    }
    assert_eq!(model.type_count(), 1);
}

#[test]
fn merged_lookups_keep_their_meaning() {
    let mut a = parse_model("version 1; struct A { version 1 { x: X; } }").unwrap();
    let b = parse_model("version 1; enum B { version 1 { y: Y; } }").unwrap();
    a.merge(b).unwrap();
    match a.get_type(&name(&[], "A")).unwrap() {
        NamedTypeDefinition::StructType(t) => assert_eq!(t.value.versions[0].1.fields[0].0, "x"),
        _ => panic!("struct expected"),
    }
    match a.get_type(&name(&[], "B")).unwrap() {
        NamedTypeDefinition::EnumType(t) => assert_eq!(t.value.versions[0].1.fields[0].0, "y"),
        _ => panic!("enum expected"),
    }
}

#[test]
fn type_versions_list() {
    let model = parse_model("version 4; struct S { version 2 { a: X; } version 3 { b: X; } }").unwrap();
    let s = struct_named(&model, "S");
    let vs = s.versions();
    let versions: Vec<Option<u64>> = vs.iter().map(|i| i.version.to_u64()).collect();
    assert_eq!(versions, vec![Some(2), Some(3), Some(4)]);
    assert!(vs[0].explicit_version && vs[1].explicit_version && !vs[2].explicit_version);
    assert_eq!(vs[2].ver_type.fields[0].0, "b");

    let model = parse_model("version 9; final struct F { version 1 { } version 3 { } }").unwrap();
    let f = struct_named(&model, "F");
    let versions: Vec<Option<u64>> = f.versions().iter().map(|i| i.version.to_u64()).collect();
    assert_eq!(versions, vec![Some(1), Some(2), Some(3)]);
    assert_eq!(f.max_version_exec().to_u64(), Some(3));
}

#[test]
fn constant_versions_list() {
    let model = parse_model("version 4; const c: X { version 2 = 1; version 3 = \"a\"; }").unwrap();
    let c = model.get_constant(&name(&[], "c")).unwrap();
    let vs = c.versions();
    let versions: Vec<Option<u64>> = vs.iter().map(|i| i.version.to_u64()).collect();
    assert_eq!(versions, vec![Some(2), Some(3), Some(4)]);
    assert!(vs[0].value.is_some() && vs[1].value.is_some() && vs[2].value.is_none());
    assert!(!c.has_version(&BigNat::from_u64(1)));
    assert!(c.has_version(&BigNat::from_u64(4)));
    assert!(!c.has_version(&BigNat::from_u64(5)));
    match c.value_at(&BigNat::from_u64(4)) {
        Some(ConstantValue::String(s)) => assert_eq!(s, "a"),
        _ => panic!("string expected"),
    }
    assert!(c.value_at(&BigNat::from_u64(1)).is_none());
}

#[test]
fn referenced_types_once_each() {
    let model = parse_model(
        "version 2; struct S { version 1 { a: list(X); b: map(X, p.Y); } version 2 { c: p.Y; d: Z; } }
         const k: map(list(X), X) { }",
    )
    .unwrap();
    let s = struct_named(&model, "S");
    let names: Vec<String> = s.referenced_types().iter().map(|q| q.to_string()).collect();
    assert_eq!(names, vec!["list", "X", "map", "p.Y", "Z"]);
    let k = model.get_constant(&name(&[], "k")).unwrap();
    let names: Vec<String> = k.value.referenced_types().iter().map(|q| q.to_string()).collect();
    assert_eq!(names, vec!["map", "list", "X"]);
}

#[test]
fn scope_lookups() {
    let model = parse_model("version 1; package p; struct S<T> { version 1 { } } extern E { }").unwrap();
    let s = match model.get_type(&name(&["p"], "S")).unwrap() {
        NamedTypeDefinition::StructType(t) => t,
        _ => panic!("struct expected"),
    };
    let scope = Scope::of_versioned_type(&s);
    match scope.lookup(name(&[], "T")) {
        ScopeLookup::TypeParameter(p) => assert_eq!(p, "T"),
        _ => panic!("type parameter expected"),
    }
    match scope.lookup(name(&[], "E")) {
        ScopeLookup::NamedType(n) => assert_eq!(n.to_string(), "p.E"),
        _ => panic!("named type expected"),
    }
    match scope.lookup(name(&[], "Other")) {
        ScopeLookup::NamedType(n) => assert_eq!(n.to_string(), "Other"),
        _ => panic!("named type expected"),
    }
    match scope.lookup(name(&["q"], "T")) {
        ScopeLookup::NamedType(n) => assert_eq!(n.to_string(), "q.T"),
        _ => panic!("named type expected"),
    }
    assert_eq!(scope.type_params(), vec!["T"]);
    let empty = Scope::empty(&model);
    match empty.lookup(name(&[], "E")) {
        ScopeLookup::NamedType(n) => assert_eq!(n.to_string(), "E"),
        _ => panic!("named type expected"),
    }
    let t = Type { name: name(&[], "T"), args: Vec::new() };
    assert_eq!(t.args.len(), 0);
}

#[test]
fn bignat_digits() {
    let n = BigNat::from_digits(vec![1, 2]);
    assert_eq!(n.to_u64(), Some((2u64 << 32) + 1));
    assert_eq!(n.to_digits(), vec![1, 2]);
    assert_eq!(BigNat::from_digits(BigNat::from_u64(0).to_digits()).to_u64(), Some(0));
}

#[test]
fn listing_in_order() {
    let model = parse_model("version 1; extern B { } struct A { } const c: A { } const d: B { }").unwrap();
    let names: Vec<String> = model.types().iter().map(|t| t.name().to_string()).collect();
    assert_eq!(names, vec!["B", "A"]);
    let names: Vec<String> = model.constants().iter().map(|c| c.name().to_string()).collect();
    assert_eq!(names, vec!["c", "d"]);
}

#[test]
fn merged_constant_runs_to_model_latest() {
    let mut a = parse_model("version 2; const c: X { version 1 = 7; }").unwrap();
    let b = parse_model("version 4; struct S { version 1 { } }").unwrap();
    a.merge(b).unwrap();
    let c = a.get_constant(&name(&[], "c")).unwrap();
    let versions: Vec<Option<u64>> = c.versions().iter().map(|i| i.version.to_u64()).collect();
    assert_eq!(versions, vec![Some(1), Some(2), Some(3), Some(4)]);
    assert!(c.has_version(&BigNat::from_u64(4)));
    assert!(!c.has_version(&BigNat::from_u64(5)));
    assert!(c.value_at(&BigNat::from_u64(3)).is_some());
}
