use verilization::lang::{make_field_name, make_type_name};
use verilization::names::{PackageName, QualifiedName};
use verilization::util::{capitalize_identifier, uncapitalize_identifier};

#[test]
fn package_from_str() {
    assert_eq!(PackageName::from_str("a.b.c").package, vec!["a", "b", "c"]);
    assert!(PackageName::from_str("").package.is_empty());
    assert!(PackageName::new().package.is_empty());
    assert_eq!(PackageName::from_parts(&["x", "y"]).package, vec!["x", "y"]);
}

#[test]
fn qualified_from_str() {
    let q = QualifiedName::from_str("com.example.Thing").unwrap();
    assert_eq!(q.package.package, vec!["com", "example"]);
    assert_eq!(q.name, "Thing");
    let q = QualifiedName::from_str("Thing").unwrap();
    assert!(q.package.package.is_empty());
    assert_eq!(q.name, "Thing");
    let q = QualifiedName::from_parts(&["a"], "B");
    assert_eq!(q.to_string(), "a.B");
}

#[test]
fn qualified_text_roundtrip() {
    for text in ["a.b.C", "C", "x..y", "", "."] {
        assert_eq!(QualifiedName::from_str(text).unwrap().to_string(), text);
    }
    assert_eq!(PackageName::from_str("p.q").to_string(), "p.q");
}

#[test]
fn name_equality() {
    let a = QualifiedName::from_str("a.B").unwrap();
    let b = QualifiedName::from_parts(&["a"], "B");
    let c = QualifiedName::from_parts(&["a"], "b");
    assert!(a.equals(&b));
    assert!(!a.equals(&c));
}

#[test]
fn capitalization() {
    let mut s = String::from("hello");
    capitalize_identifier(&mut s);
    assert_eq!(s, "Hello");
    let mut s = String::from("Hello");
    uncapitalize_identifier(&mut s);
    assert_eq!(s, "hello");
    let mut s = String::from("9lives");
    capitalize_identifier(&mut s);
    assert_eq!(s, "9lives");
    let mut s = String::new();
    uncapitalize_identifier(&mut s);
    assert_eq!(s, "");
    assert_eq!(make_type_name("point"), "Point");
    assert_eq!(make_field_name("XCoord"), "xCoord");
}

#[test]
fn package_parts_roundtrip() {
    let p = PackageName::from_parts(&["com", "example", "geom"]);
    let text = p.to_string();
    assert_eq!(text, "com.example.geom");
    assert_eq!(PackageName::from_str(&text).package, p.package);
    assert_eq!(PackageName::from_str("a..b").package, vec!["a", "", "b"]);
}
