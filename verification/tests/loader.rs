use verilization::assemble::{parse_model, ParseError};
use verilization::loader::{load_all_models, VError};
use verilization::names::QualifiedName;
use verilization::type_check::TypeCheckError;

fn load(texts: &[&str]) -> Result<verilization::model::Verilization, VError> {
    load_all_models(texts.iter().map(|t| parse_model(t)).collect())
}

#[test]
fn no_input_files() {
    assert!(matches!(load(&[]), Err(VError::NoInputFiles)));
}

#[test]
fn loads_and_checks_several_files() {
    let model = load(&[
        "version 1; extern int { literal { integer (,); } }",
        "version 2; struct A { version 1 { x: int; } }",
        "version 2; const origin: A { version 1 = { x = 3; }; }",
    ])
    .unwrap();
    assert_eq!(model.latest_version().to_u64(), Some(2));
    assert!(model.has_type(&QualifiedName::from_parts(&[], "int")));
    assert!(model.has_type(&QualifiedName::from_parts(&[], "A")));
    assert!(model.has_constant(&QualifiedName::from_parts(&[], "origin")));
}

#[test]
fn first_error_wins() {
    match load(&["version 1; struct A { }", "version 1; struct a { }", "not a model"]) {
        Err(VError::MergeConflict(n)) => assert_eq!(n.name, "a"),
        other => panic!("unexpected {:?}", other.err()),
    }
    match load(&["version 1; struct A { }", "not a model", "version 1; struct a { }"]) {
        Err(VError::ParseError(ParseError::Syntax)) => (),
        other => panic!("unexpected {:?}", other.err()),
    }
}

#[test]
fn type_errors_are_reported() {
    match load(&["version 1; struct A { version 1 { b: B; } }"]) {
        Err(VError::TypeCheckError(TypeCheckError::TypeNotDefined(n))) => assert_eq!(n.name, "B"),
        other => panic!("unexpected {:?}", other.err()),
    }
}
