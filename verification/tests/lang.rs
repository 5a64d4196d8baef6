use verilization::generator::GeneratorError;
use verilization::java::JavaOptions;
use verilization::java_file::JavaFile;
use verilization::bignum::BigNat;
use verilization::model::{Verilization, VerilizationMetadata};
use verilization::lang::{
    language_registry_new, JavaLanguage, Language, LanguageDispatch, LanguageHandler, LanguageOptions,
    LanguageOptionsBuilder, LanguageRegistry,
    MemoryOutputHandler, ScalaLanguage, TypeScriptLanguage, VersionedTypeKind,
};

struct NameOf;

impl LanguageHandler for NameOf {
    type Output = &'static str;
    fn run<Lang: Language>(&mut self) -> &'static str {
        Lang::name()
    }
}

#[test]
fn language_names() {
    assert_eq!(JavaLanguage::name(), "java");
    assert_eq!(ScalaLanguage::name(), "scala");
    assert_eq!(TypeScriptLanguage::name(), "typescript");
    assert_ne!(VersionedTypeKind::Struct, VersionedTypeKind::Enum);
}

#[test]
fn registry_lookup() {
    let empty = language_registry_new();
    assert!(!empty.has_language("java"));
    let registry = language_registry_new()
        .add_language::<JavaLanguage>()
        .add_language::<TypeScriptLanguage>();
    assert!(registry.has_language("java"));
    assert!(registry.has_language("typescript"));
    assert!(!registry.has_language("scala"));
    assert!(!registry.has_language("Java"));
    let mut handler = NameOf;
    assert_eq!(registry.handle_language("java", &mut handler), Some("java"));
    assert_eq!(registry.handle_language("typescript", &mut handler), Some("typescript"));
    assert_eq!(registry.handle_language("scala", &mut handler), None);
}

#[test]
fn memory_output_files() {
    let mut out = MemoryOutputHandler::new();
    let a = out.create_file("a.txt");
    out.write(a, b"hello ");
    let b = out.create_file("b/c.txt");
    out.write(b, b"x");
    let a2 = out.create_file("a.txt");
    assert_eq!(a, a2);
    out.write(a2, b"world");
    assert_eq!(out.files.len(), 2);
    assert_eq!(out.files[a].0, "a.txt");
    assert_eq!(out.files[a].1, b"hello world".to_vec());
    assert_eq!(out.files[b].1, b"x".to_vec());
}

struct Counted {
    runs: Vec<&'static str>,
}

impl LanguageHandler for Counted {
    type Output = usize;
    fn run<Lang: Language>(&mut self) -> usize {
        self.runs.push(Lang::name());
        self.runs.len()
    }
}

#[test]
fn registry_runs_the_handler() {
    let registry = language_registry_new()
        .add_language::<JavaLanguage>()
        .add_language::<ScalaLanguage>()
        .add_language::<TypeScriptLanguage>();
    let mut h = Counted { runs: Vec::new() };
    assert_eq!(registry.handle_language("scala", &mut h), Some(1));
    assert_eq!(h.runs, vec!["scala"]);
    assert_eq!(registry.handle_language("cobol", &mut h), None);
    assert_eq!(h.runs, vec!["scala"]);
    let mut all = Counted { runs: Vec::new() };
    assert_eq!(registry.each_language(&mut all), vec![1, 2, 3]);
    assert_eq!(all.runs, vec!["java", "scala", "typescript"]);
    let empty = language_registry_new();
    let mut none = Counted { runs: Vec::new() };
    assert!(empty.each_language(&mut none).is_empty());
    assert!(empty.handle_language("java", &mut none).is_none());
    assert!(none.runs.is_empty());
}

struct OtherJava;

impl Language for OtherJava {
    type Options = JavaOptions;
    type File = JavaFile;

    fn name() -> &'static str {
        "java"
    }

    fn generate(_model: &Verilization, _options: &JavaOptions) -> Result<Vec<JavaFile>, GeneratorError> {
        Err(GeneratorError::InvalidOptions(String::from("other java")))
    }

    fn file_parts(file: JavaFile) -> (Vec<String>, String) {
        JavaLanguage::file_parts(file)
    }
}

/// Generates an empty model with the language found, and tells whether that
/// succeeded.
struct GenerateEmpty;

impl LanguageHandler for GenerateEmpty {
    type Output = bool;
    fn run<Lang: Language>(&mut self) -> bool {
        let mut b = <Lang::Options as LanguageOptions>::Builder::empty();
        b.add("out_dir", "out").unwrap();
        let options = Lang::Options::build(b).unwrap();
        let model = Verilization::new(VerilizationMetadata { latest_version: BigNat::from_u64(1) });
        Lang::generate(&model, &options).is_ok()
    }
}

#[test]
fn registry_runs_the_last_added_of_a_name() {
    let registry = language_registry_new()
        .add_language::<JavaLanguage>()
        .add_language::<ScalaLanguage>();
    let mut h = GenerateEmpty;
    assert_eq!(registry.handle_language("java", &mut h), Some(true));
    let registry = registry.add_language::<OtherJava>();
    assert_eq!(registry.handle_language("java", &mut h), Some(false));
    assert_eq!(registry.handle_language("scala", &mut h), Some(true));
}
