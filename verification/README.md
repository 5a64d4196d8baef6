# verilization

Verilization describes versioned binary formats. A model file declares, for
each version of a format, the structs, enums, extern types and constants it is
made of; this crate reads such files, builds and merges their models, type
checks them, generates Java, Scala and TypeScript code for them, and encodes and
decodes values in the runtime format. The functions of the library are
verified with Verus against their contracts, except a few small wrappers
around outside code, whose contracts are trusted: the calls into
`num-bigint` (`src/bignum.rs`), into `pathdiff` (`src/ts_file.rs`), and two
calls of the standard library that Verus has no specification for
(`String::from_utf8` in `src/codec.rs`, `String::push` in `src/text.rs`).
Each is marked `#[verifier::external_body]` and says in its doc comment what
is assumed of it.

Interface types are not part of the model: the model has structs, enums,
extern types and constants only, and the syntax read here has no interface
definitions.

## Layout

- `src/bignum.rs` – natural numbers and integers of any size (the arithmetic is
  done by `num-bigint`).
- `src/vlq_spec.rs`, `src/vlq.rs` – the variable-length encoding of `nat` and
  `int`, and the proof that decoding an encoding gives the number back.
- `src/runtime.rs`, `src/codec.rs` – readers, writers, and the encoding of the
  runtime types (fixed-width integers, `nat`, `int`, `string`, `list`,
  `option`), with the law that reading what was written gives the value back.
- `src/names.rs`, `src/order.rs`, `src/util.rs`, `src/text.rs` – package and
  qualified names, their text form and order, and identifier case.
- `src/model.rs`, `src/versions.rs`, `src/scope.rs` – the model: definitions,
  the definition in effect at each version, name lookup, merging.
- `src/ast.rs`, `src/lexer.rs`, `src/grammar.rs`, `src/parser.rs`,
  `src/assemble.rs` – the model file syntax, stated as a grammar and read
  exactly as stated, and the building of models from it.
- `src/type_check.rs`, `src/loader.rs` – the type checker and the loading of a
  format from several files.
- `src/lang.rs` – the languages code can be generated for, the registry that
  finds them by name, and an in-memory output handler.
- `src/generator.rs` – what is generated for each type and constant, for any
  language: the types, codecs, conversions and values of each version.
- `src/java.rs`, `src/java_file.rs` – the Java options and the Java text of
  types, expressions, statements and whole files.
- `src/scala.rs`, `src/scala_file.rs` – the Scala options, the Scala text of
  types, expressions and statements (reads and writes run as `zio` effects),
  and whole files.
- `src/ts.rs`, `src/ts_file.rs` – the TypeScript options and text, the
  imports of each module (with relative paths from `pathdiff`), and whole
  files.
- `app/main.rs` – the command line, which reads model files and writes the
  generated files.
- `tests/` – tests of the library on concrete inputs.
