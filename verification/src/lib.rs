//! Verilization: a description language for versioned binary formats, its
//! model, type checker and the runtime encoding of its values.
pub mod bignum;
pub mod vlq_spec;
pub mod runtime;
pub mod vlq;
pub mod codec;
pub mod text;
pub mod util;
pub mod names;
pub mod versions;
pub mod model;
pub mod scope;
pub mod type_check;
pub mod ast;
pub mod lexer;
pub mod grammar;
pub mod parser;
pub mod assemble;
pub mod lang;
pub mod loader;
pub mod order;
pub mod generator;
pub mod java;
pub mod java_file;
pub mod ts;
pub mod ts_file;
pub mod scala;
pub mod scala_file;
