//! A small scripting language with lexical scoping, first-class functions
//! and closures: a lexer, a parser, a single-pass compiler to bytecode, and
//! a stack machine that runs the bytecode.
//!
//! Every function of the crate is verified against a contract. The
//! contracts of the executable functions are stated over mathematical
//! models: [`lex::lex_spec`] for the lexer, [`parse_spec::parse_spec`] for
//! the parser, [`compile_spec::compile_program_spec`] for the compiler and
//! [`machine::spec_step`] for the machine.
pub mod balance;
pub mod bytecode;
pub mod compile;
pub mod compile_spec;
pub mod diagnostic;
pub mod discipline;
pub mod execute;
pub mod globals;
pub mod golden;
pub mod heap;
pub mod input_file;
pub mod kernel;
pub mod kw;
pub mod lex;
pub mod literals;
pub mod machine;
pub mod number;
pub mod op;
pub mod parse_spec;
pub mod parser;
pub mod poise;
pub mod readback;
pub mod span;
pub mod syntax;
pub mod text;
pub mod token;
pub mod tokens;
pub mod value;
pub mod vm;
pub mod word;
