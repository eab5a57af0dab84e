//! A compiler for a small subset of Lua aimed at microcontrollers:
//! lexer, parser, semantic analysis and a generator of `no_std` Rust.
pub mod text;
pub mod token;
pub mod lexer;
pub mod ast;
pub mod parser;
pub mod parser_laws;
pub mod sema;
pub mod sema_laws;
pub mod codegen;
pub mod pipeline_laws;
pub mod hal;
pub mod cli;
