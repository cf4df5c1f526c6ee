//! A whole-file compiler for the Aurora language, up to native code
//! generation: lexing (`lexer`), parsing into a typed syntax tree (`ast`,
//! `parser`) and lowering to a small SSA-style IR (`ir`, `gen`) that a
//! code generator consumes. `typing` holds the primitive types, `error` the
//! error taxonomy and `text` string helpers.
use vstd::prelude::*;

pub mod text;
pub mod typing;
pub mod error;
pub mod lexer;
pub mod ast;
pub mod parser;
pub mod ir;
pub mod gen;

verus! {

} // verus!
