pub mod text;
pub mod errors;
pub mod ast;
pub mod literals;
pub mod parser;
pub mod value;
pub mod instructions;
pub mod bytecode;
pub mod roundtrip;

pub use ast::{LispExpr, SourceExpr};
pub use errors::{CompileError, Location, RuntimeError};
pub mod optimizer;
pub mod ffi;
pub mod debug_text;
pub mod disassembler;
pub mod names;
pub mod input;
pub mod analysis;
pub mod strings;
pub mod machine;
pub mod meaning;
pub mod compiler;
pub mod display;
pub mod requests;
pub mod nested;
