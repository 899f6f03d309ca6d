//! Verified core of a small Lisp-like expression evaluator.
//!
//! Program text is split into tokens ([`tokenizer`]), read into a syntax tree
//! ([`reader`]) and evaluated against a chain of scopes ([`eval`], [`env`])
//! with a fixed set of native procedures ([`builtins`]). Values are printed
//! in their external representation ([`printer`]), and [`repl`] puts the
//! pieces together for one line of input.
//!
//! Everything here is integer and sequence logic. Floating-point numbers
//! travel as IEEE-754 binary64 bit patterns (`u64`), and the few operations
//! that need floating-point hardware (the value of a literal, adding,
//! multiplying, dividing, printing) are asked of the host through two
//! function values, see [`float`]. Nothing is printed here either: `print`
//! adds lines to a buffer that the host writes out.
//!
//! What holds of the whole is stated and proved in [`laws`].

pub mod alike;
pub mod ast;
pub mod builtins;
pub mod env;
pub mod error;
pub mod eval;
pub mod float;
pub mod laws;
pub mod literal;
pub mod numeric;
pub mod printer;
pub mod reader;
pub mod repl;
pub mod text;
pub mod tokenizer;
pub mod value;

pub use ast::AST;
pub use builtins::setup;
pub use env::Env;
pub use error::{ErrorKind, SchemeError};
pub use eval::eval;
pub use float::FloatOp;
pub use printer::datatype2str;
pub use reader::{atom, parse, read_from_tokens, ReadFromTokenResult};
pub use repl::{echo, interpret};
pub use tokenizer::tokenize;
pub use value::{DataType, Function, Number};
