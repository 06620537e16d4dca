//! A tree-walk interpreter for a small dynamically typed scripting language
//! with variables, control flow, functions and closures, and classes.
//!
//! Source text passes through four stages, each stated against a
//! mathematical model and proved to follow it:
//!
//! - the [`scanner`] turns characters into tokens;
//! - the [`parser`] turns tokens into a syntax tree of [`stmt`]s and
//!   [`expr`]s;
//! - the [`resolver`] finds, for each use of a local variable, how many
//!   scopes out the variable is declared;
//! - the [`interpreter`] runs the tree, and finds each variable by what the
//!   resolver recorded.
//!
//! [`lox`] puts the stages in their order. [`laws`] holds what is proved of
//! the stages together; [`numbering`],
//! [`resolution`] and [`soundness`] hold the proof that the interpreter
//! finds every variable where the resolver recorded it to live.
//!
//! Numbers are IEEE 754 doubles, held by their bit patterns; their
//! arithmetic is that of the `rustc_apfloat` crate. Printed text is made of
//! [`text::Piece`]s, so that the host gives numbers their decimal form.

pub mod ast_printer;
pub mod environment;
pub mod errors;
pub mod expr;
pub mod interpreter;
pub mod laws;
pub mod lox;
pub mod lox_callable;
pub mod lox_class;
pub mod lox_function;
pub mod lox_instance;
pub mod lox_native;
pub mod native_functions;
pub mod number;
pub mod numbering;
pub mod object;
pub mod parser;
pub mod resolution;
pub mod resolver;
pub mod scanner;
pub mod soundness;
pub mod stmt;
pub mod table;
pub mod text;
pub mod token;
pub mod token_type;
