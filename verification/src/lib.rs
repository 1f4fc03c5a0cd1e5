//! A tiny scripting language: `let` bindings, `console.log`, number and string
//! literals, variables, and the sum of two terms.
//!
//! Source text flows through three stages: the [`lexer`] turns characters into
//! [`token`]s, the [`parser`] turns tokens into the statements of [`ast`], and
//! the [`interpreter`] runs the statements against a flat environment,
//! collecting the printed lines. [`script`] joins the three. [`number`] holds
//! what the stages share about numbers: how decimal digits are read, how a
//! number is written, and what arithmetic in 64 bits keeps of a result.
//!
//! Nothing here prints, reads a file or stops the process. A stage that
//! cannot go on returns its error, and the lines that a script prints are
//! handed to the caller as values.

pub mod ast;
pub mod interpreter;
pub mod lexer;
pub mod number;
pub mod parser;
pub mod script;
pub mod text;
pub mod token;
