//! A small list-processing language: a reader from text to values, an evaluator over a
//! stack of scope frames, and a printer back to text.
//!
//! - `types`: values, errors, and their mathematical models.
//! - `text`: character, decimal and string helpers.
//! - `env`: scope frames and the environment stack.
//! - `reader`: tokens to values, with the grammar stated as spec functions.
//! - `printer`: values to text, readable or for display.
//! - `intrinsics`: the built-in operations.
//! - `eval`: the evaluator, proved against a definitional interpreter.
//! - `laws` and `scope`: properties proved of the above.
pub mod types;
pub mod text;
pub mod env;
pub mod reader;
pub mod printer;
pub mod laws;
pub mod intrinsics;
pub mod eval;
pub mod scope;
