//! An interpreter for a small Lisp: a reader from bytes to forms, an
//! evaluator with special forms, built-in functions and user functions, and
//! the text of an evaluation's outcome.
pub mod assoc;
pub mod built_in;
pub mod driver;
pub mod eval;
pub mod keys;
pub mod laws;
pub mod parser;
pub mod render;
pub mod types;
pub mod util;
