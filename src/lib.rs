//! Front end of the Wright toolchain: position-aware source fragments,
//! grammar rules over them, the AST they produce, and structural equality.

pub mod fragment;
pub mod parsers;
pub mod ast;
pub mod num_lit;
pub mod boolean_lit;
pub mod underscore;
pub mod expression;
pub mod interpreter_error;
pub mod repl;
