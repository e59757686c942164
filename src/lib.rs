//! A compiler for a small scripting language of prints and assignments,
//! with immutable and `$`-marked mutable variables, to Rust source: a
//! line-based parser, a mutability and scope checker that reports every
//! error with its place, and a code generator that binds mutable variables
//! as shared cells.

use vstd::prelude::*;

pub mod ast;
pub mod codegen;
pub mod compiler;
pub mod diagnostics;
pub mod parser;
pub mod semantics;
pub mod span;
pub mod text;

verus! {

} // verus!
