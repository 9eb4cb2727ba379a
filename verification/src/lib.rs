//! A small symbolic-list language runtime: a tagged value model backed by
//! cons-style list cells, and a tree-walking evaluator with a two-tier
//! (global/local) symbol table.

pub mod color;
pub mod errors;
pub mod parse;
pub mod sym;
pub mod table;
pub mod value;
pub mod vm;
