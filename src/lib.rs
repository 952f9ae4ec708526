//! A compiler for a small language of integer expressions: a single
//! `int main() { ... }` of declarations, assignments and one `return`.
//!
//! The pipeline parses the program, checks that variables are declared and
//! initialized before use, lowers it to a three-address intermediate
//! representation in which each assignment gets a fresh temporary, and selects
//! pseudo-assembly instructions over unboundedly many temporaries.

pub mod util;
pub mod parse;
pub mod types;
pub mod middle;
pub mod codegen;
pub mod ir;
pub mod driver;
