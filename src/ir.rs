//! The intermediate representation as a tree language, and the lowering into
//! it.

pub mod ilang;
pub mod trans;
