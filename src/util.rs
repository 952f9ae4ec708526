//! Symbols, temporaries, source positions and diagnostics.

pub mod symbol;
pub mod temp;
pub mod text;
pub mod mark;
pub mod errors;
