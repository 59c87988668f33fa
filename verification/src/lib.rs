//! Counts the lines of Rust source files by category (code, documentation,
//! comment, blank) and by region (main, tests, examples).

pub mod decode;
pub mod laws;
pub mod line;
pub mod scan;
pub mod token;
pub mod visitor;
pub mod warlocs;
