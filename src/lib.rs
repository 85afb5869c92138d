//! A two-pass assembler for a small stack-machine language, and the
//! interpreter that runs what it produces.
pub mod text;
pub mod instruction;
pub mod labels;
pub mod machine;
pub mod assembler;
pub mod laws;
