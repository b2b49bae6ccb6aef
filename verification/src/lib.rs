//! A small command-line shell: splitting input lines into command chains,
//! and the decisions taken while running a chain.
pub mod execution;
pub mod number;
pub mod parsing;
pub mod text;
