//! Granular permission control for chained and piped shell commands:
//! shell command strings are split into the individual commands they run,
//! and each command is checked against an allowlist.
pub mod allowlist;
pub mod hook;
pub mod laws;
pub mod parser;
pub mod pattern;
pub mod preset;
pub mod sorted;
pub mod syntax;
pub mod text;
pub mod types;
