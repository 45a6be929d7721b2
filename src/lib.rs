//! Reconstruction of a compilation database from traced process executions.
//!
//! Lines of trace logs are parsed ([`parser`]) into invocations
//! ([`exec::Exec`]), classified by the executable they run ([`tools`]), and
//! those that compile a single source file become entries of the database
//! ([`tools::cc`]); [`pipeline`] chains these steps and [`compare`] tells
//! whether two databases hold the same entries.

pub mod compare;
pub mod exec;
pub mod name_kind;
pub mod parser;
pub mod pipeline;
pub mod text;
pub mod tools;
