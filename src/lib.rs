//! Lint configuration for a compiler invocation: a per-package table of lint
//! severities, and the `-A` / `-W` / `-D` flags it turns into once merged with a
//! lower-precedence fallback table.

pub mod kind;
pub mod lints;
pub mod laws;
