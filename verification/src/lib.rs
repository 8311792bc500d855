//! Environment-variable group integration: a dotenv-like parser and
//! platform persistence planning (POSIX shell-source files, Windows
//! per-user registry), with enable/disable semantics.

pub mod parse;
pub mod plan;
pub mod render;
pub mod state;
pub mod text;
