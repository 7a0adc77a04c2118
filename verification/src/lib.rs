//! Verified core of a C-project scaffolding tool: configuration precedence
//! resolution, replay-mode input, tiered compiler-flag composition, and
//! deterministic template transformation.
pub mod config;
pub mod flags;
pub mod style;
pub mod template;
pub mod text;
pub mod wizard;
