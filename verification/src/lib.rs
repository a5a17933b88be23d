//! Hierarchical configuration resolution: configuration files are
//! discovered along the working directory's ancestry and in the home
//! directory, parsed with a backward-compatibility fallback ladder,
//! merged into one typed value tree under nearest-wins precedence for
//! scalars, overlaid by a credentials file with inverted precedence,
//! and exposed through typed, provenance-tracked lookups that
//! environment variables override.

pub mod command_prelude;
pub mod config;
pub mod errors;
pub mod flock;
pub mod key;
pub mod laws;
pub mod paths;
pub mod toml_compat;
pub mod value;
