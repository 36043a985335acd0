//! Inventory of version-control working copies: discovery of repository
//! roots, per-repository status snapshots, and a durable path-keyed cache
//! whose records decode across historical schema shapes.

pub mod codec;
pub mod config;
pub mod git_database;
pub mod git_status;
pub mod version;
