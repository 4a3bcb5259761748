//! Planning engine of a developer-workspace manager: it turns layered,
//! inheritable profiles and ad-hoc mount requests into a conflict-free list of
//! container bind mounts, and assembles the launch description of a container.

pub mod cli;
pub mod config;
pub mod container;
pub mod dedup;
pub mod entrypoint;
pub mod expand;
pub mod listing;
pub mod mount;
pub mod mount_eq;
pub mod order;
pub mod pathorder;
pub mod paths;
pub mod planner;
pub mod planner_laws;
pub mod profile;
pub mod profile_laws;
pub mod resolve;
pub mod resolve_laws;
pub mod runtime;
pub mod session;
pub mod snapshot;
pub mod text;
pub mod validate;
pub mod validate_laws;
pub mod vcs;
pub mod workspace;
