//! Verified core of `casa`, a tool that manages named project workspaces
//! filled with Git repositories.

pub mod cli;
pub mod metadata;
pub mod paths;
pub mod report;
pub mod repository;
pub mod text;
pub mod theme;
pub mod workspace;
