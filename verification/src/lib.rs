//! Core logic of a continuous-integration pipeline that turns git branches
//! into a signed Debian-style package repository.
//!
//! Everything here is pure: parsing of control data, collation of branches
//! onto the series/pocket build grid, composition of version strings, file
//! names and tool invocations, and the caching and blacklist decisions.
//! Process execution, networking and the filesystem live outside.

pub mod apt;
pub mod blacklist;
pub mod collate;
pub mod config;
pub mod dpkg;
pub mod dsc;
pub mod errors;
pub mod fetcher;
pub mod git;
pub mod github;
pub mod runner;
pub mod text;
pub mod version;
