//! Verified core of a nuget package manager: semantic versions parsed from
//! archive filenames, the per-directory "remember the newest seen version"
//! rule, directory-scan filtering, and the decisions behind each command.
//! All I/O — CLI, config file, network — stays outside this crate.

pub mod config;
pub mod flow;
pub mod packet;
pub mod scan;
pub mod text;
pub mod version;
