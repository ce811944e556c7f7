//! qreview: the logic of a local code review tool, verified.

pub mod anchor;
pub mod auth;
pub mod comments;
pub mod commitmsg;
pub mod config;
pub mod diff;
pub mod export;
pub mod gerrit;
pub mod lang;
pub mod git;
pub mod highlight;
pub mod model;
pub mod offsets;
pub mod patchset;
pub mod reflog;
pub mod release;
pub mod repo;
pub mod report;
pub mod series;
pub mod session;
pub mod store;
pub mod text;
pub mod trace;
pub mod update;
pub mod worktree;
