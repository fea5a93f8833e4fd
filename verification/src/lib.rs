//! Verified core of `rung`, a tool for managing stacks of dependent
//! branches and their pull requests.
//!
//! The modules hold the decisions that the command-line tool makes: how the
//! stack of branches is shaped and changed, which branches a command touches,
//! which pull requests get created or updated, and what is reported back.
//! Reading the repository and talking to the forge happens outside; the
//! functions here take what was read as plain values.

pub mod stack;
pub mod text;
pub mod doctor;
pub mod submit;
pub mod restack;
pub mod merge;
pub mod sync;
pub mod fold;
pub mod split;
pub mod output;
pub mod status;
pub mod adopt;
pub mod create;
pub mod navigate;
pub mod log;
pub mod forge;
pub mod absorb;
pub mod init;
