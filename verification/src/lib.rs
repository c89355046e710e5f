//! The decisions behind a deck of coding agents: what to show, what to start, what to deliver
//! and what to clean up.
//!
//! Every module decides, and leaves reading, writing, waiting and running programs to its
//! caller: it takes what was read as plain values and gives back what to do.
//!
//! - [`palette`]: the color and the priority of a session's status.
//! - [`prompt_delivery`]: when a prompt that was written into a pane counts as delivered.
//! - [`dispatch`]: starting work in a git worktree of its own.
//! - [`llm`]: what to ask a language model, and where its answer stands.
//! - [`watch`]: what to write to the screen while a command runs again and again.
//! - [`clean_tmp`]: which leftovers of test runs may be deleted.
//! - [`verify_pr_stream`]: reading the records of the pull-request scripts.
//! - [`text`], [`path`], [`json`], [`places`]: what the others are stated in.

pub mod clean_tmp;
pub mod dispatch;
pub mod json;
pub mod llm;
pub mod palette;
pub mod path;
pub mod places;
pub mod prompt_delivery;
pub mod text;
pub mod verify_pr_stream;
pub mod watch;
