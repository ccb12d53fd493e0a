//! benclaude: live outcome analytics for a coding agent.
//!
//! The library reads session transcripts, folds them into the state of the live
//! session and into a history, joins the sessions with the commits that came of
//! them, and lays out what the terminal shows. Every function is verified
//! against its contract. Reading files, running git and drawing are left to the
//! program around it.

pub mod cli;
pub mod figures;
pub mod files;
pub mod git;
pub mod history;
pub mod json;
pub mod live;
pub mod order;
pub mod paint;
pub mod pane;
pub mod past;
pub mod plain;
pub mod report;
pub mod screen;
pub mod session;
pub mod tail;
pub mod tally;
pub mod text;
pub mod time;
pub mod transcript;
