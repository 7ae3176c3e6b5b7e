//! Conformance checks for agent-state repositories: an append-only JSONL event
//! log that folds into a typed graph, kept in git.

pub mod text;
pub mod json;
pub mod report;
pub mod event;
pub mod causation;
pub mod pairing;
pub mod envelope;
pub mod vocabulary;
pub mod append_only;
pub mod digest;
pub mod graph;
pub mod replay_check;
pub mod restore;
pub mod run;

