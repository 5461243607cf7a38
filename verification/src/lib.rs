//! Submission and judging orchestration core for an event scavenger hunt.
//!
//! Participants join teams and send in photo or video proofs for challenges;
//! maintainers judge each submission, and points roll up into a live team
//! scoreboard. This crate holds the verified core: the roster of participants,
//! the channel topology kept in step with the live team set, the submission
//! pipeline, the judgement ledger, and the read-only scoring rollups. The chat
//! transport and the durable store are collaborators that the surrounding
//! program drives; they hand this core plain values and take plain values back.

pub mod broadcast;
pub mod ledger;
pub mod model;
pub mod prompt;
pub mod resources;
pub mod roster;
pub mod scoring;
pub mod store;
pub mod submission;
pub mod text;
pub mod topology;
