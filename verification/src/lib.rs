//! The rules of atelier: versioned workspaces humans and AI agents do real
//! work in, with snapshots, isolated sessions, gated landing, and a journal
//! that answers who did what and why.
//!
//! A workspace is a directory whose whole history is kept: every outstanding
//! edit becomes an attributed snapshot before anything is read. An actor
//! works in a session, with a working copy and a change of its own, and lands
//! through a gate: a landing request gathers approvals under the workspace's
//! policy, then the apply lands the change on the shared lines, or parks on a
//! conflict. Every act becomes an entry in the append-only journal. Diffs
//! ride a fidelity ladder: every file compares at least as bytes, text raises
//! to line diffs, and format packages raise to deltas in the format's own
//! terms. A workspace attaches sources, each mounted with its own history.
//!
//! This library decides; the program around it reads, writes, and runs jj,
//! git, and SQLite. Where such outside work alternates with decisions, the
//! decisions are a small machine here, and the program performs its steps.
//!
//! - Words, tables, handles, walks: [`words`], [`table`], [`paths`], [`shared`],
//!   [`walks`].
//! - Diffs: [`model`], [`binary`], [`text`], [`package`], [`projection`],
//!   [`ladder`], [`render`], [`read`].
//! - What actors share: [`config`], [`session`], [`landing`], [`lease`],
//!   [`journal`], [`coordination`], [`ledger`], [`error`].
//! - The loop: [`opening`], [`gate`], [`apply`], [`undo`], [`acts`],
//!   [`invariants`].
//! - Lines and sources: [`history`], [`fold`], [`attach`], [`sources`],
//!   [`ignores`], [`mirror`], [`mirror_walks`], [`sync`], [`watch`].
//! - What is told: [`manifest`], [`report`], [`stamp`], [`preflight`].

pub mod acts;
pub mod apply;
pub mod attach;
pub mod binary;
pub mod config;
pub mod coordination;
pub mod error;
pub mod fold;
pub mod gate;
pub mod history;
pub mod ignores;
pub mod invariants;
pub mod journal;
pub mod ladder;
pub mod landing;
pub mod lease;
pub mod ledger;
pub mod manifest;
pub mod mirror;
pub mod mirror_walks;
pub mod model;
pub mod opening;
pub mod package;
pub mod paths;
pub mod preflight;
pub mod projection;
pub mod read;
pub mod render;
pub mod report;
pub mod session;
pub mod shared;
pub mod sources;
pub mod stamp;
pub mod sync;
pub mod table;
pub mod text;
pub mod undo;
pub mod walks;
pub mod watch;
pub mod words;
