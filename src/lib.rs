//! Trial attestation and progression engine for a puzzle game.
//!
//! A player proves, without revealing it, that they solved a trial; the
//! ledger turns a sequence of such attestations into per-player progress and
//! a single King per round, rejecting replays, reordering and forgeries.
pub mod journal;
pub mod digest;
pub mod attestation;
pub mod bytes;
pub mod engine;
pub mod compact;
pub mod throne;
pub mod game;
