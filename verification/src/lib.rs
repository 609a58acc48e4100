//! Scheduling core of a movement-reminder daemon.
//!
//! The library computes when the next audible reminder is due, in two modes
//! (wall-clock aligned boundaries, or a constant offset from the previous
//! firing), decides whether a due reminder fires or is skipped, and keeps the
//! paused/active flag in a small persisted record.  All I/O — reading the
//! clock, sleeping, touching the filesystem, playing the sound — is left to
//! the surrounding binary, which hands plain values in and out.

pub mod errors;
pub mod interval;
pub mod scheduler;
pub mod state;
pub mod daemon;
