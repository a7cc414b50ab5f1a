//! A library for ranking a collection of opaque items by priority using only
//! pairwise "which is more important" decisions supplied by an external
//! decision-maker.
//!
//! The core is [`sorter::Sorter`]: a resumable state machine performing a
//! binary-insertion sort in which every comparison is answered asynchronously
//! through [`sorter::Sorter::make_choice`]. The mathematical model of a run
//! lives in [`model`], and the engine's global guarantees — every run holds a
//! permutation of its input, a worst-case bound on the decisions a run can
//! absorb, agreement with any fixed total order that drives the decisions,
//! and idempotent snapshots — are proved in [`laws`]. [`item`] is the payload
//! the application prioritizes, and [`app`] is the application state and
//! event logic a user interface drives.

pub mod app;
pub mod item;
pub mod laws;
pub mod model;
pub mod sorter;
