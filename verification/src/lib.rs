//! Staleness-aware scheduling engine for an incremental-formatting
//! orchestrator. Given a project tree and a set of formatter definitions,
//! a run resolves the target paths, classifies every discovered file
//! against the formatters' patterns, intersects the result with a
//! persisted cache to skip files already known to be up to date, hands
//! each formatter one batch of stale files, and records and reports what
//! actually changed.
//!
//! This crate is the engine's logic alone, pure functions over plain
//! values; filesystem traversal, external formatter processes, cache
//! persistence and parallelism live in the surrounding shell, which feeds
//! observations in and carries decisions out.
//!
//! A run's control flow through the modules: [`pathres`] resolves the
//! user-supplied paths against the project root; [`classify`] accumulates
//! the walk's observations into a [`matchset::MatchSet`]; [`manifest`]
//! adopts the current formatter definitions into the cache (invalidating
//! entries whose definition changed), filters the match set down to the
//! stale pairs and later merges the run's results back; [`schedule`]
//! turns one formatter's batch and the observed outcome of its invocation
//! into the entries to record; [`report`] counts traversed, matched,
//! filtered and rewritten files and decides the fail-on-change outcome.
//! [`laws`] states and proves the engine's cross-function guarantees.

pub mod classify;
pub mod defs;
pub mod filemap;
pub mod laws;
pub mod manifest;
pub mod matchset;
pub mod mtime;
pub mod pathres;
pub mod report;
pub mod schedule;
