//! A verified local mirror engine for remote Git-hosting state.
//!
//! The crate keeps a queryable in-memory mirror of issues, pull requests and
//! workflow runs fetched from GitHub- and GitLab-shaped APIs, across several
//! configured provider accounts.  The heart of the library is the
//! synchronization engine: a single-flight campaign latch, per-repository and
//! per-resource incremental cursors that advance only on success, a paginated
//! fetch state machine, and an upsert reconciler that preserves locally-owned
//! first-recorded timestamps.  All of it carries contracts checked by Verus;
//! the HTTP and clock calls that the engine cannot make itself are taken as
//! inputs or stand behind small trusted wrappers.

pub mod client;
pub mod crud;
pub mod domain;
pub mod lookup;
pub mod pool;
pub mod query;
pub mod reconcile;
pub mod records;
pub mod selftest;
pub mod sequtil;
pub mod store;
pub mod strutil;
pub mod sync;
