//! Mirroring of a directory tree into a fresh destination: the decisions
//! that drive the walk over the source, the bounded retry around erasing the
//! destination, and the per-crate settings that go with a run.
pub mod retry;
pub mod erase;
pub mod mirror;
pub mod fidelity;
pub mod replace;
pub mod config;
