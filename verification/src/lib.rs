//! A verified core for a reproducible package-build orchestrator.
//!
//! The library owns the logic of one build submit: constructing the job
//! graph for a package's dependency closure, wiring one task per node,
//! folding job outcomes up the tree, selecting the least-loaded container
//! endpoint, receiving job logs, answering artifact-reuse queries against a
//! ledger, and locating artifacts under staging and release store roots.
//! Input and output — containers, databases, files, progress bars — stay in
//! the surrounding, unverified program, which hands the library plain values
//! and drives it with the events it returns.

pub mod config;
pub mod dependency;
pub mod filestore;
pub mod graph;
pub mod ids;
pub mod joblog;
pub mod orchestrator;
pub mod package;
pub mod path;
pub mod repository;
pub mod reuse;
pub mod scheduler;
pub mod script;
pub mod source;
pub mod submit;
