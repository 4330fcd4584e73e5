//! A GitOps-style reconciler for container stacks: it loads declarative stack
//! bundles from a checked-out source tree, rewrites their compose manifests
//! (image extraction, volume resolution, secret-delivery wiring), diffs the
//! result against persisted stack state, and plans the orchestrator actions
//! that bring the cluster in line with the declared state.

pub mod compose;
pub mod config;
pub mod doc;
pub mod engine;
pub mod errors;
pub mod fingerprint;
pub mod laws;
pub mod manifests;
pub mod models;
pub mod repository;
pub mod secrets;
pub mod store;
pub mod strings;
pub mod volumes;
pub mod yaml;

pub use doc::Doc;
