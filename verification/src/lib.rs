//! Verified core of a Kubernetes mutating admission webhook.
//!
//! The library holds the webhook's decision logic: parsing Kubernetes
//! quantity strings into exact decimal values, aggregating per-container
//! bandwidth resources into pod-level totals, building JSON Patch
//! operations under three bandwidth mutation modes, assigning a pod's
//! scheduler from pod or namespace labels backed by a namespace cache,
//! and turning each admission request into an allow-or-deny verdict.
//! Transport, TLS, configuration and the Kubernetes watch stream live in
//! the surrounding unverified binary, which hands plain values in and out.

pub mod admission;
pub mod bandwidth;
pub mod cache;
pub mod decimal;
pub mod kvlist;
pub mod patch;
pub mod pod;
pub mod pointer;
pub mod quantity;
pub mod scheduler;
