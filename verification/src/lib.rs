//! Per-pod policy configuration derived from Kubernetes object metadata.
//!
//! The crate reads port lists and the default inbound policy out of a pod's
//! annotations and collects the named TCP ports of its containers.

pub mod collections;
pub mod metadata;
pub mod pod_spec;
pub mod ports;
pub mod settings;
pub mod text;
