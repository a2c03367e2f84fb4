//! A cluster credential vault and live-session supervisor for a desktop
//! Kubernetes client: a registry of clusters backed by isolated credential
//! files, path-safe import of multi-context kubeconfig bundles, and a keyed,
//! cancel-on-replace table of running watch and log-tail sessions.

pub mod discovery;
pub mod dto;
pub mod events;
pub mod kubeconfig;
pub mod paths;
pub mod registry;
pub mod sessions;
pub mod text;
