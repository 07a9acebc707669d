//! Dependency manifests, local package state reconciliation and the walk
//! over local path dependencies, with their contracts proved by Verus.

pub mod download;
pub mod error;
pub mod local;
pub mod manifest;
pub mod provider;
pub mod resolution;
pub mod version;
