//! Inventory of a container registry: discovery of images and two-phase
//! resolution of their manifests, including manifest lists, by deduplicated,
//! chunked, concurrency-bounded batch retrieval.

pub mod batch;
pub mod error;
pub mod image;
pub mod manifest;
pub mod parse;
pub mod repo_filter;
pub mod resolve;
