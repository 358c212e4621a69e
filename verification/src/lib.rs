//! Content-addressed directory synchronisation: manifests, the differences
//! between a manifest and a tree or another manifest, and the plans that bring
//! a tree or a bucket in line with a manifest.

pub mod digest;
pub mod error;
pub mod events;
pub mod generate;
pub mod laws;
pub mod manifest;
pub mod paths;
pub mod pipeline;
pub mod push;
pub mod sync;
pub mod text;
pub mod transport;
pub mod validate;
pub mod walker;
