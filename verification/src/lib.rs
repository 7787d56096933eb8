//! Content-addressed, Merkle-verified recordings of agent runs.

pub mod text;
pub mod crypto;
pub mod json;
pub mod label;
pub mod event;
pub mod tape;
pub mod lineage;
pub mod summary;
pub mod assertion;
pub mod workflow;
pub mod guard;
pub mod proxy;
pub mod record;
pub mod laws;
