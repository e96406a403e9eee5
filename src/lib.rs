//! Source reconciliation and batched delivery of synchronization events for a
//! photo archive that imports and re-synchronizes removable media.
pub mod batcher;
pub mod config;
pub mod error;
pub mod events;
pub mod sources;
pub mod task;
