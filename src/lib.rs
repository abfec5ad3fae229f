//! Tracking of executable modules mapped into observed processes.
//!
//! The library keeps a deduplicating catalog of module descriptors, a
//! per-process registry of running module instances, and the decision logic
//! of the two ingestion paths (bulk enumeration and image-load events).

pub mod catalog;
pub mod registry;
pub mod ingest;
pub mod enumeration;
pub mod drives;
