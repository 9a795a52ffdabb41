//! Deterministic integer kernels of a planetary world generator: stable
//! hashing, stage seeds and stage digests; plate boundary classification and
//! stabilization; plate ownership bookkeeping, connected components and
//! residual max-flow partitioning on the sample mesh; the event skeleton and
//! fragment lineage validation of the ancestral history; and drainage outlet
//! and basin resolution.

pub mod ancestry;
pub mod connectivity;
pub mod digests;
pub mod drainage;
pub mod error;
pub mod events;
pub mod flow;
pub mod fragment_split;
pub mod fnv;
pub mod geology;
pub mod graph;
pub mod hex;
pub mod historical;
pub mod lineage;
pub mod pipeline;
pub mod plates;
pub mod seed;
pub mod structure;
