//! Verified core of a bulk volume-archival pipeline.
//!
//! The library models discovery of content volumes from a paginated
//! listing — accumulation, deduplication, the title filter — and the
//! per-volume item pipeline: the skip decision, metadata and asset
//! extraction, deterministic download planning, and the atomic commit
//! decision. Network and filesystem effects are performed by a thin
//! driver outside the library, which carries out each action the
//! pipeline asks for and reports the outcome back.

pub mod discover;
pub mod error;
pub mod extract;
pub mod pipeline;
pub mod text;
pub mod volume;
