//! Keeps a game's save directory and a local backup directory in step.
//!
//! The library holds the reconciliation engine: which listed files count as
//! saves, how the two listings are merged into presence records, and what a
//! tick of the engine asks the host to do on disk. The host performs the
//! listing, copying and removing itself.
pub mod save;
pub mod scan;
pub mod engine;
pub mod laws;
