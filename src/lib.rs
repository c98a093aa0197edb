//! The I/O layer of a document-compilation engine: an ordered stack of
//! providers that services every file request, and a detector that decides
//! whether another compilation pass is needed.
pub mod errors;
pub mod provider;
pub mod stack;
pub mod memory;
pub mod detector;
