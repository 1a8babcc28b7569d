//! Structured diffing of ordered sequences of opaque rows.
//!
//! Two row sequences are interned into dense integer tokens under the rows'
//! own equality, a selectable diff algorithm computes an edit script over the
//! token sequences, and the script's non-matching regions are turned into
//! classified delta records (delete / insert / change) that carry the original
//! rows and their positions in both sequences.

pub mod algorithm;
pub mod backend;
pub mod builder;
pub mod delta;
pub mod hunk;
pub mod interner;
pub mod pipeline;

pub use algorithm::DiffAlgorithm;
pub use algorithm::DiffError;
pub use delta::Chunk;
pub use delta::Delta;
pub use delta::DeltaKind;
pub use hunk::Hunk;
pub use pipeline::diff;
