//! Filling byte buffers from a stream, and reading a stream in fixed-size chunks.
//!
//! A stream is anything that implements [`Source`]: a single-shot read that may
//! hand out fewer bytes than asked for, report the end of the stream, or fail.
//! [`Fill::fill`] loops such reads until a buffer is full or the stream ends,
//! retrying the reads that report an interruption. [`ChunkedReader`] turns a
//! stream into a sequence of blocks of a fixed size, the last one possibly
//! shorter.

mod chunked;
mod fill;
mod memory;
mod source;

pub use chunked::{chunks_of, first_chunk, lemma_chunks_of, Chunk, ChunkedReader};
pub use fill::{fill_len, Fill};
pub use memory::{no_failure_from, MemError, MemReader, Step};
pub use source::Source;
