//! A verified parallel k-mer counting engine.
//!
//! Sequences are ingested from FASTA or FASTQ text (`source`), each sequence
//! is counted with a sliding window (`shard`), and the per-sequence tables
//! are folded into one global frequency table (`engine`).  The global table
//! maps every length-k window that occurs somewhere in the input to its total
//! number of occurrences (`counts` states this mathematically).  The result
//! can be rendered as tab-separated lines (`output`).

pub mod counts;
pub mod engine;
pub mod output;
pub mod progress;
pub mod shard;
pub mod source;
pub mod table;
pub mod util;
