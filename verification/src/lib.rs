//! GC content of the sequences of a FASTA text.

pub mod fasta;
pub mod gc;
pub mod text;

pub use fasta::calculate_gc_content;
pub use gc::{gc_for_sequence, GcResult};
