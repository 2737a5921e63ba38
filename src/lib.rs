//! Speculative next-chunk prediction: given a reference token sequence and the
//! tokens observed so far, propose the next contiguous chunk of the reference.

pub mod sink;
pub mod source;
pub mod alignment;
pub mod nextchunk;
pub mod laws;
