//! What holds of the compiler on every input.

pub mod classifier;
pub mod compiler;
pub mod generation;
pub mod matching;
pub mod predicate;
pub mod roundtrip;
