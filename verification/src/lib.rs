//! A multiplication-chain circuit: its constraint system, the row-by-row
//! witness assignment that realises it, and the bookkeeping of the artifacts
//! a proving backend derives from it.

pub mod chip;
pub mod circuit;
pub mod constraint_system;
pub mod error;
pub mod field;
pub mod harness;
pub mod laws;
pub mod layouter;
pub mod trace;
pub mod value;
