//! Runtime lock accumulation: constraints learned from experience, each with
//! a source, a strength that grows when the lock is confirmed and decays when
//! it is contradicted, and a trigger pattern that inputs are checked against.
//!
//! Strengths, trust weights and confidences are fixed-point numbers counted
//! in millionths (`source::ONE` stands for 1.0).

pub mod source;
pub mod clock;
pub mod text;
pub mod lock;
pub mod accumulator;
pub mod laws;

pub use accumulator::{LockAccumulator, LockCheck, LockStats};
pub use lock::Lock;
pub use source::{LockSource, ONE};
