//! What holds of every lowering.

pub mod frames;
pub mod jumps;
pub mod loops;
pub mod names;
