//! Rewrites the version that a running program reports about itself: encodes
//! a dotted version number as the bytes the program keeps, finds the process
//! and the module that holds them, and patches each known place in the
//! module's memory.
//!
//! The library decides; it performs no system call. `pipeline::Pipeline` says
//! what to ask of the system next and takes the answer.

pub mod locate;
pub mod patch;
pub mod pipeline;
pub mod text;
pub mod version;
