//! A stack-based expression virtual machine with two dual subsystems:
//! an encoder that lowers constants and branchless register-update
//! expressions into randomized but semantically fixed instruction
//! sequences, and a decompiler that replays such a sequence symbolically
//! and recovers an equivalent straight-line program.

pub mod decomp;
pub mod emit;
pub mod entropy;
pub mod flagfmt;
pub mod params;
pub mod render;
pub mod rewrite;
pub mod vm;
