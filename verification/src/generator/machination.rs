//! The protocol by which a compiled program performs its effects.

pub mod gen_fns;
pub mod shape;
