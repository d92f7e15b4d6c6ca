//! The live execution state of an instantiated program and its ABI surface.

pub mod runtime;
