//! Host-side execution runtime for a stack-based, statically-typed bytecode
//! virtual machine with linear memory, globals and indirect call tables.
//!
//! The crate owns the live state of an instantiated program (linear memory,
//! global slots, native-import binding cells) and defines the binary contract
//! that externally generated machine code must obey to read and write that
//! state and to call back into the host.

pub mod fp_ops;
pub mod value;
pub mod opcode;
pub mod module;
pub mod codec;
pub mod jit;
