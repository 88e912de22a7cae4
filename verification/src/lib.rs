//! Bit-addressable storage primitives: validated bit positions, bit-ordering
//! policies, atomic single-bit access to shared storage elements, and a wire
//! representation for packed bit sequences.

pub mod atomic;
pub mod cursor;
pub mod index;
pub mod plain;
pub mod serdes;
