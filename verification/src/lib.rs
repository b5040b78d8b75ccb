//! A miniature assembler and instruction-set simulator for a small
//! fixed-width CPU architecture: textual assembly is parsed into
//! statements, resolved into 32-bit-encodable instructions, rendered as a
//! hex-constant listing, and executed against a flat-memory machine with
//! 256 registers and a condition-flag byte.

pub mod isa;
pub mod encode;
pub mod interpreter;
pub mod syntax;
