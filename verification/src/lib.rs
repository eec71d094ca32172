//! Binary-rewriting toolchain core for 8-bit AVR firmware images.
//!
//! The library disassembles nothing itself: it consumes the text an external
//! disassembler produced, builds a symbolic instruction graph, applies staged
//! structural transformations, and re-emits assembly text for an external
//! assembler.  Every function here carries a contract checked by Verus.

pub mod abi;
pub mod device;
pub mod error;
pub mod parse;
pub mod passes;
pub mod pipeline;
pub mod program;
pub mod render;
pub mod resolve;
pub mod text;
