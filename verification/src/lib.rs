//! Conversion between CPF, a fixed-column-width text report produced by
//! fragment-based quantum-chemistry calculations, and SVL, a compact
//! self-describing binary tag stream.
//!
//! The library parses the positional CPF grammar into an in-memory
//! `CheckPointFile` model and serializes such a model bit-exactly into SVL.
//! Floating-point quantities are never computed with: the parser carries
//! each one as its validated decimal token, and the encoder takes each one
//! as its IEEE-754 binary64 bit pattern, so the model is generic over the
//! float representation and the token-to-bits conversion happens outside
//! the library.

pub mod columns;
pub mod error;
pub mod floatlit;
pub mod laws;
pub mod parser;
pub mod serialize;
pub mod text;
pub mod types;
