//! A reversible transcoder between raw bytes and a text stream drawn from a
//! four-symbol alphabet, where each symbol carries exactly two bits.
//!
//! Each input byte is split into four 2-bit groups, most significant first,
//! and each group is written as one of four fixed symbols. Decoding reverses
//! this: four symbols are packed back into one byte. The decoder rejects
//! symbols outside the alphabet and streams whose length is not a multiple
//! of four.

pub mod codec;
pub mod naming;
pub mod symbols;
