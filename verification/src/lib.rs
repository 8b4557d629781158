//! An interpreter for the classic eight-instruction tape machine, run on
//! programs written in an arbitrary single-character glyph alphabet.
//!
//! A translation mapping (built from line-oriented source text) rewrites a
//! glyph program into canonical instruction characters; a bracket matcher
//! pairs the jump instructions; the execution engine then steps the machine
//! over a growable byte tape, one instruction at a time, handing every byte
//! of input and output to the caller.

pub mod brackets;
pub mod machine;
pub mod mapping;
