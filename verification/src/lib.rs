//! A minimal bytecode interpreter, verified with Verus.
//!
//! The library turns a textual instruction listing into a typed program and
//! executes that program on a stack machine with a variable store.  All
//! observable behaviour is specified: decoding is a function of the source
//! text, and execution is a function of the decoded program, both pinned by
//! the spec-level semantics in [`machine`] and [`decode`].
//!
//! Printing is not done here; execution returns the sequence of output
//! events ([`instruction::OutputItem`]) that a caller may render.

pub mod decode;
pub mod instruction;
pub mod laws;
pub mod machine;
pub mod numerals;
pub mod scan;
