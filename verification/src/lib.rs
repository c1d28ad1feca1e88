//! A translator from a stack-based virtual-machine language to the assembly
//! language of a 16-bit machine with one address register, one data register
//! and a flat word-addressed memory.
//!
//! The contract of every translation function gives the lines that the
//! function emits, and the emitted instruction sequences are proved against an
//! execution model of the target machine: that a push and a pop move the stack
//! pointer by one, that the operations compute on 16-bit words, that a
//! comparison leaves a boolean, that a call builds a frame and a return unwinds
//! it, and that no two generated labels are the same.

use vstd::prelude::*;

pub mod assembly;
pub mod code_generator;
pub mod machine;
pub mod semantics;
pub mod text;
pub mod utils;

verus! {

/// What the path handed to the translator designates.
#[derive(Clone, Copy, Debug, PartialEq, Eq, Structural)]
pub enum PathType {
    /// A directory holding source units.
    Dir,
    /// A single source unit.
    File,
}

} // verus!
