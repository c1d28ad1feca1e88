//! What the generated instructions do on the target machine.
//!
//! The statements of this module are about the instruction sequences that
//! the contracts of the translators speak of, executed on the model of the
//! machine.

pub mod arithmetic;
pub mod branching;
pub mod function;
pub mod memory;
