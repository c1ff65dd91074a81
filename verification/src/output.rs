//! Where the shell's messages go.
use vstd::prelude::*;

verus! {

#[derive(Debug, Clone, Copy, PartialEq, Eq, Structural)]
pub enum OutputError {
    CouldNotWrite,
}

/// A sink for the shell's messages.
pub trait Output {
    fn write(&self, payload: String) -> Result<(), OutputError>;
}

} // verus!
