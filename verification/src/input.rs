//! Where command lines come from.
use vstd::prelude::*;

verus! {

#[derive(Debug, Clone, Copy, PartialEq, Eq, Structural)]
pub enum InputError {
    LineCouldNotBeRead,
}

/// A source of command lines.
pub trait Input {
    fn get_line(&self) -> Result<String, InputError>;
}

} // verus!
