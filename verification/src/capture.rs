//! The labelling of captured child-process output: which stream a line
//! arrived on when stdout and stderr are read side by side.

use vstd::prelude::*;

verus! {

/// The stream a captured line was written to.
#[derive(Debug, PartialEq, Eq, Hash, Structural)]
pub enum Channel {
    Stdout,
    Stderr,
}

impl Channel {
    /// Whether the line came from the error stream.
    pub fn is_error(&self) -> (r: bool)
        ensures
            r == (self is Stderr),
    {
        match self {
            Channel::Stdout => false,
            Channel::Stderr => true,
        }
    }
}

} // verus!
