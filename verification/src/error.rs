//! Errors reported when a session is set up.

use vstd::prelude::*;

verus! {

/// A session was asked for with parameters it cannot start with.
#[derive(Debug, Copy, Clone, PartialEq, Eq, Hash, Structural)]
pub enum ConfigurationError {
    /// The grid would have no tiles, or more than a tile map holds.
    InvalidDimension,
    /// The snake would have fewer than two fragments, or would not lie on
    /// the grid from head to tail.
    InvalidLength,
}

impl ConfigurationError {
    /// A sentence that names the error.
    pub fn to_string(&self) -> (s: String)
        ensures
            s@ == match *self {
                ConfigurationError::InvalidDimension => "invalid grid dimension"@,
                ConfigurationError::InvalidLength => "invalid snake length"@,
            },
    {
        match self {
            ConfigurationError::InvalidDimension => "invalid grid dimension".to_string(),
            ConfigurationError::InvalidLength => "invalid snake length".to_string(),
        }
    }
}

} // verus!
