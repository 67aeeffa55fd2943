use vstd::prelude::*;
use crate::endpoint::Method;

verus! {

/// The configuration errors composition can end in.  Composition has no
/// partial success: on any of these no dispatcher is produced.
pub enum ComposeError {
    /// Two distinct declared endpoints claim the identical method and path.
    /// The names are those of the two claiming groups, which may coincide.
    Conflict { first_group: String, second_group: String, method: Method, path: String },
    /// A group declared a path the composer does not accept.
    InvalidPath { group: String, path: String },
    /// A group's constructor itself failed during registration; its message
    /// is passed on unchanged.
    GroupFailed { group: String, message: String },
}

impl ComposeError {
    /// What `describe` returns for each error.
    pub open spec fn spec_describe(&self) -> Seq<char> {
        match self {
            ComposeError::Conflict { .. } => "duplicate route registration"@,
            ComposeError::InvalidPath { .. } => "path not accepted"@,
            ComposeError::GroupFailed { .. } => "route group failed to build"@,
        }
    }

    /// A short description of the error, for the host process's startup log.
    pub fn describe(&self) -> (m: String)
        ensures
            m@ == self.spec_describe(),
    {
        match self {
            ComposeError::Conflict { .. } => "duplicate route registration".to_owned(),
            ComposeError::InvalidPath { .. } => "path not accepted".to_owned(),
            ComposeError::GroupFailed { .. } => "route group failed to build".to_owned(),
        }
    }
}

} // verus!
