//! Failures of loading a store.

use vstd::prelude::*;

verus! {

/// Why a header-and-body input was rejected.
#[derive(Clone, Copy, Debug, PartialEq, Eq, Structural)]
pub enum FormatError {
    /// A line that declares the vertex count does not hold a count.
    MalformedHeader,
    /// The line that ends the header is not among the lines read.
    MissingSentinel,
    /// The body is shorter than the declared number of records.
    BodyLength,
}

/// Why a load failed. A failed load leaves the store as it was.
#[derive(Clone, Copy, Debug, PartialEq, Eq, Structural)]
pub enum SceneError {
    /// The input is not in the header-and-body format.
    Format(FormatError),
    /// A packed buffer whose length is no multiple of the record stride.
    Size,
    /// The decode service did not answer within the attempts allowed.
    ServiceTimeout,
}

impl SceneError {
    /// A sentence for the user.
    pub fn message(&self) -> (text: String)
        ensures
            text@ == match *self {
                SceneError::Format(_) => "the file is not correctly formatted"@,
                SceneError::Size => "the buffer length is not a multiple of the record size"@,
                SceneError::ServiceTimeout => "the decode service timed out"@,
            },
    {
        match self {
            SceneError::Format(_) => "the file is not correctly formatted".to_owned(),
            SceneError::Size => "the buffer length is not a multiple of the record size".to_owned(),
            SceneError::ServiceTimeout => "the decode service timed out".to_owned(),
        }
    }
}

} // verus!
