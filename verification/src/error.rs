use vstd::prelude::*;

verus! {

/// Errors reported by the library.
#[derive(Debug, Clone, PartialEq, Eq)]
pub enum Error {
    /// A value failed validation.
    InvalidValue(String),
    /// A package build command failed.
    Base(String),
    /// A package build command stopped the build.
    Bail(String),
}

impl Error {
    /// The message carried by the error.
    pub open spec fn spec_message(&self) -> Seq<char> {
        match self {
            Error::InvalidValue(m) => m@,
            Error::Base(m) => m@,
            Error::Bail(m) => m@,
        }
    }

    /// Returns the error's message text.
    pub fn message(&self) -> (m: String)
        ensures
            m@ == self.spec_message(),
    {
        match self {
            Error::InvalidValue(m) => m.clone(),
            Error::Base(m) => m.clone(),
            Error::Bail(m) => m.clone(),
        }
    }
}

}
