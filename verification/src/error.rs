//! The error type of the library.
use vstd::prelude::*;

verus! {

/// What went wrong, with a message for the user.
#[derive(Debug, Clone)]
pub enum SpmError {
    Other(String),
    CommandFailed(String),
    InvalidFormat(String),
    Network(String),
    PackageNotFound(String),
    PackageAlreadyInstalled(String),
    Compression(String),
    Sandbox(String),
    Config(String),
    ResolutionFailed(String),
    Io(String),
}

pub type SpmResult<T> = Result<T, SpmError>;

impl SpmError {
    /// The message the error carries.
    pub fn text(&self) -> (r: String)
        ensures
            r@ == error_text(*self),
    {
        match self {
            SpmError::Other(m) => m.clone(),
            SpmError::CommandFailed(m) => m.clone(),
            SpmError::InvalidFormat(m) => m.clone(),
            SpmError::Network(m) => m.clone(),
            SpmError::PackageNotFound(m) => m.clone(),
            SpmError::PackageAlreadyInstalled(m) => m.clone(),
            SpmError::Compression(m) => m.clone(),
            SpmError::Sandbox(m) => m.clone(),
            SpmError::Config(m) => m.clone(),
            SpmError::ResolutionFailed(m) => m.clone(),
            SpmError::Io(m) => m.clone(),
        }
    }
}

/// The message of an error.
pub open spec fn error_text(e: SpmError) -> Seq<char> {
    match e {
        SpmError::Other(m) => m@,
        SpmError::CommandFailed(m) => m@,
        SpmError::InvalidFormat(m) => m@,
        SpmError::Network(m) => m@,
        SpmError::PackageNotFound(m) => m@,
        SpmError::PackageAlreadyInstalled(m) => m@,
        SpmError::Compression(m) => m@,
        SpmError::Sandbox(m) => m@,
        SpmError::Config(m) => m@,
        SpmError::ResolutionFailed(m) => m@,
        SpmError::Io(m) => m@,
    }
}

/// The message of an error built from a literal.
pub fn message(s: &str) -> (r: String)
    ensures
        r@ == s@,
{
    let mut r = String::new();
    crate::text::push_str(&mut r, s);
    r
}

} // verus!
