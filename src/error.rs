//! The ways a comparison run can fail.
use vstd::prelude::*;

verus! {

/// Why a comparison run stopped; each carries the offending text.
#[derive(Debug, Clone, PartialEq, Eq)]
pub enum XdiffError {
    /// A base request or response spec is malformed.
    InvalidProfile(String),
    /// An override token is malformed.
    InvalidOverride(String),
    /// An override header name or value is not valid.
    InvalidHeader(String),
    /// The body's content type has no encoding.
    UnsupportedContentType(String),
    /// The body has no form in the chosen encoding.
    UnencodableBody(String),
    /// A body declared as JSON does not parse.
    MalformedBody(String),
    /// The transport could not complete a request.
    RequestFailed(String),
    /// No profile has the name asked for.
    ProfileNotFound(String),
}

} // verus!
