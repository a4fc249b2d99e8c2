use vstd::prelude::*;
use vstd::string::*;

verus! {

/// Error taxonomy for a model pull: `RequestError` for transport-level
/// failures and non-success HTTP statuses, `ParseError` for input that does
/// not match the expected shape (manifest body, model reference, media type).
#[derive(Debug, Clone, PartialEq, Eq)]
pub enum DownloadError {
    RequestError(String),
    ParseError(String),
}

impl DownloadError {
    /// Human-readable rendering of the error, with the same prefixes a
    /// `Display` implementation would use (the library's own types carry no
    /// `Display`).
    pub fn message(&self) -> (r: String)
        ensures
            self matches DownloadError::RequestError(m) ==> r@ == "RequestError: "@ + m@,
            self matches DownloadError::ParseError(m) ==> r@ == "ParseError: "@ + m@,
    {
        match self {
            DownloadError::RequestError(m) => String::from_str("RequestError: ").concat(
                m.as_str(),
            ),
            DownloadError::ParseError(m) => String::from_str("ParseError: ").concat(m.as_str()),
        }
    }
}

} // verus!
