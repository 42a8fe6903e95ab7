//! The service's errors and what to do about each.

use vstd::prelude::*;

verus! {

#[verifier::external_type_specification]
#[verifier::external_body]
pub struct ExIoError(std::io::Error);

#[derive(Debug)]
pub enum GsheetsError {
    Auth(String),
    Io(std::io::Error),
    Network(String),
    Parsing(String),
    Validation(String),
    MissingField(String),
    Other(String),
    ApiError(String),
}

pub type McpError = GsheetsError;

/// The advice that goes with each kind of error.
pub open spec fn hint_for(e: GsheetsError) -> Seq<char> {
    match e {
        GsheetsError::Auth(_) => "Verify authentication method and credentials."@,
        GsheetsError::Io(_) => "Check file paths, permissions, and disk space."@,
        GsheetsError::Network(_) => "Check network connectivity and proxy settings."@,
        GsheetsError::Parsing(_) => "Check input data format and schema."@,
        GsheetsError::Validation(_) => "Check input values and required fields."@,
        GsheetsError::MissingField(_) => "Ensure all required configuration and request fields are set."@,
        GsheetsError::Other(_) => "See error details for more information."@,
        GsheetsError::ApiError(_) => "Check API request format and parameters."@,
    }
}

impl GsheetsError {
    /// What the user can do about this error.
    pub fn remediation_hint(&self) -> (r: &'static str)
        ensures
            r@ == hint_for(*self),
    {
        match self {
            GsheetsError::Auth(_) => "Verify authentication method and credentials.",
            GsheetsError::Io(_) => "Check file paths, permissions, and disk space.",
            GsheetsError::Network(_) => "Check network connectivity and proxy settings.",
            GsheetsError::Parsing(_) => "Check input data format and schema.",
            GsheetsError::Validation(_) => "Check input values and required fields.",
            GsheetsError::MissingField(_) => "Ensure all required configuration and request fields are set.",
            GsheetsError::Other(_) => "See error details for more information.",
            GsheetsError::ApiError(_) => "Check API request format and parameters.",
        }
    }
}

} // verus!
