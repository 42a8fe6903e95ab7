//! The ways of authenticating against the remote service, by name.

use vstd::prelude::*;
use vstd::string::*;

verus! {

/// What `str::to_lowercase` gives for a text.
pub uninterp spec fn lowercase_of(s: Seq<char>) -> Seq<char>;

/// Relies on `str::to_lowercase`: the result depends on the characters
/// alone, and an empty text stays empty.
#[verifier::external_body]
pub(crate) fn lowercase(s: &str) -> (r: String)
    ensures
        r@ == lowercase_of(s@),
        s@.len() == 0 ==> r@.len() == 0,
{
    s.to_lowercase()
}

#[derive(Debug, Clone, Copy, PartialEq, Eq, Structural)]
pub enum AuthMethod {
    ServiceAccount,
    OAuth2,
    ApplicationDefault,
}

/// The method that a lower-case name stands for.
pub open spec fn method_named(name: Seq<char>) -> Option<AuthMethod> {
    if name == "service_account"@ {
        Some(AuthMethod::ServiceAccount)
    } else if name == "oauth2"@ {
        Some(AuthMethod::OAuth2)
    } else if name == "adc"@ || name == "application_default"@ {
        Some(AuthMethod::ApplicationDefault)
    } else {
        None
    }
}

impl AuthMethod {
    /// The method named `s`, in any case: `service_account`, `oauth2`, and
    /// `adc` or `application_default`.
    pub fn from_str(s: &str) -> (r: Option<Self>)
        ensures
            r == method_named(lowercase_of(s@)),
    {
        let lower = lowercase(s);
        Self::from_lowercase(lower.as_str())
    }

    /// The method named `name`, which is already in lower case.
    pub fn from_lowercase(name: &str) -> (r: Option<Self>)
        ensures
            r == method_named(name@),
    {
        let n = name.to_owned();
        if n == String::from_str("service_account") {
            Some(AuthMethod::ServiceAccount)
        } else if n == String::from_str("oauth2") {
            Some(AuthMethod::OAuth2)
        } else if n == String::from_str("adc") || n == String::from_str("application_default") {
            Some(AuthMethod::ApplicationDefault)
        } else {
            None
        }
    }
}

} // verus!
