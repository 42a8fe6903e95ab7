//! The service's configuration and its consistency check.

use vstd::prelude::*;
use vstd::string::*;
use std::collections::HashMap;
use crate::auth_manager::{lowercase, lowercase_of};

verus! {

#[derive(Debug, Clone)]
pub struct AuthConfig {
    /// `service_account`, `oauth2`, `adc` or `application_default`, in any case.
    pub method: String,
    pub service_account_key_path: Option<String>,
    pub oauth2_client_secret_path: Option<String>,
}

#[derive(Debug)]
pub struct AppConfig {
    pub auth: AuthConfig,
    pub google_drive_folder_id: Option<String>,
    pub extra: HashMap<String, String>,
}

/// What is wrong with an authentication setting whose method is named
/// `method` in lower case, if anything.
pub open spec fn auth_problem(auth: AuthConfig, method: Seq<char>) -> Option<Seq<char>> {
    if method == "service_account"@ {
        if auth.service_account_key_path is None {
            Some("service_account_key_path must be set for Service Account auth"@)
        } else {
            None
        }
    } else if method == "oauth2"@ {
        if auth.oauth2_client_secret_path is None {
            Some("oauth2_client_secret_path must be set for OAuth2 auth"@)
        } else {
            None
        }
    } else if method == "adc"@ || method == "application_default"@ {
        None
    } else {
        Some("Invalid auth method specified"@)
    }
}

impl AppConfig {
    /// Checks that the authentication method is known and that the file it
    /// needs is named.
    pub fn validate(&self) -> (r: Result<(), String>)
        ensures
            match auth_problem(self.auth, lowercase_of(self.auth.method@)) {
                None => r is Ok,
                Some(m) => r matches Err(e) && e@ == m,
            },
    {
        let method = lowercase(self.auth.method.as_str());
        self.validate_method(method.as_str())
    }

    /// Checks the authentication setting as if its method were `method`,
    /// already in lower case.
    pub fn validate_method(&self, method: &str) -> (r: Result<(), String>)
        ensures
            match auth_problem(self.auth, method@) {
                None => r is Ok,
                Some(m) => r matches Err(e) && e@ == m,
            },
    {
        let m = method.to_owned();
        if m == String::from_str("service_account") {
            if self.auth.service_account_key_path.is_none() {
                return Err(
                    String::from_str("service_account_key_path must be set for Service Account auth"),
                );
            }
        } else if m == String::from_str("oauth2") {
            if self.auth.oauth2_client_secret_path.is_none() {
                return Err(String::from_str("oauth2_client_secret_path must be set for OAuth2 auth"));
            }
        } else if m == String::from_str("adc") || m == String::from_str("application_default") {
        } else {
            return Err(String::from_str("Invalid auth method specified"));
        }
        Ok(())
    }
}

} // verus!
