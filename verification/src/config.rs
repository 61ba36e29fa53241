//! How the service around the library is set up.

use vstd::prelude::*;

verus! {

/// How requests are authenticated.
#[derive(Clone, Debug)]
pub enum AuthConfig {
    JWT { jwks_uri: String, issuer: String, audience: String },
    DevNoAuth { user_id: String },
}

impl AuthConfig {
    /// Where the key set is fetched from, where tokens are checked at all.
    pub fn get_jwks_uri(&self) -> (r: Option<&str>)
        ensures
            match self {
                AuthConfig::JWT { jwks_uri, .. } => r matches Some(uri) && uri@ == jwks_uri@,
                AuthConfig::DevNoAuth { .. } => r is None,
            },
    {
        match self {
            AuthConfig::JWT { jwks_uri, .. } => Some(jwks_uri.as_str()),
            AuthConfig::DevNoAuth { .. } => None,
        }
    }
}

/// The settings of the service.
#[derive(Clone, Debug)]
pub struct AppConfig {
    pub port: u16,
    pub host: String,
    pub auth: AuthConfig,
    pub database_url: String,
}

} // verus!
