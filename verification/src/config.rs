//! The persisted configuration: credential and default organizations.
//!
//! Reading and writing the file, and the serialized form, live outside the
//! library; only the structure and its accessors are here.

use crate::error::GitorgError;
use vstd::prelude::*;

verus! {

#[derive(Debug, Clone)]
pub struct AuthConfig {
    pub token: Option<String>,
}

#[derive(Debug, Clone)]
pub struct DefaultsConfig {
    pub orgs: Option<Vec<String>>,
}

#[derive(Debug, Clone)]
pub struct Config {
    pub auth: AuthConfig,
    pub defaults: DefaultsConfig,
}

impl Default for AuthConfig {
    fn default() -> (r: Self)
        ensures
            r.token is None,
    {
        AuthConfig { token: None }
    }
}

impl Default for DefaultsConfig {
    fn default() -> (r: Self)
        ensures
            r.orgs is None,
    {
        DefaultsConfig { orgs: None }
    }
}

impl Default for Config {
    fn default() -> (r: Self)
        ensures
            r.auth.token is None,
            r.defaults.orgs is None,
    {
        Config { auth: AuthConfig { token: None }, defaults: DefaultsConfig { orgs: None } }
    }
}

impl Config {
    /// The stored credential, or `NotAuthenticated` when none is stored.
    pub fn token(&self) -> (r: Result<&String, GitorgError>)
        ensures
            self.auth.token is Some <==> r is Ok,
            r matches Ok(t) ==> self.auth.token matches Some(s) && t@ == s@,
            r matches Err(e) ==> e is NotAuthenticated,
    {
        match &self.auth.token {
            Some(t) => Ok(t),
            None => Err(GitorgError::NotAuthenticated),
        }
    }
}

} // verus!
