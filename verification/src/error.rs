//! The error taxonomy of the client.

use vstd::prelude::*;
use vstd::string::StringExecFns;

verus! {

/// Every way a command can fail. Remote failures are collapsed into one
/// variant carrying a descriptive message.
#[derive(Debug, Clone)]
pub enum GitorgError {
    NotAuthenticated,
    Config(String),
    GitHub(String),
    Io(String),
    TomlDeserialize(String),
    TomlSerialize(String),
    RateLimited(String),
    OrgNotFound(String),
}

impl GitorgError {
    /// The one human-readable line reported for this error.
    pub open spec fn spec_message(&self) -> Seq<char> {
        match self {
            GitorgError::NotAuthenticated => "Not authenticated. Run `gitorg auth` first."@,
            GitorgError::Config(m) => "Configuration error: "@ + m@,
            GitorgError::GitHub(m) => "GitHub API error: "@ + m@,
            GitorgError::Io(m) => "I/O error: "@ + m@,
            GitorgError::TomlDeserialize(m) => "TOML deserialization error: "@ + m@,
            GitorgError::TomlSerialize(m) => "TOML serialization error: "@ + m@,
            GitorgError::RateLimited(m) => "Rate limited. Resets at "@ + m@
                + ". Please wait and retry."@,
            GitorgError::OrgNotFound(m) => "Organization not found: "@ + m@,
        }
    }

    pub fn message(&self) -> (r: String)
        ensures
            r@ == self.spec_message(),
    {
        match self {
            GitorgError::NotAuthenticated => String::from_str(
                "Not authenticated. Run `gitorg auth` first.",
            ),
            GitorgError::Config(m) => String::from_str("Configuration error: ").concat(
                m.as_str(),
            ),
            GitorgError::GitHub(m) => String::from_str("GitHub API error: ").concat(m.as_str()),
            GitorgError::Io(m) => String::from_str("I/O error: ").concat(m.as_str()),
            GitorgError::TomlDeserialize(m) => String::from_str(
                "TOML deserialization error: ",
            ).concat(m.as_str()),
            GitorgError::TomlSerialize(m) => String::from_str(
                "TOML serialization error: ",
            ).concat(m.as_str()),
            GitorgError::RateLimited(m) => String::from_str("Rate limited. Resets at ").concat(
                m.as_str(),
            ).concat(". Please wait and retry."),
            GitorgError::OrgNotFound(m) => String::from_str("Organization not found: ").concat(
                m.as_str(),
            ),
        }
    }
}

} // verus!
