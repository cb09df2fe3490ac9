//! The command-line surface as plain data: the connection parameters,
//! the command to run, and the authentication settings drawn from them.
//! The surrounding binary parses its arguments into these shapes and
//! hands them in.

use vstd::prelude::*;

verus! {

/// One invocation of the tool: where to connect, how to authenticate,
/// how chatty to be, and what to do.
pub struct Cli {
    pub endpoint: String,
    pub username: Option<String>,
    pub password: Option<String>,
    pub cert: Option<String>,
    pub key: Option<String>,
    pub verbose: bool,
    pub command: Commands,
}

/// The commands the tool offers.
pub enum Commands {
    /// Show what the connected endpoint offers.
    Discover,
    /// Walk the address space from a starting node, depth-bounded.
    Browse { node: Option<String>, depth: u32, compact: bool, values: bool },
    /// Read attributes of given nodes, or of nodes found by name.
    Read { node_ids: Vec<String>, all_attributes: bool, include_value: bool, search: bool },
    /// Call a method, resolving it and its owning object by name if need
    /// be.
    Call { method_id: String, object_id: Option<String>, args: Option<String>, verbose: bool },
    /// Show server status, time, build info and namespaces.
    Info,
}

/// Authentication settings: an optional username and password, and an
/// optional client certificate with its private key.
#[derive(Debug)]
pub struct AuthConfig {
    pub username: Option<String>,
    pub password: Option<String>,
    pub cert_path: Option<String>,
    pub key_path: Option<String>,
}

impl Clone for AuthConfig {
    fn clone(&self) -> (r: AuthConfig)
        ensures
            r == *self,
    {
        AuthConfig {
            username: clone_opt(&self.username),
            password: clone_opt(&self.password),
            cert_path: clone_opt(&self.cert_path),
            key_path: clone_opt(&self.key_path),
        }
    }
}

/// A value-preserving clone of an optional string.
fn clone_opt(o: &Option<String>) -> (r: Option<String>)
    ensures
        r == *o,
{
    match o {
        Some(s) => Some(s.clone()),
        None => None,
    }
}

impl From<&Cli> for AuthConfig {
    fn from(cli: &Cli) -> (r: AuthConfig) {
        AuthConfig {
            username: clone_opt(&cli.username),
            password: clone_opt(&cli.password),
            cert_path: clone_opt(&cli.cert),
            key_path: clone_opt(&cli.key),
        }
    }
}

impl vstd::std_specs::convert::FromSpecImpl<&Cli> for AuthConfig {
    open spec fn obeys_from_spec() -> bool {
        true
    }

    open spec fn from_spec(cli: &Cli) -> AuthConfig {
        AuthConfig {
            username: cli.username,
            password: cli.password,
            cert_path: cli.cert,
            key_path: cli.key,
        }
    }
}

} // verus!
