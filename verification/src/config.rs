//! The configuration surface the service consumes at startup. Loading it
//! from the environment is the caller's concern; the core only reads these
//! plain values.

use vstd::prelude::*;

verus! {

/// Startup configuration: where to listen, where to store, and the shared
/// credential pair guarding uploads.
pub struct Config {
    pub listen_address: String,
    pub basic_auth_username: String,
    pub basic_auth_password: String,
    pub enable_auth: bool,
    pub storage_folder: String,
}

/// Whether the upload endpoint is guarded, and by which credential pair.
#[derive(Debug, Clone)]
pub enum AuthConfig {
    Enabled { username: String, password: String },
    Disabled,
}

impl Config {
    /// The auth gate's configuration: the credential pair when auth is
    /// enabled, nothing otherwise.
    pub fn auth_config(&self) -> (r: AuthConfig)
        ensures
            self.enable_auth ==> (r matches AuthConfig::Enabled { username, password }
                && username@ == self.basic_auth_username@ && password@
                == self.basic_auth_password@),
            !self.enable_auth ==> r is Disabled,
    {
        if self.enable_auth {
            AuthConfig::Enabled {
                username: self.basic_auth_username.clone(),
                password: self.basic_auth_password.clone(),
            }
        } else {
            AuthConfig::Disabled
        }
    }
}

} // verus!
