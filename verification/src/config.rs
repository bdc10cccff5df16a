//! The service configuration, loaded once at startup and immutable after.

use crate::session::sat_mul;
use vstd::prelude::*;

verus! {

/// Where the service listens and what it serves.
pub struct ServerConfig {
    /// The address to bind, as text.
    pub bind_addr: String,
    /// The TCP port to bind.
    pub port: u16,
    /// The directory that becomes the sandbox root.
    pub root_dir: String,
    /// How long a session lives, in minutes.
    pub session_timeout_minutes: u64,
}

/// The credential gate.
pub struct AuthConfig {
    /// The Argon2 hash of the service password, as a PHC string.
    pub password_hash: String,
}

/// Optional capabilities.
pub struct FeatureConfig {
    /// Serve the scientific-data preview endpoint.
    pub enable_hdf5: bool,
    /// Serve file-change notifications on the watch socket.
    pub enable_watch: bool,
}

/// The whole configuration.
pub struct Config {
    pub server: ServerConfig,
    pub auth: AuthConfig,
    pub features: FeatureConfig,
}

impl Config {
    /// The session lifetime in seconds: the configured minutes times
    /// sixty, saturating rather than overflowing.
    pub fn ttl_seconds(&self) -> (r: u64)
        ensures
            r == sat_mul(self.server.session_timeout_minutes, 60),
    {
        let m = self.server.session_timeout_minutes;
        if m > u64::MAX / 60 {
            proof {
                assert(m * 60 > u64::MAX) by (nonlinear_arith)
                    requires
                        m > u64::MAX / 60,
                ;
            }
            u64::MAX
        } else {
            m * 60
        }
    }
}

} // verus!
