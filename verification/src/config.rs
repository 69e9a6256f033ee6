//! The process configuration: what the environment hands the server at
//! startup. The environment reading itself happens outside.

use vstd::prelude::*;
use vstd::string::*;

verus! {

/// The operating mode.
#[derive(Debug, Clone, Copy, PartialEq, Eq, Structural)]
pub enum CargoEnv {
    Development,
    Production,
}

/// Everything the server is configured with.
pub struct AppConfig {
    /// Production or development.
    pub cargo_env: CargoEnv,
    /// The port the app binds to.
    pub port: u16,
    /// The key-value store connection string.
    pub redis_url: String,
    /// The HMAC secret signatures are generated with.
    pub access_token_secret: String,
    /// `*`, or a comma-separated allow-list of origins.
    pub cors_origin: String,
    /// The same, for preview environments.
    pub preview_cors_origin: String,
    /// An optional crash-reporter endpoint.
    pub sentry_dsn: Option<String>,
}

impl Default for AppConfig {
    /// The fallback configuration: development mode on port 5000 against a
    /// local store, with placeholder secrets and open origins.
    fn default() -> (r: Self)
        ensures
            r.cargo_env == CargoEnv::Development,
            r.port == 5000,
            r.redis_url@ == "redis://localhost:6379"@,
            r.access_token_secret@ == "default-access-secret"@,
            r.cors_origin@ == "*"@,
            r.preview_cors_origin@ == "*"@,
            r.sentry_dsn is None,
    {
        AppConfig {
            cargo_env: CargoEnv::Development,
            port: 5000,
            redis_url: String::from_str("redis://localhost:6379"),
            access_token_secret: String::from_str("default-access-secret"),
            cors_origin: String::from_str("*"),
            preview_cors_origin: String::from_str("*"),
            sentry_dsn: None,
        }
    }
}

} // verus!
