//! Application configuration: the values parsed out of the configuration
//! file. Reading and decoding the file itself is the caller's concern; this
//! module holds the settled values and what is derived from them.

use vstd::prelude::*;
use vstd::string::StringExecFns;

verus! {

/// The configured paths and server settings.
pub struct Config {
    /// Path to the templates directory, relative to the project root.
    pub templates_dir: String,
    /// Path of the database file, relative to the project root.
    pub database_path: String,
    /// Server settings.
    pub server: ServerConfig,
}

/// Server-specific settings.
pub struct ServerConfig {
    /// Host address used when none is given.
    pub default_host: String,
    /// Port used when none is given.
    pub default_port: u16,
}

/// The host address used when the configuration names none.
pub fn default_host() -> (r: String)
    ensures
        r@ == "127.0.0.1"@,
{
    String::from_str("127.0.0.1")
}

/// The port used when the configuration names none.
pub fn default_port() -> (r: u16)
    ensures
        r == 3000,
{
    3000
}

impl Default for ServerConfig {
    fn default() -> (r: Self)
        ensures
            r.default_host@ == "127.0.0.1"@,
            r.default_port == 3000,
    {
        ServerConfig { default_host: default_host(), default_port: default_port() }
    }
}

impl Config {
    /// The database URL: the `sqlite:` scheme in front of the configured
    /// database path.
    pub fn database_url(&self) -> (r: String)
        ensures
            r@ == "sqlite:"@ + self.database_path@,
    {
        let mut url = String::from_str("sqlite:");
        url.append(self.database_path.as_str());
        url
    }
}

} // verus!
