//! Configuration values: the server's listen settings and the client's
//! theme choice. Loading them from disk is the caller's concern; the types
//! and defaults live here.
use vstd::prelude::*;

verus! {

/// The server's startup settings.
#[derive(Debug)]
pub struct ServerConfig {
    pub host: String,
    pub port: u16,
    pub max_connections: usize,
    pub database_url: String,
}

impl Default for ServerConfig {
    /// The defaults used when no configuration file is present.
    fn default() -> (r: ServerConfig)
        ensures
            r.host@ == "0.0.0.0"@,
            r.port == 8080,
            r.max_connections == 1000,
            r.database_url@ == "sqlite::memory:"@,
    {
        ServerConfig {
            host: "0.0.0.0".to_owned(),
            port: 8080,
            max_connections: 1000,
            database_url: "sqlite::memory:".to_owned(),
        }
    }
}

/// The client's colour theme choice.
#[derive(Clone, Copy, Debug, PartialEq, Eq, Structural)]
pub enum Theme {
    Light,
    Dark,
    System,
}

} // verus!
