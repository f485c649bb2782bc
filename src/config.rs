//! The configuration of the proxy: one entry per upstream game server.
use vstd::prelude::*;

verus! {

/// The log level used when the configuration names none.
pub const DEFAULT_LOG_LEVEL: &'static str = "info";

/// One proxied game server.
#[derive(Debug, Clone, PartialEq, Eq)]
pub struct ServerConfig {
    /// A label for logs.
    pub name: String,
    /// The game server's UDP address, `host:port`.
    pub host: String,
    /// The local UDP address the proxy listens on, `host:port`.
    pub bind: String,
}

#[derive(Debug, Clone, PartialEq, Eq)]
pub struct Config {
    pub servers: Vec<ServerConfig>,
    pub log_level: Option<String>,
}

impl Config {
    /// The configured log level, or `info` when none is configured.
    pub fn log_level_or_default(&self) -> (r: String)
        ensures
            r@ == match self.log_level {
                Some(l) => l@,
                None => DEFAULT_LOG_LEVEL@,
            },
    {
        match &self.log_level {
            Some(l) => l.clone(),
            None => DEFAULT_LOG_LEVEL.to_owned(),
        }
    }
}

} // verus!
