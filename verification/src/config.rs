//! The client's configuration.
use vstd::prelude::*;

verus! {

/// The server to connect to, its password, and whether to connect on start.
pub struct Config {
    pub server: Option<String>,
    pub pass: Option<String>,
    pub autoconnect: bool,
}

impl Default for Config {
    /// No server, no password, no connecting on start.
    fn default() -> (r: Config)
        ensures
            r.server is None,
            r.pass is None,
            !r.autoconnect,
    {
        Config { server: None, pass: None, autoconnect: false }
    }
}

} // verus!
