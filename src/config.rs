use vstd::prelude::*;

verus! {

/// The service configuration.
#[derive(Clone, Debug)]
pub struct AppConfig {
    pub server: ServerConfig,
}

/// Where the service listens, and whether it starts the file watchers.
#[derive(Clone, Debug)]
pub struct ServerConfig {
    pub host: String,
    pub port: u16,
    pub auto_start_watchers: bool,
}

/// The watchers start unless the configuration says otherwise.
pub fn default_auto_start_watchers() -> (r: bool)
    ensures
        r,
{
    true
}

} // verus!
