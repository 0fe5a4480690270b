use vstd::prelude::*;

pub mod accounts;
pub mod codex_binary;
pub mod codex_live;
pub mod history;
pub mod json;
pub mod network_env;
pub mod official_auth;
pub mod official_backup;
pub mod proxy;
pub mod sessions;
pub mod sorting;
pub mod store;
pub mod text;
pub mod transform;
pub mod usage;

verus! {

pub const DEFAULT_PROXY_PORT: u16 = 15721;

/// Whether the proxy runs, on which port, and for which provider.
pub struct ProxyStatus {
    pub running: bool,
    pub port: u16,
    pub current_provider_id: Option<String>,
}

/// The proxy status reported for `config`.
pub fn proxy_status(config: &store::AppConfig, running: bool) -> (r: ProxyStatus)
    ensures
        r.running == running,
        r.port == config.proxy_port,
        match (r.current_provider_id, config.current_provider_id) {
            (Some(a), Some(b)) => a@ == b@,
            (None, None) => true,
            _ => false,
        },
{
    ProxyStatus {
        running: running,
        port: config.proxy_port,
        current_provider_id: match &config.current_provider_id {
            Some(id) => Some(text::owned(id.as_str())),
            None => None,
        },
    }
}

} // verus!
