//! Application configuration: network and region settings, the admin API key,
//! the load-balancing mode and the optional Cloud Pass section.

use vstd::prelude::*;
use crate::rng::random_below;

verus! {

/// Which TLS implementation the outbound HTTP client uses.
#[derive(Clone, Copy, Debug, PartialEq, Eq, Structural)]
pub enum TlsBackend {
    Rustls,
    NativeTls,
}

impl Default for TlsBackend {
    fn default() -> (r: Self)
        ensures
            r == TlsBackend::Rustls,
    {
        TlsBackend::Rustls
    }
}

pub fn default_host() -> (r: String)
    ensures
        r@ == "127.0.0.1"@,
{
    String::from_str("127.0.0.1")
}

pub fn default_port() -> (r: u16)
    ensures
        r == 8080u16,
{
    8080
}

pub fn default_region() -> (r: String)
    ensures
        r@ == "us-east-1"@,
{
    String::from_str("us-east-1")
}

pub fn default_kiro_version() -> (r: String)
    ensures
        r@ == "0.10.0"@,
{
    String::from_str("0.10.0")
}

/// Picks one of the advertised system identities at random.
pub fn default_system_version() -> (r: String)
    ensures
        r@ == "darwin#24.6.0"@ || r@ == "win32#10.0.22631"@,
{
    let pick = random_below(2);
    if pick == 0 {
        String::from_str("darwin#24.6.0")
    } else {
        String::from_str("win32#10.0.22631")
    }
}

pub fn default_node_version() -> (r: String)
    ensures
        r@ == "22.21.1"@,
{
    String::from_str("22.21.1")
}

pub fn default_count_tokens_auth_type() -> (r: String)
    ensures
        r@ == "x-api-key"@,
{
    String::from_str("x-api-key")
}

pub fn default_tls_backend() -> (r: TlsBackend)
    ensures
        r == TlsBackend::Rustls,
{
    TlsBackend::Rustls
}

pub fn default_load_balancing_mode() -> (r: String)
    ensures
        r@ == "priority"@,
{
    String::from_str("priority")
}

pub fn default_cloud_pass_server() -> (r: String)
    ensures
        r@ == "http://kiro.eskysoft.com:9123"@,
{
    String::from_str("http://kiro.eskysoft.com:9123")
}

pub fn default_cloud_pass_interval() -> (r: u64)
    ensures
        r == 900u64,
{
    900
}

pub fn default_cloud_pass_version() -> (r: String)
    ensures
        r@ == "1.1.2"@,
{
    String::from_str("1.1.2")
}

/// Settings of the Cloud Pass credential provisioning worker.
#[derive(Clone, Debug)]
pub struct CloudPassConfig {
    /// License code; required.
    pub license_code: String,
    /// Device id; when absent the client reads or generates one.
    pub device_id: Option<String>,
    /// Server base URL.
    pub server_url: String,
    /// Scheduled refresh interval in seconds.
    pub refresh_interval: u64,
    /// Whether to evict a prior holder of the license slot.
    pub reassign: bool,
    /// Client version string sent with each request.
    pub client_version: String,
    /// Fixed machine id used for injected credentials; the device id
    /// stands in when absent.
    pub machine_id: Option<String>,
}

/// Application configuration.
#[derive(Clone, Debug)]
pub struct Config {
    pub host: String,
    pub port: u16,
    pub region: String,
    /// Region for token refresh; falls back to `region`.
    pub auth_region: Option<String>,
    /// Region for API requests; falls back to `region`.
    pub api_region: Option<String>,
    pub kiro_version: String,
    pub machine_id: Option<String>,
    pub api_key: Option<String>,
    pub system_version: String,
    pub node_version: String,
    pub tls_backend: TlsBackend,
    pub count_tokens_api_url: Option<String>,
    pub count_tokens_api_key: Option<String>,
    pub count_tokens_auth_type: String,
    pub proxy_url: Option<String>,
    pub proxy_username: Option<String>,
    pub proxy_password: Option<String>,
    /// Enables the admin HTTP surface when present.
    pub admin_api_key: Option<String>,
    /// Either "priority" or "balanced".
    pub load_balancing_mode: String,
    pub cloud_pass: Option<CloudPassConfig>,
    /// Where the configuration was loaded from, if anywhere.
    pub config_path: Option<String>,
}

impl Default for Config {
    fn default() -> (r: Self)
        ensures
            r.host@ == "127.0.0.1"@,
            r.port == 8080u16,
            r.region@ == "us-east-1"@,
            r.auth_region is None,
            r.api_region is None,
            r.kiro_version@ == "0.10.0"@,
            r.machine_id is None,
            r.api_key is None,
            r.system_version@ == "darwin#24.6.0"@ || r.system_version@ == "win32#10.0.22631"@,
            r.node_version@ == "22.21.1"@,
            r.tls_backend == TlsBackend::Rustls,
            r.count_tokens_api_url is None,
            r.count_tokens_api_key is None,
            r.count_tokens_auth_type@ == "x-api-key"@,
            r.proxy_url is None,
            r.proxy_username is None,
            r.proxy_password is None,
            r.admin_api_key is None,
            r.load_balancing_mode@ == "priority"@,
            r.cloud_pass is None,
            r.config_path is None,
    {
        Config {
            host: default_host(),
            port: default_port(),
            region: default_region(),
            auth_region: None,
            api_region: None,
            kiro_version: default_kiro_version(),
            machine_id: None,
            api_key: None,
            system_version: default_system_version(),
            node_version: default_node_version(),
            tls_backend: default_tls_backend(),
            count_tokens_api_url: None,
            count_tokens_api_key: None,
            count_tokens_auth_type: default_count_tokens_auth_type(),
            proxy_url: None,
            proxy_username: None,
            proxy_password: None,
            admin_api_key: None,
            load_balancing_mode: default_load_balancing_mode(),
            cloud_pass: None,
            config_path: None,
        }
    }
}

impl Config {
    /// Default location of the configuration file.
    pub fn default_config_path() -> (r: &'static str)
        ensures
            r@ == "config.json"@,
    {
        "config.json"
    }

    /// Where this configuration was loaded from, in spec form.
    pub open spec fn spec_config_path(&self) -> Option<Seq<char>> {
        match self.config_path {
            Some(p) => Some(p@),
            None => None,
        }
    }

    /// The path the configuration was loaded from, if any.
    pub fn config_path(&self) -> (r: Option<&str>)
        ensures
            match r {
                Some(p) => self.spec_config_path() == Some(p@),
                None => self.spec_config_path() is None,
            },
    {
        match &self.config_path {
            Some(p) => Some(p.as_str()),
            None => None,
        }
    }

    /// Builds a configuration that remembers where it was loaded from.
    pub fn with_path(self, path: String) -> (r: Self)
        ensures
            r == (Config { config_path: Some(path), ..self }),
    {
        Config { config_path: Some(path), ..self }
    }

    /// Region used for token refresh: the override when set, else `region`.
    pub fn effective_auth_region(&self) -> (r: &str)
        ensures
            r@ == match self.auth_region {
                Some(a) => a@,
                None => self.region@,
            },
    {
        match &self.auth_region {
            Some(a) => a.as_str(),
            None => self.region.as_str(),
        }
    }

    /// Region used for API requests: the override when set, else `region`.
    pub fn effective_api_region(&self) -> (r: &str)
        ensures
            r@ == match self.api_region {
                Some(a) => a@,
                None => self.region@,
            },
    {
        match &self.api_region {
            Some(a) => a.as_str(),
            None => self.region.as_str(),
        }
    }
}

} // verus!
