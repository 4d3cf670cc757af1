//! Configuration model: the typed sections of the line-oriented,
//! HAProxy-style configuration text, the parser that builds them, and the
//! load-time validation of cross references.

use vstd::prelude::*;
use vstd::string::StringSliceAdditionalSpecFns;
use vstd::string::StrSliceExecFns;
use vstd::string::StringExecFns;
use crate::options::Options;
use crate::options::OptionsV;
use crate::options;
use crate::scan;

verus! {

/// Why a configuration text or a directive was rejected.
#[derive(Debug, Clone)]
pub enum ConfigError {
    /// The configuration text must be ASCII.
    NotAscii,
    /// A duration such as `5s` or `200ms` could not be read.
    InvalidDuration,
    /// A decimal number could not be read or does not fit its field.
    InvalidNumber,
    /// A directive line has a key but no value.
    InvalidDirective,
    /// A frontend names a backend that does not exist.
    UnknownBackendRef { frontend: String, backend: String },
    /// A backend has no servers.
    BackendWithoutServers { backend: String },
    /// Two backends share a name.
    DuplicateBackendName { backend: String },
    /// Two servers of one backend share a name.
    DuplicateServerName { backend: String, server: String },
    /// An ACL criterion was empty.
    EmptyAclCriterion,
    /// An ACL criterion is missing its argument.
    MissingAclArgument,
    /// An IP address or CIDR block could not be read.
    InvalidAddress,
}

#[derive(Debug, Clone)]
pub struct Config {
    pub global: GlobalConfig,
    pub defaults: DefaultsConfig,
    pub frontends: Vec<FrontendConfig>,
    pub backends: Vec<BackendConfig>,
    pub metrics: MetricsConfig,
    pub rate_limit: Option<RateLimitConfig>,
    pub ddos_protection: Option<DdosProtectionConfig>,
    pub hot_reload: Option<HotReloadConfig>,
    pub compression: Option<CompressionConfig>,
}

#[derive(Debug, Clone)]
pub struct GlobalConfig {
    pub maxconn: Option<u32>,
    pub log: Option<String>,
    pub user: Option<String>,
    pub group: Option<String>,
    pub daemon: Option<bool>,
    pub pidfile: Option<String>,
    pub ssl_default_bind_ciphers: Option<String>,
    pub ssl_default_bind_options: Option<String>,
    pub option: Vec<String>,
}

#[derive(Debug, Clone)]
pub struct DefaultsConfig {
    pub mode: Option<String>,
    pub log: Option<String>,
    pub option: Vec<String>,
    pub timeout: Vec<(String, String)>,
    pub retries: Option<u32>,
    pub options: Option<Options>,
}

#[derive(Debug, Clone)]
pub struct FrontendConfig {
    pub name: String,
    pub bind: Vec<String>,
    pub mode: Option<String>,
    pub default_backend: Option<String>,
    pub acl: Vec<AclConfig>,
    pub use_backend: Vec<UseBackendConfig>,
    pub option: Vec<String>,
    pub timeout: Vec<(String, String)>,
    pub options: Option<Options>,
}

#[derive(Debug, Clone)]
pub struct BackendConfig {
    pub name: String,
    pub mode: Option<String>,
    pub balance: Option<String>,
    pub server: Vec<ServerConfig>,
    pub option: Vec<String>,
    pub timeout: Vec<(String, String)>,
    pub health_check: Option<HealthCheckConfig>,
    pub options: Option<Options>,
    pub retries: Option<u32>,
}

#[derive(Debug, Clone)]
pub struct ServerConfig {
    pub name: String,
    pub address: String,
    pub port: u16,
    pub weight: Option<u32>,
    pub maxconn: Option<u32>,
    pub check: Option<bool>,
    pub inter: Option<String>,
    pub rise: Option<u32>,
    pub fall: Option<u32>,
    pub backup: Option<bool>,
    pub disabled: Option<bool>,
}

#[derive(Debug, Clone)]
pub struct AclConfig {
    pub name: String,
    pub criterion: String,
}

#[derive(Debug, Clone)]
pub struct UseBackendConfig {
    pub backend: String,
    pub condition: Option<String>,
}

#[derive(Debug, Clone)]
pub struct HealthCheckConfig {
    pub interval: String,
    pub timeout: String,
    pub rise: u32,
    pub fall: u32,
}

#[derive(Debug, Clone)]
pub struct MetricsConfig {
    pub enabled: bool,
    pub bind: Option<String>,
    pub path: Option<String>,
}

#[derive(Debug, Clone)]
pub struct RateLimitConfig {
    pub requests_per_second: u32,
    pub burst_size: u32,
    pub window_size: u64,
}

#[derive(Debug, Clone)]
pub struct DdosProtectionConfig {
    pub reset_interval_seconds: u64,
    pub max_requests_per_minute: Option<u32>,
    pub max_connections_per_ip: Option<u32>,
    pub suspicious_patterns: Vec<String>,
    pub whitelist: Vec<String>,
    pub blacklist: Vec<String>,
}

#[derive(Debug, Clone)]
pub struct HotReloadConfig {
    pub enabled: bool,
    pub watch_interval: u64,
}

#[derive(Debug, Clone)]
pub struct CompressionConfig {
    pub gzip_enabled: bool,
    pub brotli_enabled: bool,
    pub deflate_enabled: bool,
    pub min_size: usize,
    pub max_size: usize,
    pub compression_level: u32,
    pub content_types: Vec<String>,
}

impl Default for GlobalConfig {
    fn default() -> (r: GlobalConfig)
        ensures
            r@ == GlobalV::init(),
    {
        let r = GlobalConfig {
            maxconn: Some(4096),
            log: Some("stdout".to_owned()),
            user: None,
            group: None,
            daemon: Some(false),
            pidfile: None,
            ssl_default_bind_ciphers: Some("EECDH+AESGCM:EDH+AESGCM".to_owned()),
            ssl_default_bind_options: Some("no-sslv3".to_owned()),
            option: Vec::new(),
        };
        proof {
            assert(r@.option =~= Seq::<Seq<char>>::empty());
        }
        r
    }
}


impl Default for DefaultsConfig {
    fn default() -> (r: DefaultsConfig)
        ensures
            r@ == DefaultsV::init(),
    {
        let mut option: Vec<String> = Vec::new();
        option.push("dontlognull".to_owned());
        let r = DefaultsConfig {
            mode: Some("tcp".to_owned()),
            log: Some("global".to_owned()),
            option,
            timeout: Vec::new(),
            retries: Some(3),
            options: None,
        };
        proof {
            assert(r@.option =~= seq!["dontlognull"@]);
            assert(r@.timeout =~= Seq::<(Seq<char>, Seq<char>)>::empty());
        }
        r
    }
}

impl Default for MetricsConfig {
    fn default() -> (r: MetricsConfig)
        ensures
            r@ == MetricsV::init(),
    {
        MetricsConfig {
            enabled: true,
            bind: Some("0.0.0.0:9090".to_owned()),
            path: Some("/metrics".to_owned()),
        }
    }
}

impl Config {
    /// The backend names defined by this configuration, as character views.
    pub open spec fn spec_backend_names(self) -> Seq<Seq<char>> {
        self.backends@.map_values(|b: BackendConfig| b.name@)
    }

    /// Every `default_backend` and `use_backend` target names a defined
    /// backend, every backend has at least one server, backend names are
    /// unique, and server names are unique within each backend.
    pub open spec fn spec_valid(self) -> bool {
        &&& forall|i: int|
            0 <= i < self.frontends@.len() ==> (match #[trigger] self.frontends@[i].default_backend {
                Some(b) => self.spec_backend_names().contains(b@),
                None => true,
            })
        &&& forall|i: int, j: int|
            0 <= i < self.frontends@.len() && 0 <= j < self.frontends@[i].use_backend@.len()
                ==> self.spec_backend_names().contains(
                #[trigger] self.frontends@[i].use_backend@[j].backend@,
            )
        &&& forall|i: int| 0 <= i < self.backends@.len() ==> #[trigger] self.backends@[i].server@.len() > 0
        &&& forall|a: int, b: int|
            0 <= a < b < self.backends@.len() ==> (#[trigger] self.backends@[a]).name@
                != (#[trigger] self.backends@[b]).name@
        &&& forall|k: int|
            0 <= k < self.backends@.len() ==> spec_servers_unique(
                (#[trigger] self.backends@[k]).server@,
            )
    }

    /// Whether `name` is among the configured backends.
    fn has_backend(&self, name: &String) -> (r: bool)
        ensures
            r == self.spec_backend_names().contains(name@),
    {
        let mut i: usize = 0;
        while i < self.backends.len()
            invariant
                i <= self.backends@.len(),
                forall|k: int| 0 <= k < i ==> #[trigger] self.backends@[k].name@ != name@,
            decreases self.backends@.len() - i,
        {
            if scan::str_eq(self.backends[i].name.as_str(), name.as_str()) {
                proof {
                    assert(self.spec_backend_names()[i as int] == name@);
                }
                return true;
            }
            i += 1;
        }
        proof {
            if self.spec_backend_names().contains(name@) {
                let k = choose|k: int|
                    0 <= k < self.spec_backend_names().len() && self.spec_backend_names()[k]
                        == name@;
                assert(self.backends@[k].name@ == name@);
            }
        }
        false
    }

    /// Check a loaded configuration: succeeds exactly when every backend
    /// reference resolves, no backend is empty, backend names are unique,
    /// and server names are unique within each backend.
    pub fn validate(&self) -> (r: Result<(), ConfigError>)
        ensures
            r is Ok <==> self.spec_valid(),
            r matches Err(ConfigError::UnknownBackendRef { frontend, backend }) ==> !self.spec_backend_names().contains(backend@),
            r matches Err(ConfigError::BackendWithoutServers { backend }) ==> exists|i: int|
                0 <= i < self.backends@.len() && (#[trigger] self.backends@[i]).name@ == backend@
                    && self.backends@[i].server@.len() == 0,
            r matches Err(ConfigError::DuplicateBackendName { backend }) ==> exists|a: int, b: int|
                0 <= a < b < self.backends@.len() && (#[trigger] self.backends@[a]).name@
                    == (#[trigger] self.backends@[b]).name@ && self.backends@[b].name@ == backend@,
            r matches Err(ConfigError::DuplicateServerName { backend, server }) ==> exists|
                k: int,
                a: int,
                b: int,
            |
                0 <= k < self.backends@.len() && 0 <= a < b < (
                #[trigger] self.backends@[k]).server@.len() && (
                #[trigger] self.backends@[k].server@[a]).name@ == (
                #[trigger] self.backends@[k].server@[b]).name@,
    {
        let mut i: usize = 0;
        while i < self.frontends.len()
            invariant
                i <= self.frontends@.len(),
                forall|k: int|
                    0 <= k < i ==> (match (#[trigger] self.frontends@[k]).default_backend {
                        Some(b) => self.spec_backend_names().contains(b@),
                        None => true,
                    }),
                forall|k: int, j: int|
                    0 <= k < i && 0 <= j < self.frontends@[k].use_backend@.len()
                        ==> self.spec_backend_names().contains(
                        #[trigger] self.frontends@[k].use_backend@[j].backend@,
                    ),
            decreases self.frontends@.len() - i,
        {
            let fe = &self.frontends[i];
            match &fe.default_backend {
                Some(b) => {
                    if !self.has_backend(b) {
                        return Err(ConfigError::UnknownBackendRef {
                            frontend: clone_string(&fe.name),
                            backend: clone_string(b),
                        });
                    }
                },
                None => {},
            }
            let mut j: usize = 0;
            while j < fe.use_backend.len()
                invariant
                    j <= fe.use_backend@.len(),
                    fe == &self.frontends@[i as int],
                    i < self.frontends@.len(),
                    forall|l: int|
                        0 <= l < j ==> self.spec_backend_names().contains(
                            #[trigger] fe.use_backend@[l].backend@,
                        ),
                decreases fe.use_backend@.len() - j,
            {
                if !self.has_backend(&fe.use_backend[j].backend) {
                    return Err(ConfigError::UnknownBackendRef {
                        frontend: clone_string(&fe.name),
                        backend: clone_string(&fe.use_backend[j].backend),
                    });
                }
                j += 1;
            }
            i += 1;
        }
        let mut k: usize = 0;
        while k < self.backends.len()
            invariant
                k <= self.backends@.len(),
                forall|l: int| 0 <= l < k ==> #[trigger] self.backends@[l].server@.len() > 0,
            decreases self.backends@.len() - k,
        {
            if self.backends[k].server.len() == 0 {
                return Err(ConfigError::BackendWithoutServers {
                    backend: clone_string(&self.backends[k].name),
                });
            }
            k += 1;
        }
        match find_dup_backend(&self.backends) {
            Some(b) => {
                proof {
                    let a = choose|a: int|
                        0 <= a < b && (#[trigger] self.backends@[a]).name@ == self.backends@[
                            b as int
                        ].name@;
                    assert(!self.spec_valid());
                }
                return Err(ConfigError::DuplicateBackendName {
                    backend: clone_string(&self.backends[b].name),
                });
            },
            None => {},
        }
        let mut m: usize = 0;
        while m < self.backends.len()
            invariant
                m <= self.backends@.len(),
                forall|l: int|
                    0 <= l < m ==> spec_servers_unique((#[trigger] self.backends@[l]).server@),
            decreases self.backends@.len() - m,
        {
            match find_dup_server(&self.backends[m].server) {
                Some(b) => {
                    proof {
                        let a = choose|a: int|
                            0 <= a < b && (#[trigger] self.backends@[m as int].server@[a]).name@
                                == self.backends@[m as int].server@[b as int].name@;
                        assert(!spec_servers_unique(self.backends@[m as int].server@));
                        assert(!self.spec_valid());
                    }
                    return Err(ConfigError::DuplicateServerName {
                        backend: clone_string(&self.backends[m].name),
                        server: clone_string(&self.backends[m].server[b].name),
                    });
                },
                None => {},
            }
            m += 1;
        }
        Ok(())
    }
}


/// The character content of an optional string field.
pub open spec fn opt_view(o: Option<String>) -> Option<Seq<char>> {
    match o {
        Some(s) => Some(s@),
        None => None,
    }
}

/// The character content of a list of strings.
pub open spec fn strs_view(v: Seq<String>) -> Seq<Seq<char>> {
    v.map_values(|s: String| s@)
}

/// The character content of a timeout table.
pub open spec fn pairs_view(v: Seq<(String, String)>) -> Seq<(Seq<char>, Seq<char>)> {
    v.map_values(|p: (String, String)| (p.0@, p.1@))
}

pub ghost struct GlobalV {
    pub maxconn: Option<u32>,
    pub log: Option<Seq<char>>,
    pub user: Option<Seq<char>>,
    pub group: Option<Seq<char>>,
    pub daemon: Option<bool>,
    pub pidfile: Option<Seq<char>>,
    pub ssl_default_bind_ciphers: Option<Seq<char>>,
    pub ssl_default_bind_options: Option<Seq<char>>,
    pub option: Seq<Seq<char>>,
}

impl View for GlobalConfig {
    type V = GlobalV;

    open spec fn view(&self) -> GlobalV {
        GlobalV {
            maxconn: self.maxconn,
            log: opt_view(self.log),
            user: opt_view(self.user),
            group: opt_view(self.group),
            daemon: self.daemon,
            pidfile: opt_view(self.pidfile),
            ssl_default_bind_ciphers: opt_view(self.ssl_default_bind_ciphers),
            ssl_default_bind_options: opt_view(self.ssl_default_bind_options),
            option: strs_view(self.option@),
        }
    }
}

pub ghost struct DefaultsV {
    pub mode: Option<Seq<char>>,
    pub log: Option<Seq<char>>,
    pub option: Seq<Seq<char>>,
    pub timeout: Seq<(Seq<char>, Seq<char>)>,
    pub retries: Option<u32>,
    pub options: Option<OptionsV>,
}

impl View for DefaultsConfig {
    type V = DefaultsV;

    open spec fn view(&self) -> DefaultsV {
        DefaultsV {
            mode: opt_view(self.mode),
            log: opt_view(self.log),
            option: strs_view(self.option@),
            timeout: pairs_view(self.timeout@),
            retries: self.retries,
            options: match self.options {
                Some(o) => Some(o@),
                None => None,
            },
        }
    }
}

pub ghost struct ServerV {
    pub name: Seq<char>,
    pub address: Seq<char>,
    pub port: u16,
    pub weight: Option<u32>,
    pub maxconn: Option<u32>,
    pub check: Option<bool>,
    pub inter: Option<Seq<char>>,
    pub rise: Option<u32>,
    pub fall: Option<u32>,
    pub backup: Option<bool>,
    pub disabled: Option<bool>,
}

impl View for ServerConfig {
    type V = ServerV;

    open spec fn view(&self) -> ServerV {
        ServerV {
            name: self.name@,
            address: self.address@,
            port: self.port,
            weight: self.weight,
            maxconn: self.maxconn,
            check: self.check,
            inter: opt_view(self.inter),
            rise: self.rise,
            fall: self.fall,
            backup: self.backup,
            disabled: self.disabled,
        }
    }
}

pub ghost struct AclV {
    pub name: Seq<char>,
    pub criterion: Seq<char>,
}

impl View for AclConfig {
    type V = AclV;

    open spec fn view(&self) -> AclV {
        AclV { name: self.name@, criterion: self.criterion@ }
    }
}

pub ghost struct UseBackendV {
    pub backend: Seq<char>,
    pub condition: Option<Seq<char>>,
}

impl View for UseBackendConfig {
    type V = UseBackendV;

    open spec fn view(&self) -> UseBackendV {
        UseBackendV { backend: self.backend@, condition: opt_view(self.condition) }
    }
}

pub ghost struct HealthCheckV {
    pub interval: Seq<char>,
    pub timeout: Seq<char>,
    pub rise: u32,
    pub fall: u32,
}

impl View for HealthCheckConfig {
    type V = HealthCheckV;

    open spec fn view(&self) -> HealthCheckV {
        HealthCheckV {
            interval: self.interval@,
            timeout: self.timeout@,
            rise: self.rise,
            fall: self.fall,
        }
    }
}

pub ghost struct FrontendV {
    pub name: Seq<char>,
    pub bind: Seq<Seq<char>>,
    pub mode: Option<Seq<char>>,
    pub default_backend: Option<Seq<char>>,
    pub acl: Seq<AclV>,
    pub use_backend: Seq<UseBackendV>,
    pub option: Seq<Seq<char>>,
    pub timeout: Seq<(Seq<char>, Seq<char>)>,
    pub options: Option<OptionsV>,
}

impl View for FrontendConfig {
    type V = FrontendV;

    open spec fn view(&self) -> FrontendV {
        FrontendV {
            name: self.name@,
            bind: strs_view(self.bind@),
            mode: opt_view(self.mode),
            default_backend: opt_view(self.default_backend),
            acl: self.acl@.map_values(|a: AclConfig| a@),
            use_backend: self.use_backend@.map_values(|u: UseBackendConfig| u@),
            option: strs_view(self.option@),
            timeout: pairs_view(self.timeout@),
            options: match self.options {
                Some(o) => Some(o@),
                None => None,
            },
        }
    }
}

pub ghost struct BackendV {
    pub name: Seq<char>,
    pub mode: Option<Seq<char>>,
    pub balance: Option<Seq<char>>,
    pub server: Seq<ServerV>,
    pub option: Seq<Seq<char>>,
    pub timeout: Seq<(Seq<char>, Seq<char>)>,
    pub health_check: Option<HealthCheckV>,
    pub options: Option<OptionsV>,
    pub retries: Option<u32>,
}

impl View for BackendConfig {
    type V = BackendV;

    open spec fn view(&self) -> BackendV {
        BackendV {
            name: self.name@,
            mode: opt_view(self.mode),
            balance: opt_view(self.balance),
            server: self.server@.map_values(|s: ServerConfig| s@),
            option: strs_view(self.option@),
            timeout: pairs_view(self.timeout@),
            health_check: match self.health_check {
                Some(h) => Some(h@),
                None => None,
            },
            options: match self.options {
                Some(o) => Some(o@),
                None => None,
            },
            retries: self.retries,
        }
    }
}

pub ghost struct MetricsV {
    pub enabled: bool,
    pub bind: Option<Seq<char>>,
    pub path: Option<Seq<char>>,
}

impl View for MetricsConfig {
    type V = MetricsV;

    open spec fn view(&self) -> MetricsV {
        MetricsV { enabled: self.enabled, bind: opt_view(self.bind), path: opt_view(self.path) }
    }
}

pub ghost struct RateLimitV {
    pub requests_per_second: u32,
    pub burst_size: u32,
    pub window_size: u64,
}

impl View for RateLimitConfig {
    type V = RateLimitV;

    open spec fn view(&self) -> RateLimitV {
        RateLimitV {
            requests_per_second: self.requests_per_second,
            burst_size: self.burst_size,
            window_size: self.window_size,
        }
    }
}

pub ghost struct DdosProtectionV {
    pub reset_interval_seconds: u64,
    pub max_requests_per_minute: Option<u32>,
    pub max_connections_per_ip: Option<u32>,
    pub suspicious_patterns: Seq<Seq<char>>,
    pub whitelist: Seq<Seq<char>>,
    pub blacklist: Seq<Seq<char>>,
}

impl View for DdosProtectionConfig {
    type V = DdosProtectionV;

    open spec fn view(&self) -> DdosProtectionV {
        DdosProtectionV {
            reset_interval_seconds: self.reset_interval_seconds,
            max_requests_per_minute: self.max_requests_per_minute,
            max_connections_per_ip: self.max_connections_per_ip,
            suspicious_patterns: strs_view(self.suspicious_patterns@),
            whitelist: strs_view(self.whitelist@),
            blacklist: strs_view(self.blacklist@),
        }
    }
}

pub ghost struct HotReloadV {
    pub enabled: bool,
    pub watch_interval: u64,
}

impl View for HotReloadConfig {
    type V = HotReloadV;

    open spec fn view(&self) -> HotReloadV {
        HotReloadV { enabled: self.enabled, watch_interval: self.watch_interval }
    }
}

pub ghost struct CompressionV {
    pub gzip_enabled: bool,
    pub brotli_enabled: bool,
    pub deflate_enabled: bool,
    pub min_size: usize,
    pub max_size: usize,
    pub compression_level: u32,
    pub content_types: Seq<Seq<char>>,
}

impl View for CompressionConfig {
    type V = CompressionV;

    open spec fn view(&self) -> CompressionV {
        CompressionV {
            gzip_enabled: self.gzip_enabled,
            brotli_enabled: self.brotli_enabled,
            deflate_enabled: self.deflate_enabled,
            min_size: self.min_size,
            max_size: self.max_size,
            compression_level: self.compression_level,
            content_types: strs_view(self.content_types@),
        }
    }
}

pub ghost struct ConfigV {
    pub global: GlobalV,
    pub defaults: DefaultsV,
    pub frontends: Seq<FrontendV>,
    pub backends: Seq<BackendV>,
    pub metrics: MetricsV,
    pub rate_limit: Option<RateLimitV>,
    pub ddos_protection: Option<DdosProtectionV>,
    pub hot_reload: Option<HotReloadV>,
    pub compression: Option<CompressionV>,
}

impl View for Config {
    type V = ConfigV;

    open spec fn view(&self) -> ConfigV {
        ConfigV {
            global: self.global@,
            defaults: self.defaults@,
            frontends: self.frontends@.map_values(|f: FrontendConfig| f@),
            backends: self.backends@.map_values(|b: BackendConfig| b@),
            metrics: self.metrics@,
            rate_limit: match self.rate_limit {
                Some(r) => Some(r@),
                None => None,
            },
            ddos_protection: match self.ddos_protection {
                Some(d) => Some(d@),
                None => None,
            },
            hot_reload: match self.hot_reload {
                Some(h) => Some(h@),
                None => None,
            },
            compression: match self.compression {
                Some(c) => Some(c@),
                None => None,
            },
        }
    }
}


/// All tokens of a line are ASCII and non-empty, as the tokenizer of an
/// ASCII text produces them.
pub open spec fn toks_wf(tokens: Seq<Seq<u8>>) -> bool {
    forall|k: int|
        0 <= k < tokens.len() ==> scan::all_ascii(#[trigger] tokens[k]) && tokens[k].len() > 0
}

/// One option-list entry: a marker keyword followed by an argument.
pub open spec fn entry2(prefix: Seq<char>, arg: Seq<u8>) -> Seq<char> {
    prefix + " "@ + scan::ascii_view(arg)
}

/// Build an option-list entry.
fn make_entry(prefix: &str, arg: &[u8]) -> (r: String)
    requires
        scan::all_ascii(arg@),
    ensures
        r@ == entry2(prefix@, arg@),
{
    let mut s = prefix.to_owned();
    s.append(" ");
    let t = scan::tok_to_string(arg);
    s.append(t.as_str());
    proof {
        assert(s@ =~= prefix@ + " "@ + scan::ascii_view(arg@));
    }
    s
}

/// The argument tokens of a directive line, joined back to one value text.
fn join_rest(tokens: &Vec<Vec<u8>>, from: usize) -> (r: Vec<u8>)
    requires
        from <= tokens@.len(),
    ensures
        r@ == scan::spec_join(tokens.deep_view().skip(from as int)),
{
    let rest = vstd::slice::slice_subrange(tokens.as_slice(), from, tokens.len());
    proof {
        assert(rest.deep_view() =~= tokens.deep_view().skip(from as int));
    }
    scan::join_ws(rest)
}

/// The non-empty comma-separated pieces of a token, as a list-valued
/// directive argument is read.
pub open spec fn nonempty_pieces(ss: Seq<Seq<u8>>) -> Seq<Seq<u8>> {
    ss.filter(|p: Seq<u8>| p.len() > 0)
}

pub open spec fn comma_pieces(tok: Seq<u8>) -> Seq<Seq<u8>> {
    nonempty_pieces(scan::spec_split(tok, 44))
}

/// Split a token at commas and drop empty pieces.
fn split_commas(tok: &[u8]) -> (r: Vec<Vec<u8>>)
    ensures
        r.deep_view() == comma_pieces(tok@),
{
    let pieces = scan::split_on(tok, 44);
    let mut r: Vec<Vec<u8>> = Vec::new();
    let mut i: usize = 0;
    proof {
        reveal(Seq::filter);
        assert(pieces.deep_view().take(0) =~= Seq::<Seq<u8>>::empty());
        assert(r.deep_view() =~= Seq::<Seq<u8>>::empty().filter(|p: Seq<u8>| p.len() > 0));
    }
    while i < pieces.len()
        invariant
            i <= pieces@.len(),
            r.deep_view() == pieces.deep_view().take(i as int).filter(|p: Seq<u8>| p.len() > 0),
        decreases pieces@.len() - i,
    {
        let ghost old_r = r.deep_view();
        let ghost pv = pieces.deep_view()[i as int];
        proof {
            assert(pieces.deep_view().take(i + 1).drop_last() =~= pieces.deep_view().take(i as int));
            assert(pieces.deep_view().take(i + 1).last() == pv);
        }
        if pieces[i].len() > 0 {
            let p = vstd::slice::slice_to_vec(pieces[i].as_slice());
            proof {
                assert(p@ == pv);
            }
            r.push(p);
            proof {
                assert(r.deep_view() =~~= old_r + seq![pv]);
            }
        }
        proof {
            reveal(Seq::filter);
            let pred = |p: Seq<u8>| p.len() > 0;
            if pv.len() > 0 {
                assert(pieces.deep_view().take(i + 1).filter(pred) =~= pieces.deep_view().take(
                    i as int,
                ).filter(pred) + seq![pv]);
            } else {
                assert(pieces.deep_view().take(i + 1).filter(pred) =~= pieces.deep_view().take(
                    i as int,
                ).filter(pred));
            }
            assert(r.deep_view() == pieces.deep_view().take(i + 1).filter(pred));
        }
        i += 1;
    }
    proof {
        assert(pieces.deep_view().take(i as int) =~= pieces.deep_view());
    }
    r
}

/// Filtering a list of ASCII pieces keeps every piece ASCII.
proof fn lemma_filter_keeps_ascii(ss: Seq<Seq<u8>>)
    requires
        forall|k: int| 0 <= k < ss.len() ==> scan::all_ascii(#[trigger] ss[k]),
    ensures
        forall|k: int|
            0 <= k < nonempty_pieces(ss).len() ==> scan::all_ascii(
                #[trigger] nonempty_pieces(ss)[k],
            ),
    decreases ss.len(),
{
    reveal(Seq::filter);
    let pred = |p: Seq<u8>| p.len() > 0;
    if ss.len() > 0 {
        assert forall|k: int| 0 <= k < ss.drop_last().len() implies scan::all_ascii(
            #[trigger] ss.drop_last()[k],
        ) by {
            assert(ss.drop_last()[k] == ss[k]);
        }
        lemma_filter_keeps_ascii(ss.drop_last());
        assert forall|k: int| 0 <= k < nonempty_pieces(ss).len() implies scan::all_ascii(
            #[trigger] nonempty_pieces(ss)[k],
        ) by {
            if k < ss.drop_last().filter(pred).len() {
                assert(nonempty_pieces(ss)[k] == nonempty_pieces(ss.drop_last())[k]);
            } else {
                assert(ss.filter(pred)[k] == ss.last());
            }
        }
    }
}

/// How one `global` directive changes the global section; `None` is a
/// configuration error (a bad `maxconn` number or `daemon` flag).
#[verifier::opaque]
pub open spec fn spec_apply_global(g: GlobalV, tokens: Seq<Seq<u8>>) -> Option<GlobalV>
    recommends
        tokens.len() >= 2,
{
    let key = tokens[0];
    let rest = tokens.skip(1);
    let value = scan::spec_join(rest);
    if key == "maxconn".spec_bytes() {
        if scan::is_number(value) && scan::digits_val(value) <= u32::MAX {
            Some(GlobalV { maxconn: Some(scan::digits_val(value) as u32), ..g })
        } else {
            None
        }
    } else if key == "log".spec_bytes() {
        Some(GlobalV { log: Some(scan::ascii_view(value)), ..g })
    } else if key == "user".spec_bytes() {
        Some(GlobalV { user: Some(scan::ascii_view(value)), ..g })
    } else if key == "group".spec_bytes() {
        Some(GlobalV { group: Some(scan::ascii_view(value)), ..g })
    } else if key == "daemon".spec_bytes() {
        if value == "on".spec_bytes() || value == "true".spec_bytes() || value
            == "yes".spec_bytes() {
            Some(GlobalV { daemon: Some(true), ..g })
        } else if value == "off".spec_bytes() || value == "false".spec_bytes() || value
            == "no".spec_bytes() {
            Some(GlobalV { daemon: Some(false), ..g })
        } else {
            None
        }
    } else if key == "pidfile".spec_bytes() {
        Some(GlobalV { pidfile: Some(scan::ascii_view(value)), ..g })
    } else if key == "ssl-default-bind-ciphers".spec_bytes() {
        Some(GlobalV { ssl_default_bind_ciphers: Some(scan::ascii_view(value)), ..g })
    } else if key == "ssl-default-bind-options".spec_bytes() {
        Some(GlobalV { ssl_default_bind_options: Some(scan::ascii_view(value)), ..g })
    } else if key == "stats".spec_bytes() {
        Some(g)
    } else if key == "rate-limit".spec_bytes() {
        if rest.len() >= 2 && rest[0] == "requests-per-second".spec_bytes() && scan::is_number(
            rest[1],
        ) && scan::digits_val(rest[1]) <= u32::MAX {
            Some(GlobalV { option: g.option.push(entry2("rate-limit-rps"@, rest[1])), ..g })
        } else if rest.len() >= 2 && rest[0] == "burst-size".spec_bytes() && scan::is_number(
            rest[1],
        ) && scan::digits_val(rest[1]) <= u32::MAX {
            Some(GlobalV { option: g.option.push(entry2("rate-limit-burst"@, rest[1])), ..g })
        } else {
            Some(g)
        }
    } else if key == "ddos-protection".spec_bytes() {
        if rest.len() < 2 {
            Some(g)
        } else if rest[0] == "max-requests-per-minute".spec_bytes() {
            if scan::is_number(rest[1]) && scan::digits_val(rest[1]) <= u32::MAX {
                Some(
                    GlobalV {
                        option: g.option.push(
                            entry2("ddos-protection max-requests-per-minute"@, rest[1]),
                        ),
                        ..g
                    },
                )
            } else {
                Some(g)
            }
        } else if rest[0] == "max-connections-per-ip".spec_bytes() {
            if scan::is_number(rest[1]) && scan::digits_val(rest[1]) <= u32::MAX {
                Some(
                    GlobalV {
                        option: g.option.push(
                            entry2("ddos-protection max-connections-per-ip"@, rest[1]),
                        ),
                        ..g
                    },
                )
            } else {
                Some(g)
            }
        } else if rest[0] == "reset-interval-seconds".spec_bytes() {
            if scan::is_number(rest[1]) && scan::digits_val(rest[1]) <= u64::MAX {
                Some(
                    GlobalV {
                        option: g.option.push(
                            entry2("ddos-protection reset-interval-seconds"@, rest[1]),
                        ),
                        ..g
                    },
                )
            } else {
                Some(g)
            }
        } else if rest[0] == "suspicious-pattern".spec_bytes() {
            Some(
                GlobalV {
                    option: g.option + comma_pieces(rest[1]).map_values(
                        |p: Seq<u8>| entry2("ddos-protection suspicious-pattern"@, p),
                    ),
                    ..g
                },
            )
        } else if rest[0] == "whitelist".spec_bytes() {
            Some(
                GlobalV {
                    option: g.option + comma_pieces(rest[1]).map_values(
                        |p: Seq<u8>| entry2("ddos-protection whitelist"@, p),
                    ),
                    ..g
                },
            )
        } else if rest[0] == "blacklist".spec_bytes() {
            Some(
                GlobalV {
                    option: g.option + comma_pieces(rest[1]).map_values(
                        |p: Seq<u8>| entry2("ddos-protection blacklist"@, p),
                    ),
                    ..g
                },
            )
        } else {
            Some(g)
        }
    } else if key == "compression-gzip".spec_bytes() {
        Some(GlobalV { option: g.option.push(entry2("compression-gzip"@, value)), ..g })
    } else if key == "compression-brotli".spec_bytes() {
        Some(GlobalV { option: g.option.push(entry2("compression-brotli"@, value)), ..g })
    } else if key == "compression-deflate".spec_bytes() {
        Some(GlobalV { option: g.option.push(entry2("compression-deflate"@, value)), ..g })
    } else if key == "compression-min-size".spec_bytes() {
        if scan::is_number(value) && scan::digits_val(value) <= usize::MAX {
            Some(GlobalV { option: g.option.push(entry2("compression-min-size"@, value)), ..g })
        } else {
            Some(g)
        }
    } else if key == "compression-max-size".spec_bytes() {
        if scan::is_number(value) && scan::digits_val(value) <= usize::MAX {
            Some(GlobalV { option: g.option.push(entry2("compression-max-size"@, value)), ..g })
        } else {
            Some(g)
        }
    } else if key == "compression-level".spec_bytes() {
        if scan::is_number(value) && scan::digits_val(value) <= u32::MAX {
            Some(GlobalV { option: g.option.push(entry2("compression-level"@, value)), ..g })
        } else {
            Some(g)
        }
    } else {
        Some(g)
    }
}

/// Apply one directive of the `global` section.
pub fn parse_global_directive(global: &mut GlobalConfig, tokens: &Vec<Vec<u8>>) -> (r: Result<
    (),
    ConfigError,
>)
    requires
        tokens.deep_view().len() >= 2,
        toks_wf(tokens.deep_view()),
    ensures
        match spec_apply_global(old(global)@, tokens.deep_view()) {
            Some(gv) => r is Ok && final(global)@ == gv,
            None => r is Err && *final(global) == *old(global),
        },
{
    proof {
        reveal(spec_apply_global);
    }
    let ghost toks = tokens.deep_view();
    let key = &tokens[0];
    proof {
        assert(key@ == toks[0]);
    }
    let value = join_rest(tokens, 1);
    proof {
        assert forall|k: int| 0 <= k < toks.skip(1).len() implies scan::all_ascii(
            #[trigger] toks.skip(1)[k],
        ) by {
            assert(toks.skip(1)[k] == toks[k + 1]);
        }
        scan::lemma_join_ascii(toks.skip(1));
    }
    if scan::is_lit(key.as_slice(), "maxconn") {
        match scan::parse_u32(value.as_slice()) {
            Some(n) => {
                global.maxconn = Some(n);
                Ok(())
            },
            None => Err(ConfigError::InvalidNumber),
        }
    } else if scan::is_lit(key.as_slice(), "log") {
        global.log = Some(scan::tok_to_string(value.as_slice()));
        Ok(())
    } else if scan::is_lit(key.as_slice(), "user") {
        global.user = Some(scan::tok_to_string(value.as_slice()));
        Ok(())
    } else if scan::is_lit(key.as_slice(), "group") {
        global.group = Some(scan::tok_to_string(value.as_slice()));
        Ok(())
    } else if scan::is_lit(key.as_slice(), "daemon") {
        if scan::is_lit(value.as_slice(), "on") || scan::is_lit(value.as_slice(), "true")
            || scan::is_lit(value.as_slice(), "yes") {
            global.daemon = Some(true);
            Ok(())
        } else if scan::is_lit(value.as_slice(), "off") || scan::is_lit(value.as_slice(), "false")
            || scan::is_lit(value.as_slice(), "no") {
            global.daemon = Some(false);
            Ok(())
        } else {
            Err(ConfigError::InvalidDirective)
        }
    } else if scan::is_lit(key.as_slice(), "pidfile") {
        global.pidfile = Some(scan::tok_to_string(value.as_slice()));
        Ok(())
    } else if scan::is_lit(key.as_slice(), "ssl-default-bind-ciphers") {
        global.ssl_default_bind_ciphers = Some(scan::tok_to_string(value.as_slice()));
        Ok(())
    } else if scan::is_lit(key.as_slice(), "ssl-default-bind-options") {
        global.ssl_default_bind_options = Some(scan::tok_to_string(value.as_slice()));
        Ok(())
    } else if scan::is_lit(key.as_slice(), "stats") {
        Ok(())
    } else if scan::is_lit(key.as_slice(), "rate-limit") {
        if tokens.len() >= 3 {
            let r0 = &tokens[1];
            let r1 = &tokens[2];
            proof {
                assert(r0@ == toks.skip(1)[0]);
                assert(r1@ == toks.skip(1)[1]);
            }
            if scan::is_lit(r0.as_slice(), "requests-per-second") {
                match scan::parse_u32(r1.as_slice()) {
                    Some(_) => {
                        push_entry(&mut global.option, make_entry("rate-limit-rps", r1.as_slice()));
                    },
                    None => {},
                }
            } else if scan::is_lit(r0.as_slice(), "burst-size") {
                match scan::parse_u32(r1.as_slice()) {
                    Some(_) => {
                        push_entry(&mut global.option, make_entry("rate-limit-burst", r1.as_slice()));
                    },
                    None => {},
                }
            }
        }
        proof {
            assert(global@.option =~= spec_apply_global(old(global)@, toks)->Some_0.option);
        }
        Ok(())
    } else if scan::is_lit(key.as_slice(), "ddos-protection") {
        if tokens.len() >= 3 {
            let r0 = &tokens[1];
            let r1 = &tokens[2];
            proof {
                assert(r0@ == toks.skip(1)[0]);
                assert(r1@ == toks.skip(1)[1]);
            }
            if scan::is_lit(r0.as_slice(), "max-requests-per-minute") {
                match scan::parse_u32(r1.as_slice()) {
                    Some(_) => {
                        push_entry(
                            &mut global.option,
                            make_entry("ddos-protection max-requests-per-minute", r1.as_slice()),
                        );
                    },
                    None => {},
                }
            } else if scan::is_lit(r0.as_slice(), "max-connections-per-ip") {
                match scan::parse_u32(r1.as_slice()) {
                    Some(_) => {
                        push_entry(
                            &mut global.option,
                            make_entry("ddos-protection max-connections-per-ip", r1.as_slice()),
                        );
                    },
                    None => {},
                }
            } else if scan::is_lit(r0.as_slice(), "reset-interval-seconds") {
                match scan::parse_u64(r1.as_slice()) {
                    Some(_) => {
                        push_entry(
                            &mut global.option,
                            make_entry("ddos-protection reset-interval-seconds", r1.as_slice()),
                        );
                    },
                    None => {},
                }
            } else if scan::is_lit(r0.as_slice(), "suspicious-pattern") {
                push_comma_entries(
                    &mut global.option,
                    "ddos-protection suspicious-pattern",
                    r1.as_slice(),
                );
            } else if scan::is_lit(r0.as_slice(), "whitelist") {
                push_comma_entries(&mut global.option, "ddos-protection whitelist", r1.as_slice());
            } else if scan::is_lit(r0.as_slice(), "blacklist") {
                push_comma_entries(&mut global.option, "ddos-protection blacklist", r1.as_slice());
            }
        }
        proof {
            assert(global@.option =~= spec_apply_global(old(global)@, toks)->Some_0.option);
        }
        Ok(())
    } else if scan::is_lit(key.as_slice(), "compression-gzip") {
        push_entry(&mut global.option, make_entry("compression-gzip", value.as_slice()));
        Ok(())
    } else if scan::is_lit(key.as_slice(), "compression-brotli") {
        push_entry(&mut global.option, make_entry("compression-brotli", value.as_slice()));
        Ok(())
    } else if scan::is_lit(key.as_slice(), "compression-deflate") {
        push_entry(&mut global.option, make_entry("compression-deflate", value.as_slice()));
        Ok(())
    } else if scan::is_lit(key.as_slice(), "compression-min-size") {
        match scan::parse_u64(value.as_slice()) {
            Some(n) => if n <= usize::MAX as u64 {
                push_entry(&mut global.option, make_entry("compression-min-size", value.as_slice()));
            },
            None => {},
        }
        Ok(())
    } else if scan::is_lit(key.as_slice(), "compression-max-size") {
        match scan::parse_u64(value.as_slice()) {
            Some(n) => if n <= usize::MAX as u64 {
                push_entry(&mut global.option, make_entry("compression-max-size", value.as_slice()));
            },
            None => {},
        }
        Ok(())
    } else if scan::is_lit(key.as_slice(), "compression-level") {
        match scan::parse_u32(value.as_slice()) {
            Some(_) => {
                push_entry(&mut global.option, make_entry("compression-level", value.as_slice()));
            },
            None => {},
        }
        Ok(())
    } else {
        Ok(())
    }
}

/// Append one entry to an option list.
fn push_entry(option: &mut Vec<String>, entry: String)
    ensures
        strs_view(final(option)@) == strs_view(old(option)@).push(entry@),
{
    option.push(entry);
    proof {
        assert(strs_view(option@) =~= strs_view(old(option)@).push(entry@));
    }
}

/// Append one option-list entry.
/// Append one entry per comma-separated piece of a list-valued argument.
fn push_comma_entries(option: &mut Vec<String>, prefix: &str, arg: &[u8])
    requires
        scan::all_ascii(arg@),
    ensures
        strs_view(final(option)@) == strs_view(old(option)@) + comma_pieces(arg@).map_values(
            |p: Seq<u8>| entry2(prefix@, p),
        ),
{
    let pieces = split_commas(arg);
    let mut i: usize = 0;
    proof {
        assert(strs_view(option@) =~= strs_view(option@) + comma_pieces(arg@).map_values(
            |p: Seq<u8>| entry2(prefix@, p),
        ).take(0));
    }
    while i < pieces.len()
        invariant
            i <= pieces@.len(),
            pieces.deep_view() == comma_pieces(arg@),
            scan::all_ascii(arg@),
            strs_view(option@) == strs_view(old(option)@) + comma_pieces(arg@).map_values(
                |p: Seq<u8>| entry2(prefix@, p),
            ).take(i as int),
        decreases pieces@.len() - i,
    {
        let p = &pieces[i];
        proof {
            assert(p@ == comma_pieces(arg@)[i as int]);
            lemma_comma_pieces_ascii(arg@, i as int);
        }
        let entry = make_entry(prefix, p.as_slice());
        let ghost old_opts = strs_view(option@);
        option.push(entry);
        proof {
            let f = |p: Seq<u8>| entry2(prefix@, p);
            assert(strs_view(option@) =~= old_opts + seq![entry2(prefix@, p@)]);
            assert(comma_pieces(arg@).map_values(f).take(i + 1) =~= comma_pieces(arg@).map_values(
                f,
            ).take(i as int) + seq![entry2(prefix@, p@)]);
            assert(strs_view(option@) =~= strs_view(old(option)@) + comma_pieces(arg@).map_values(
                f,
            ).take(i + 1));
        }
        i += 1;
    }
    proof {
        let f = |p: Seq<u8>| entry2(prefix@, p);
        assert(comma_pieces(arg@).map_values(f).take(i as int) =~= comma_pieces(arg@).map_values(
            f,
        ));
    }
}

/// Every comma piece of an ASCII token is ASCII.
proof fn lemma_comma_pieces_ascii(s: Seq<u8>, i: int)
    requires
        scan::all_ascii(s),
        0 <= i < comma_pieces(s).len(),
    ensures
        scan::all_ascii(comma_pieces(s)[i]),
{
    lemma_split_pieces_ascii(s, 44);
    lemma_filter_keeps_ascii(scan::spec_split(s, 44));
}

/// Every piece of a split of an ASCII text is ASCII.
proof fn lemma_split_pieces_ascii(s: Seq<u8>, sep: u8)
    requires
        scan::all_ascii(s),
    ensures
        forall|k: int|
            0 <= k < scan::spec_split(s, sep).len() ==> scan::all_ascii(
                #[trigger] scan::spec_split(s, sep)[k],
            ),
    decreases s.len(),
{
    if s.len() == 0 {
    } else if scan::piece_len(s, sep) == s.len() {
    } else {
        let p = scan::piece_len(s, sep);
        scan::lemma_piece_len_bounds(s, sep);
        let rest = s.skip(p + 1);
        assert forall|i: int| 0 <= i < rest.len() implies rest[i] < 128 by {
            assert(rest[i] == s[p + 1 + i]);
        }
        lemma_split_pieces_ascii(rest, sep);
        assert forall|k: int|
            0 <= k < scan::spec_split(s, sep).len() implies scan::all_ascii(
            #[trigger] scan::spec_split(s, sep)[k],
        ) by {
            if k == 0 {
                let t = s.take(p);
                assert forall|i: int| 0 <= i < t.len() implies t[i] < 128 by {
                    assert(t[i] == s[i]);
                }
            } else {
                assert(scan::spec_split(s, sep)[k] == scan::spec_split(rest, sep)[k - 1]);
            }
        }
    }
}


/// Append one timeout pair.
fn push_pair(timeout: &mut Vec<(String, String)>, a: String, b: String)
    ensures
        pairs_view(final(timeout)@) == pairs_view(old(timeout)@).push((a@, b@)),
{
    timeout.push((a, b));
    proof {
        assert(pairs_view(timeout@) =~= pairs_view(old(timeout)@).push((timeout@.last().0@, timeout@.last().1@)));
    }
}

/// How one `defaults` directive changes the defaults section; `None` is a
/// configuration error (a bad `retries` number).
#[verifier::opaque]
pub open spec fn spec_apply_defaults(d: DefaultsV, tokens: Seq<Seq<u8>>) -> Option<DefaultsV>
    recommends
        tokens.len() >= 2,
{
    let key = tokens[0];
    let rest = tokens.skip(1);
    let value = scan::spec_join(rest);
    if key == "mode".spec_bytes() {
        Some(DefaultsV { mode: Some(scan::ascii_view(value)), ..d })
    } else if key == "log".spec_bytes() {
        Some(DefaultsV { log: Some(scan::ascii_view(value)), ..d })
    } else if key == "option".spec_bytes() {
        Some(DefaultsV { option: d.option.push(scan::ascii_view(value)), ..d })
    } else if key == "timeout".spec_bytes() {
        if rest.len() >= 2 {
            Some(
                DefaultsV {
                    timeout: d.timeout.push((scan::ascii_view(rest[0]), scan::ascii_view(rest[1]))),
                    ..d
                },
            )
        } else {
            Some(d)
        }
    } else if key == "retries".spec_bytes() {
        if scan::is_number(value) && scan::digits_val(value) <= u32::MAX {
            Some(DefaultsV { retries: Some(scan::digits_val(value) as u32), ..d })
        } else {
            None
        }
    } else if key == "rate-limit".spec_bytes() {
        if rest.len() >= 2 && rest[0] == "requests-per-second".spec_bytes() && scan::is_number(
            rest[1],
        ) && scan::digits_val(rest[1]) <= u32::MAX {
            Some(DefaultsV { option: d.option.push(entry2("rate-limit-rps"@, rest[1])), ..d })
        } else if rest.len() >= 2 && rest[0] == "burst-size".spec_bytes() && scan::is_number(
            rest[1],
        ) && scan::digits_val(rest[1]) <= u32::MAX {
            Some(DefaultsV { option: d.option.push(entry2("rate-limit-burst"@, rest[1])), ..d })
        } else {
            Some(d)
        }
    } else if key == "ddos-protection".spec_bytes() {
        if rest.len() < 2 {
            Some(d)
        } else if rest[0] == "max-requests-per-minute".spec_bytes() {
            if scan::is_number(rest[1]) && scan::digits_val(rest[1]) <= u32::MAX {
                Some(
                    DefaultsV {
                        option: d.option.push(
                            entry2("ddos-protection max-requests-per-minute"@, rest[1]),
                        ),
                        ..d
                    },
                )
            } else {
                Some(d)
            }
        } else if rest[0] == "max-connections-per-ip".spec_bytes() {
            if scan::is_number(rest[1]) && scan::digits_val(rest[1]) <= u32::MAX {
                Some(
                    DefaultsV {
                        option: d.option.push(
                            entry2("ddos-protection max-connections-per-ip"@, rest[1]),
                        ),
                        ..d
                    },
                )
            } else {
                Some(d)
            }
        } else if rest[0] == "reset-interval-seconds".spec_bytes() {
            if scan::is_number(rest[1]) && scan::digits_val(rest[1]) <= u64::MAX {
                Some(
                    DefaultsV {
                        option: d.option.push(
                            entry2("ddos-protection reset-interval-seconds"@, rest[1]),
                        ),
                        ..d
                    },
                )
            } else {
                Some(d)
            }
        } else if rest[0] == "suspicious-pattern".spec_bytes() {
            Some(
                DefaultsV {
                    option: d.option.push(entry2("ddos-protection suspicious-pattern"@, rest[1])),
                    ..d
                },
            )
        } else if rest[0] == "whitelist".spec_bytes() {
            Some(
                DefaultsV {
                    option: d.option.push(entry2("ddos-protection whitelist"@, rest[1])),
                    ..d
                },
            )
        } else if rest[0] == "blacklist".spec_bytes() {
            Some(
                DefaultsV {
                    option: d.option.push(entry2("ddos-protection blacklist"@, rest[1])),
                    ..d
                },
            )
        } else {
            Some(d)
        }
    } else if key == "compression".spec_bytes() {
        if rest.len() < 2 {
            Some(d)
        } else if (rest[0] == "gzip".spec_bytes() || rest[0] == "brotli".spec_bytes() || rest[0]
            == "deflate".spec_bytes()) && rest[1] == "enabled".spec_bytes() {
            Some(
                DefaultsV {
                    option: d.option.push(
                        "compression-"@ + scan::ascii_view(rest[0]) + " "@ + scan::ascii_view(
                            rest[1],
                        ),
                    ),
                    ..d
                },
            )
        } else if rest[0] == "min-size".spec_bytes() && scan::is_number(rest[1])
            && scan::digits_val(rest[1]) <= usize::MAX {
            Some(DefaultsV { option: d.option.push(entry2("compression-min-size"@, rest[1])), ..d })
        } else if rest[0] == "max-size".spec_bytes() && scan::is_number(rest[1])
            && scan::digits_val(rest[1]) <= usize::MAX {
            Some(DefaultsV { option: d.option.push(entry2("compression-max-size"@, rest[1])), ..d })
        } else {
            Some(d)
        }
    } else if key == "http2".spec_bytes() || key == "http3".spec_bytes() {
        let with_enabled = if rest[0] == "enabled".spec_bytes() {
            d.option.push(scan::ascii_view(key) + "-enabled"@)
        } else {
            d.option
        };
        if rest.len() >= 2 {
            Some(
                DefaultsV {
                    option: with_enabled.push(
                        scan::ascii_view(key) + "-"@ + scan::ascii_view(rest[0]) + " "@
                            + scan::ascii_view(rest[1]),
                    ),
                    ..d
                },
            )
        } else {
            Some(DefaultsV { option: with_enabled, ..d })
        }
    } else if key == "hot-reload".spec_bytes() {
        if rest[0] == "enabled".spec_bytes() {
            Some(DefaultsV { option: d.option.push("hot-reload-enabled"@), ..d })
        } else if rest.len() >= 2 {
            Some(
                DefaultsV {
                    option: d.option.push(
                        "hot-reload-"@ + scan::ascii_view(rest[0]) + " "@ + scan::ascii_view(
                            rest[1],
                        ),
                    ),
                    ..d
                },
            )
        } else {
            Some(d)
        }
    } else {
        Some(d)
    }
}

/// Apply one directive of the `defaults` section.
pub fn parse_defaults_directive(defaults: &mut DefaultsConfig, tokens: &Vec<Vec<u8>>) -> (r: Result<
    (),
    ConfigError,
>)
    requires
        tokens.deep_view().len() >= 2,
        toks_wf(tokens.deep_view()),
    ensures
        match spec_apply_defaults(old(defaults)@, tokens.deep_view()) {
            Some(dv) => r is Ok && final(defaults)@ == dv,
            None => r is Err && *final(defaults) == *old(defaults),
        },
{
    let ghost toks = tokens.deep_view();
    let key = &tokens[0];
    proof {
        assert(key@ == toks[0]);
    }
    let value = join_rest(tokens, 1);
    proof {
        assert forall|k: int| 0 <= k < toks.skip(1).len() implies scan::all_ascii(
            #[trigger] toks.skip(1)[k],
        ) by {
            assert(toks.skip(1)[k] == toks[k + 1]);
        }
        scan::lemma_join_ascii(toks.skip(1));
    }
    proof {
        reveal(spec_apply_defaults);
    }
    if scan::is_lit(key.as_slice(), "mode") {
        defaults.mode = Some(scan::tok_to_string(value.as_slice()));
        Ok(())
    } else if scan::is_lit(key.as_slice(), "log") {
        defaults.log = Some(scan::tok_to_string(value.as_slice()));
        Ok(())
    } else if scan::is_lit(key.as_slice(), "option") {
        push_entry(&mut defaults.option, scan::tok_to_string(value.as_slice()));
        Ok(())
    } else if scan::is_lit(key.as_slice(), "timeout") {
        if tokens.len() >= 3 {
            let r0 = &tokens[1];
            let r1 = &tokens[2];
            proof {
                assert(r0@ == toks.skip(1)[0]);
                assert(r1@ == toks.skip(1)[1]);
            }
            push_pair(
                &mut defaults.timeout,
                scan::tok_to_string(r0.as_slice()),
                scan::tok_to_string(r1.as_slice()),
            );
        }
        Ok(())
    } else if scan::is_lit(key.as_slice(), "retries") {
        match scan::parse_u32(value.as_slice()) {
            Some(n) => {
                defaults.retries = Some(n);
                Ok(())
            },
            None => Err(ConfigError::InvalidNumber),
        }
    } else if scan::is_lit(key.as_slice(), "rate-limit") {
        if tokens.len() >= 3 {
            let r0 = &tokens[1];
            let r1 = &tokens[2];
            proof {
                assert(r0@ == toks.skip(1)[0]);
                assert(r1@ == toks.skip(1)[1]);
            }
            if scan::is_lit(r0.as_slice(), "requests-per-second") {
                match scan::parse_u32(r1.as_slice()) {
                    Some(_) => {
                        push_entry(
                            &mut defaults.option,
                            make_entry("rate-limit-rps", r1.as_slice()),
                        );
                    },
                    None => {},
                }
            } else if scan::is_lit(r0.as_slice(), "burst-size") {
                match scan::parse_u32(r1.as_slice()) {
                    Some(_) => {
                        push_entry(
                            &mut defaults.option,
                            make_entry("rate-limit-burst", r1.as_slice()),
                        );
                    },
                    None => {},
                }
            }
        }
        Ok(())
    } else if scan::is_lit(key.as_slice(), "ddos-protection") {
        if tokens.len() >= 3 {
            let r0 = &tokens[1];
            let r1 = &tokens[2];
            proof {
                assert(r0@ == toks.skip(1)[0]);
                assert(r1@ == toks.skip(1)[1]);
            }
            if scan::is_lit(r0.as_slice(), "max-requests-per-minute") {
                match scan::parse_u32(r1.as_slice()) {
                    Some(_) => {
                        push_entry(
                            &mut defaults.option,
                            make_entry("ddos-protection max-requests-per-minute", r1.as_slice()),
                        );
                    },
                    None => {},
                }
            } else if scan::is_lit(r0.as_slice(), "max-connections-per-ip") {
                match scan::parse_u32(r1.as_slice()) {
                    Some(_) => {
                        push_entry(
                            &mut defaults.option,
                            make_entry("ddos-protection max-connections-per-ip", r1.as_slice()),
                        );
                    },
                    None => {},
                }
            } else if scan::is_lit(r0.as_slice(), "reset-interval-seconds") {
                match scan::parse_u64(r1.as_slice()) {
                    Some(_) => {
                        push_entry(
                            &mut defaults.option,
                            make_entry("ddos-protection reset-interval-seconds", r1.as_slice()),
                        );
                    },
                    None => {},
                }
            } else if scan::is_lit(r0.as_slice(), "suspicious-pattern") {
                push_entry(
                    &mut defaults.option,
                    make_entry("ddos-protection suspicious-pattern", r1.as_slice()),
                );
            } else if scan::is_lit(r0.as_slice(), "whitelist") {
                push_entry(
                    &mut defaults.option,
                    make_entry("ddos-protection whitelist", r1.as_slice()),
                );
            } else if scan::is_lit(r0.as_slice(), "blacklist") {
                push_entry(
                    &mut defaults.option,
                    make_entry("ddos-protection blacklist", r1.as_slice()),
                );
            }
        }
        Ok(())
    } else if scan::is_lit(key.as_slice(), "compression") {
        if tokens.len() >= 3 {
            let r0 = &tokens[1];
            let r1 = &tokens[2];
            proof {
                assert(r0@ == toks.skip(1)[0]);
                assert(r1@ == toks.skip(1)[1]);
            }
            if (scan::is_lit(r0.as_slice(), "gzip") || scan::is_lit(r0.as_slice(), "brotli")
                || scan::is_lit(r0.as_slice(), "deflate")) && scan::is_lit(
                r1.as_slice(),
                "enabled",
            ) {
                let mut e = "compression-".to_owned();
                e.append(scan::tok_to_string(r0.as_slice()).as_str());
                e.append(" ");
                e.append(scan::tok_to_string(r1.as_slice()).as_str());
                proof {
                    assert(e@ =~= "compression-"@ + scan::ascii_view(r0@) + " "@
                        + scan::ascii_view(r1@));
                }
                push_entry(&mut defaults.option, e);
            } else if scan::is_lit(r0.as_slice(), "min-size") {
                match scan::parse_u64(r1.as_slice()) {
                    Some(n) => if n <= usize::MAX as u64 {
                        push_entry(
                            &mut defaults.option,
                            make_entry("compression-min-size", r1.as_slice()),
                        );
                    },
                    None => {},
                }
            } else if scan::is_lit(r0.as_slice(), "max-size") {
                match scan::parse_u64(r1.as_slice()) {
                    Some(n) => if n <= usize::MAX as u64 {
                        push_entry(
                            &mut defaults.option,
                            make_entry("compression-max-size", r1.as_slice()),
                        );
                    },
                    None => {},
                }
            }
        }
        Ok(())
    } else if scan::is_lit(key.as_slice(), "http2") || scan::is_lit(key.as_slice(), "http3") {
        let r0 = &tokens[1];
        proof {
            assert(r0@ == toks.skip(1)[0]);
        }
        if scan::is_lit(r0.as_slice(), "enabled") {
            let mut e = scan::tok_to_string(key.as_slice());
            e.append("-enabled");
            push_entry(&mut defaults.option, e);
        }
        if tokens.len() >= 3 {
            let r1 = &tokens[2];
            proof {
                assert(r1@ == toks.skip(1)[1]);
            }
            let mut e = scan::tok_to_string(key.as_slice());
            e.append("-");
            e.append(scan::tok_to_string(r0.as_slice()).as_str());
            e.append(" ");
            e.append(scan::tok_to_string(r1.as_slice()).as_str());
            proof {
                assert(e@ =~= scan::ascii_view(key@) + "-"@ + scan::ascii_view(r0@) + " "@
                    + scan::ascii_view(r1@));
            }
            push_entry(&mut defaults.option, e);
        }
        Ok(())
    } else if scan::is_lit(key.as_slice(), "hot-reload") {
        let r0 = &tokens[1];
        proof {
            assert(r0@ == toks.skip(1)[0]);
        }
        if scan::is_lit(r0.as_slice(), "enabled") {
            push_entry(&mut defaults.option, "hot-reload-enabled".to_owned());
        } else if tokens.len() >= 3 {
            let r1 = &tokens[2];
            proof {
                assert(r1@ == toks.skip(1)[1]);
            }
            let mut e = "hot-reload-".to_owned();
            e.append(scan::tok_to_string(r0.as_slice()).as_str());
            e.append(" ");
            e.append(scan::tok_to_string(r1.as_slice()).as_str());
            proof {
                assert(e@ =~= "hot-reload-"@ + scan::ascii_view(r0@) + " "@ + scan::ascii_view(
                    r1@,
                ));
            }
            push_entry(&mut defaults.option, e);
        }
        Ok(())
    } else {
        Ok(())
    }
}


/// The bound address written on a `bind` line: `*:PORT` means all interfaces.
pub open spec fn spec_bind_value(value: Seq<u8>) -> Seq<char> {
    if value.len() >= 2 && value[0] == 42 && value[1] == 58 {
        "0.0.0.0:"@ + scan::ascii_view(value.skip(2))
    } else {
        scan::ascii_view(value)
    }
}

/// How one `frontend` directive changes the section being read; frontend
/// directives never fail, unknown keys change nothing.
#[verifier::opaque]
pub open spec fn spec_apply_frontend(f: FrontendV, tokens: Seq<Seq<u8>>) -> FrontendV
    recommends
        tokens.len() >= 2,
{
    let key = tokens[0];
    let rest = tokens.skip(1);
    let value = scan::spec_join(rest);
    if key == "bind".spec_bytes() {
        FrontendV { bind: f.bind.push(spec_bind_value(value)), ..f }
    } else if key == "mode".spec_bytes() {
        FrontendV { mode: Some(scan::ascii_view(value)), ..f }
    } else if key == "default_backend".spec_bytes() {
        FrontendV { default_backend: Some(scan::ascii_view(value)), ..f }
    } else if key == "acl".spec_bytes() {
        if rest.len() >= 2 {
            FrontendV {
                acl: f.acl.push(
                    AclV {
                        name: scan::ascii_view(rest[0]),
                        criterion: scan::ascii_view(scan::spec_join(tokens.skip(2))),
                    },
                ),
                ..f
            }
        } else {
            f
        }
    } else if key == "use_backend".spec_bytes() {
        if rest.len() >= 2 {
            FrontendV {
                use_backend: f.use_backend.push(
                    UseBackendV {
                        backend: scan::ascii_view(rest[0]),
                        condition: Some(scan::ascii_view(scan::spec_join(tokens.skip(2)))),
                    },
                ),
                ..f
            }
        } else {
            f
        }
    } else if key == "option".spec_bytes() {
        FrontendV { option: f.option.push(scan::ascii_view(value)), ..f }
    } else if key == "timeout".spec_bytes() {
        if rest.len() >= 2 {
            FrontendV {
                timeout: f.timeout.push((scan::ascii_view(rest[0]), scan::ascii_view(rest[1]))),
                ..f
            }
        } else {
            f
        }
    } else if key == "http-request".spec_bytes() || key == "http-response".spec_bytes() {
        if rest.len() >= 3 && (rest[0] == "set-header".spec_bytes() || rest[0]
            == "add-header".spec_bytes()) {
            FrontendV {
                option: f.option.push(
                    scan::ascii_view(key) + "-"@ + scan::ascii_view(rest[0]) + "-header "@
                        + scan::ascii_view(rest[1]) + " "@ + scan::ascii_view(rest[2]),
                ),
                ..f
            }
        } else {
            f
        }
    } else if key == "compression-gzip".spec_bytes() {
        FrontendV { option: f.option.push(entry2("compression-gzip"@, value)), ..f }
    } else if key == "compression-brotli".spec_bytes() {
        FrontendV { option: f.option.push(entry2("compression-brotli"@, value)), ..f }
    } else if key == "compression-deflate".spec_bytes() {
        FrontendV { option: f.option.push(entry2("compression-deflate"@, value)), ..f }
    } else if key == "compression-min-size".spec_bytes() {
        if scan::is_number(value) && scan::digits_val(value) <= usize::MAX {
            FrontendV { option: f.option.push(entry2("compression-min-size"@, value)), ..f }
        } else {
            f
        }
    } else if key == "compression-max-size".spec_bytes() {
        if scan::is_number(value) && scan::digits_val(value) <= usize::MAX {
            FrontendV { option: f.option.push(entry2("compression-max-size"@, value)), ..f }
        } else {
            f
        }
    } else if key == "compression-level".spec_bytes() {
        if scan::is_number(value) && scan::digits_val(value) <= u32::MAX {
            FrontendV { option: f.option.push(entry2("compression-level"@, value)), ..f }
        } else {
            f
        }
    } else {
        f
    }
}

/// Append one ACL definition.
fn push_acl(acl: &mut Vec<AclConfig>, a: AclConfig)
    ensures
        final(acl)@.map_values(|x: AclConfig| x@) == old(acl)@.map_values(|x: AclConfig| x@).push(
            a@,
        ),
{
    acl.push(a);
    proof {
        assert(acl@.map_values(|x: AclConfig| x@) =~= old(acl)@.map_values(|x: AclConfig| x@).push(
            acl@.last()@,
        ));
    }
}

/// Append one `use_backend` rule.
fn push_use_backend(ub: &mut Vec<UseBackendConfig>, u: UseBackendConfig)
    ensures
        final(ub)@.map_values(|x: UseBackendConfig| x@) == old(ub)@.map_values(
            |x: UseBackendConfig| x@,
        ).push(u@),
{
    ub.push(u);
    proof {
        assert(ub@.map_values(|x: UseBackendConfig| x@) =~= old(ub)@.map_values(
            |x: UseBackendConfig| x@,
        ).push(ub@.last()@));
    }
}

/// Apply one directive of a `frontend` section.
pub fn parse_frontend_directive(frontend: &mut FrontendConfig, tokens: &Vec<Vec<u8>>)
    requires
        tokens.deep_view().len() >= 2,
        toks_wf(tokens.deep_view()),
    ensures
        final(frontend)@ == spec_apply_frontend(old(frontend)@, tokens.deep_view()),
{
    let ghost toks = tokens.deep_view();
    let key = &tokens[0];
    proof {
        assert(key@ == toks[0]);
    }
    let value = join_rest(tokens, 1);
    proof {
        assert forall|k: int| 0 <= k < toks.skip(1).len() implies scan::all_ascii(
            #[trigger] toks.skip(1)[k],
        ) by {
            assert(toks.skip(1)[k] == toks[k + 1]);
        }
        scan::lemma_join_ascii(toks.skip(1));
    }
    proof {
        reveal(spec_apply_frontend);
    }
    if scan::is_lit(key.as_slice(), "bind") {
        let n = value.len();
        let b = if n >= 2 && value[0] == 42 && value[1] == 58 {
            let mut e = "0.0.0.0:".to_owned();
            let port = vstd::slice::slice_subrange(value.as_slice(), 2, n);
            proof {
                assert(scan::all_ascii(port@));
            }
            e.append(scan::tok_to_string(port).as_str());
            proof {
                assert(e@ =~= "0.0.0.0:"@ + scan::ascii_view(value@.skip(2)));
                assert(value@.subrange(2, n as int) =~= value@.skip(2));
            }
            e
        } else {
            scan::tok_to_string(value.as_slice())
        };
        push_entry(&mut frontend.bind, b);
    } else if scan::is_lit(key.as_slice(), "mode") {
        frontend.mode = Some(scan::tok_to_string(value.as_slice()));
    } else if scan::is_lit(key.as_slice(), "default_backend") {
        frontend.default_backend = Some(scan::tok_to_string(value.as_slice()));
    } else if scan::is_lit(key.as_slice(), "acl") {
        if tokens.len() >= 3 {
            let r0 = &tokens[1];
            proof {
                assert(r0@ == toks.skip(1)[0]);
            }
            let crit = join_rest(tokens, 2);
            proof {
                assert forall|k: int| 0 <= k < toks.skip(2).len() implies scan::all_ascii(
                    #[trigger] toks.skip(2)[k],
                ) by {
                    assert(toks.skip(2)[k] == toks[k + 2]);
                }
                scan::lemma_join_ascii(toks.skip(2));
            }
            push_acl(
                &mut frontend.acl,
                AclConfig {
                    name: scan::tok_to_string(r0.as_slice()),
                    criterion: scan::tok_to_string(crit.as_slice()),
                },
            );
        }
    } else if scan::is_lit(key.as_slice(), "use_backend") {
        if tokens.len() >= 3 {
            let r0 = &tokens[1];
            proof {
                assert(r0@ == toks.skip(1)[0]);
            }
            let cond = join_rest(tokens, 2);
            proof {
                assert forall|k: int| 0 <= k < toks.skip(2).len() implies scan::all_ascii(
                    #[trigger] toks.skip(2)[k],
                ) by {
                    assert(toks.skip(2)[k] == toks[k + 2]);
                }
                scan::lemma_join_ascii(toks.skip(2));
            }
            push_use_backend(
                &mut frontend.use_backend,
                UseBackendConfig {
                    backend: scan::tok_to_string(r0.as_slice()),
                    condition: Some(scan::tok_to_string(cond.as_slice())),
                },
            );
        }
    } else if scan::is_lit(key.as_slice(), "option") {
        push_entry(&mut frontend.option, scan::tok_to_string(value.as_slice()));
    } else if scan::is_lit(key.as_slice(), "timeout") {
        if tokens.len() >= 3 {
            let r0 = &tokens[1];
            let r1 = &tokens[2];
            proof {
                assert(r0@ == toks.skip(1)[0]);
                assert(r1@ == toks.skip(1)[1]);
            }
            push_pair(
                &mut frontend.timeout,
                scan::tok_to_string(r0.as_slice()),
                scan::tok_to_string(r1.as_slice()),
            );
        }
    } else if scan::is_lit(key.as_slice(), "http-request") || scan::is_lit(
        key.as_slice(),
        "http-response",
    ) {
        if tokens.len() >= 4 {
            let r0 = &tokens[1];
            let r1 = &tokens[2];
            let r2 = &tokens[3];
            proof {
                assert(r0@ == toks.skip(1)[0]);
                assert(r1@ == toks.skip(1)[1]);
                assert(r2@ == toks.skip(1)[2]);
            }
            if scan::is_lit(r0.as_slice(), "set-header") || scan::is_lit(
                r0.as_slice(),
                "add-header",
            ) {
                let mut e = scan::tok_to_string(key.as_slice());
                e.append("-");
                e.append(scan::tok_to_string(r0.as_slice()).as_str());
                e.append("-header ");
                e.append(scan::tok_to_string(r1.as_slice()).as_str());
                e.append(" ");
                e.append(scan::tok_to_string(r2.as_slice()).as_str());
                proof {
                    assert(e@ =~= scan::ascii_view(key@) + "-"@ + scan::ascii_view(r0@)
                        + "-header "@ + scan::ascii_view(r1@) + " "@ + scan::ascii_view(r2@));
                }
                push_entry(&mut frontend.option, e);
            }
        }
    } else if scan::is_lit(key.as_slice(), "compression-gzip") {
        push_entry(&mut frontend.option, make_entry("compression-gzip", value.as_slice()));
    } else if scan::is_lit(key.as_slice(), "compression-brotli") {
        push_entry(&mut frontend.option, make_entry("compression-brotli", value.as_slice()));
    } else if scan::is_lit(key.as_slice(), "compression-deflate") {
        push_entry(&mut frontend.option, make_entry("compression-deflate", value.as_slice()));
    } else if scan::is_lit(key.as_slice(), "compression-min-size") {
        match scan::parse_u64(value.as_slice()) {
            Some(n) => if n <= usize::MAX as u64 {
                push_entry(&mut frontend.option, make_entry("compression-min-size", value.as_slice()));
            },
            None => {},
        }
    } else if scan::is_lit(key.as_slice(), "compression-max-size") {
        match scan::parse_u64(value.as_slice()) {
            Some(n) => if n <= usize::MAX as u64 {
                push_entry(&mut frontend.option, make_entry("compression-max-size", value.as_slice()));
            },
            None => {},
        }
    } else if scan::is_lit(key.as_slice(), "compression-level") {
        match scan::parse_u32(value.as_slice()) {
            Some(_) => {
                push_entry(&mut frontend.option, make_entry("compression-level", value.as_slice()));
            },
            None => {},
        }
    }
}


/// Read the `[key value]` flags that follow a server's name and address:
/// weight, maxconn, probe interval, rise and fall thresholds, and the
/// `check`, `backup` and `disabled` markers. Unknown words are skipped, and
/// an unreadable number falls back to that flag's default.
#[verifier::opaque]
pub open spec fn spec_server_flags(sv: ServerV, opts: Seq<Seq<u8>>) -> ServerV
    decreases opts.len(),
{
    if opts.len() == 0 {
        sv
    } else if opts[0] == "weight".spec_bytes() {
        if opts.len() >= 2 {
            let w = if scan::is_number(opts[1]) && scan::digits_val(opts[1]) <= u32::MAX {
                scan::digits_val(opts[1]) as u32
            } else {
                1u32
            };
            spec_server_flags(ServerV { weight: Some(w), ..sv }, opts.skip(2))
        } else {
            sv
        }
    } else if opts[0] == "maxconn".spec_bytes() {
        if opts.len() >= 2 {
            let m = if scan::is_number(opts[1]) && scan::digits_val(opts[1]) <= u32::MAX {
                scan::digits_val(opts[1]) as u32
            } else {
                1000u32
            };
            spec_server_flags(ServerV { maxconn: Some(m), ..sv }, opts.skip(2))
        } else {
            sv
        }
    } else if opts[0] == "check".spec_bytes() {
        spec_server_flags(ServerV { check: Some(true), ..sv }, opts.skip(1))
    } else if opts[0] == "inter".spec_bytes() {
        if opts.len() >= 2 {
            spec_server_flags(ServerV { inter: Some(scan::ascii_view(opts[1])), ..sv }, opts.skip(2))
        } else {
            sv
        }
    } else if opts[0] == "rise".spec_bytes() {
        if opts.len() >= 2 {
            let n = if scan::is_number(opts[1]) && scan::digits_val(opts[1]) <= u32::MAX {
                scan::digits_val(opts[1]) as u32
            } else {
                2u32
            };
            spec_server_flags(ServerV { rise: Some(n), ..sv }, opts.skip(2))
        } else {
            sv
        }
    } else if opts[0] == "fall".spec_bytes() {
        if opts.len() >= 2 {
            let n = if scan::is_number(opts[1]) && scan::digits_val(opts[1]) <= u32::MAX {
                scan::digits_val(opts[1]) as u32
            } else {
                3u32
            };
            spec_server_flags(ServerV { fall: Some(n), ..sv }, opts.skip(2))
        } else {
            sv
        }
    } else if opts[0] == "backup".spec_bytes() {
        spec_server_flags(ServerV { backup: Some(true), ..sv }, opts.skip(1))
    } else if opts[0] == "disabled".spec_bytes() {
        spec_server_flags(ServerV { disabled: Some(true), ..sv }, opts.skip(1))
    } else {
        spec_server_flags(sv, opts.skip(1))
    }
}

/// The server a `server NAME ADDR[:PORT] [flags]` line defines. The address
/// splits at a single colon; a missing or unreadable port means port 80.
#[verifier::opaque]
pub open spec fn spec_server_of(rest: Seq<Seq<u8>>) -> ServerV
    recommends
        rest.len() >= 2,
{
    let addr = rest[1];
    let pieces = scan::spec_split(addr, 58);
    let address = if pieces.len() == 2 {
        scan::ascii_view(pieces[0])
    } else {
        scan::ascii_view(addr)
    };
    let port = if pieces.len() == 2 && scan::is_number(pieces[1]) && scan::digits_val(pieces[1])
        <= u16::MAX {
        scan::digits_val(pieces[1]) as u16
    } else {
        80u16
    };
    spec_server_flags(
        ServerV {
            name: scan::ascii_view(rest[0]),
            address,
            port,
            weight: Some(1),
            maxconn: None,
            check: None,
            inter: None,
            rise: None,
            fall: None,
            backup: None,
            disabled: None,
        },
        rest.skip(2),
    )
}

/// Parse one `server` line (`tokens[0]` is the `server` keyword itself).
fn parse_server_tokens(tokens: &Vec<Vec<u8>>) -> (r: ServerConfig)
    requires
        tokens.deep_view().len() >= 3,
        toks_wf(tokens.deep_view()),
    ensures
        r@ == spec_server_of(tokens.deep_view().skip(1)),
{
    proof {
        reveal(spec_server_of);
        reveal(spec_server_flags);
    }
    let ghost toks = tokens.deep_view();
    let ghost rest = toks.skip(1);
    let name_tok = &tokens[1];
    let addr_tok = &tokens[2];
    proof {
        assert(name_tok@ == rest[0]);
        assert(addr_tok@ == rest[1]);
    }
    let pieces = scan::split_on(addr_tok.as_slice(), 58);
    let (address, port) = if pieces.len() == 2 {
        let p0 = &pieces[0];
        let p1 = &pieces[1];
        proof {
            assert(p0@ == scan::spec_split(addr_tok@, 58)[0]);
            assert(p1@ == scan::spec_split(addr_tok@, 58)[1]);
            lemma_split_pieces_ascii(addr_tok@, 58);
        }
        let port = match scan::parse_u16(p1.as_slice()) {
            Some(p) => p,
            None => 80,
        };
        (scan::tok_to_string(p0.as_slice()), port)
    } else {
        (scan::tok_to_string(addr_tok.as_slice()), 80)
    };
    let mut server = ServerConfig {
        name: scan::tok_to_string(name_tok.as_slice()),
        address,
        port,
        weight: Some(1),
        maxconn: None,
        check: None,
        inter: None,
        rise: None,
        fall: None,
        backup: None,
        disabled: None,
    };
    let ghost start = server@;
    let mut i: usize = 3;
    proof {
        assert(rest.skip(2) =~= toks.skip(3));
    }
    while i < tokens.len()
        invariant
            3 <= i <= toks.len(),
            toks == tokens.deep_view(),
            toks_wf(toks),
            rest == toks.skip(1),
            spec_server_flags(start, rest.skip(2)) == spec_server_flags(
                server@,
                toks.skip(i as int),
            ),
        decreases toks.len() - i,
    {
        let t = &tokens[i];
        proof {
            reveal(spec_server_flags);
            assert(t@ == toks.skip(i as int)[0]);
            assert(toks.skip(i as int).skip(1) =~= toks.skip(i + 1));
            if i + 1 < toks.len() {
                assert(toks.skip(i as int)[1] == toks[i + 1]);
                assert(toks.skip(i as int).skip(2) =~= toks.skip(i + 2));
            }
        }
        if scan::is_lit(t.as_slice(), "weight") {
            if i + 1 < tokens.len() {
                let v = &tokens[i + 1];
                proof {
                    assert(v@ == toks[i + 1]);
                }
                server.weight = Some(
                    match scan::parse_u32(v.as_slice()) {
                        Some(n) => n,
                        None => 1,
                    },
                );
                i += 2;
            } else {
                i = tokens.len();
                proof {
                    assert(toks.skip(i as int).len() == 0);
                }
            }
        } else if scan::is_lit(t.as_slice(), "maxconn") {
            if i + 1 < tokens.len() {
                let v = &tokens[i + 1];
                proof {
                    assert(v@ == toks[i + 1]);
                }
                server.maxconn = Some(
                    match scan::parse_u32(v.as_slice()) {
                        Some(n) => n,
                        None => 1000,
                    },
                );
                i += 2;
            } else {
                i = tokens.len();
            }
        } else if scan::is_lit(t.as_slice(), "check") {
            server.check = Some(true);
            i += 1;
        } else if scan::is_lit(t.as_slice(), "inter") {
            if i + 1 < tokens.len() {
                let v = &tokens[i + 1];
                proof {
                    assert(v@ == toks[i + 1]);
                }
                server.inter = Some(scan::tok_to_string(v.as_slice()));
                i += 2;
            } else {
                i = tokens.len();
            }
        } else if scan::is_lit(t.as_slice(), "rise") {
            if i + 1 < tokens.len() {
                let v = &tokens[i + 1];
                proof {
                    assert(v@ == toks[i + 1]);
                }
                server.rise = Some(
                    match scan::parse_u32(v.as_slice()) {
                        Some(n) => n,
                        None => 2,
                    },
                );
                i += 2;
            } else {
                i = tokens.len();
            }
        } else if scan::is_lit(t.as_slice(), "fall") {
            if i + 1 < tokens.len() {
                let v = &tokens[i + 1];
                proof {
                    assert(v@ == toks[i + 1]);
                }
                server.fall = Some(
                    match scan::parse_u32(v.as_slice()) {
                        Some(n) => n,
                        None => 3,
                    },
                );
                i += 2;
            } else {
                i = tokens.len();
            }
        } else if scan::is_lit(t.as_slice(), "backup") {
            server.backup = Some(true);
            i += 1;
        } else if scan::is_lit(t.as_slice(), "disabled") {
            server.disabled = Some(true);
            i += 1;
        } else {
            i += 1;
        }
    }
    proof {
        reveal(spec_server_flags);
        assert(toks.skip(i as int).len() == 0);
        assert(spec_server_flags(server@, toks.skip(i as int)) == server@);
    }
    server
}

/// How one `backend` directive changes the section being read; `None` is a
/// configuration error (a bad `retries` number).
#[verifier::opaque]
pub open spec fn spec_apply_backend(b: BackendV, tokens: Seq<Seq<u8>>) -> Option<BackendV>
    recommends
        tokens.len() >= 2,
{
    let key = tokens[0];
    let rest = tokens.skip(1);
    let value = scan::spec_join(rest);
    if key == "mode".spec_bytes() {
        Some(BackendV { mode: Some(scan::ascii_view(value)), ..b })
    } else if key == "balance".spec_bytes() {
        Some(
            BackendV {
                balance: Some(
                    scan::ascii_view(
                        scan::spec_trim(value.take(scan::piece_len(value, 35))),
                    ),
                ),
                ..b
            },
        )
    } else if key == "server".spec_bytes() {
        if rest.len() >= 2 {
            Some(BackendV { server: b.server.push(spec_server_of(rest)), ..b })
        } else {
            Some(b)
        }
    } else if key == "option".spec_bytes() || key == "tcp-check".spec_bytes() {
        Some(BackendV { option: b.option.push(scan::ascii_view(value)), ..b })
    } else if key == "retries".spec_bytes() {
        if scan::is_number(value) && scan::digits_val(value) <= u32::MAX {
            Some(BackendV { retries: Some(scan::digits_val(value) as u32), ..b })
        } else {
            None
        }
    } else if key == "timeout".spec_bytes() {
        if rest.len() >= 2 {
            Some(
                BackendV {
                    timeout: b.timeout.push((scan::ascii_view(rest[0]), scan::ascii_view(rest[1]))),
                    ..b
                },
            )
        } else {
            Some(b)
        }
    } else {
        Some(b)
    }
}

/// Append one server definition.
fn push_server(server: &mut Vec<ServerConfig>, sv: ServerConfig)
    ensures
        final(server)@.map_values(|x: ServerConfig| x@) == old(server)@.map_values(
            |x: ServerConfig| x@,
        ).push(sv@),
{
    server.push(sv);
    proof {
        assert(server@.map_values(|x: ServerConfig| x@) =~= old(server)@.map_values(
            |x: ServerConfig| x@,
        ).push(server@.last()@));
    }
}

/// Apply one directive of a `backend` section.
pub fn parse_backend_directive(backend: &mut BackendConfig, tokens: &Vec<Vec<u8>>) -> (r: Result<
    (),
    ConfigError,
>)
    requires
        tokens.deep_view().len() >= 2,
        toks_wf(tokens.deep_view()),
    ensures
        match spec_apply_backend(old(backend)@, tokens.deep_view()) {
            Some(bv) => r is Ok && final(backend)@ == bv,
            None => r is Err && *final(backend) == *old(backend),
        },
{
    let ghost toks = tokens.deep_view();
    let key = &tokens[0];
    proof {
        assert(key@ == toks[0]);
    }
    let value = join_rest(tokens, 1);
    proof {
        assert forall|k: int| 0 <= k < toks.skip(1).len() implies scan::all_ascii(
            #[trigger] toks.skip(1)[k],
        ) by {
            assert(toks.skip(1)[k] == toks[k + 1]);
        }
        scan::lemma_join_ascii(toks.skip(1));
    }
    proof {
        reveal(spec_apply_backend);
        reveal(spec_server_of);
    }
    if scan::is_lit(key.as_slice(), "mode") {
        backend.mode = Some(scan::tok_to_string(value.as_slice()));
        Ok(())
    } else if scan::is_lit(key.as_slice(), "balance") {
        let pieces = scan::split_on(value.as_slice(), 35);
        proof {
            scan::lemma_piece_len_bounds(value@, 35);
        }
        if pieces.len() == 0 {
            proof {
                if value@.len() > 0 {
                    if scan::piece_len(value@, 35) == value@.len() {
                        assert(scan::spec_split(value@, 35) == seq![value@]);
                    }
                    assert(scan::spec_split(value@, 35).len() >= 1);
                }
                assert(value@.len() == 0);
                assert(value@.take(scan::piece_len(value@, 35)) =~= value@);
                assert(scan::ascii_view(scan::spec_trim(value@)) =~= Seq::<char>::empty());
            }
            backend.balance = Some(String::new());
        } else {
            proof {
                assert(pieces.deep_view()[0] == value@.take(scan::piece_len(value@, 35)));
                lemma_split_pieces_ascii(value@, 35);
            }
            let p0 = &pieces[0];
            proof {
                assert(p0@ == value@.take(scan::piece_len(value@, 35)));
            }
            let cut = trim_ascii(p0);
            backend.balance = Some(cut);
        }
        Ok(())
    } else if scan::is_lit(key.as_slice(), "server") {
        if tokens.len() >= 3 {
            let sv = parse_server_tokens(tokens);
            push_server(&mut backend.server, sv);
        }
        Ok(())
    } else if scan::is_lit(key.as_slice(), "option") || scan::is_lit(key.as_slice(), "tcp-check") {
        push_entry(&mut backend.option, scan::tok_to_string(value.as_slice()));
        Ok(())
    } else if scan::is_lit(key.as_slice(), "retries") {
        match scan::parse_u32(value.as_slice()) {
            Some(n) => {
                backend.retries = Some(n);
                Ok(())
            },
            None => Err(ConfigError::InvalidNumber),
        }
    } else if scan::is_lit(key.as_slice(), "timeout") {
        if tokens.len() >= 3 {
            let r0 = &tokens[1];
            let r1 = &tokens[2];
            proof {
                assert(r0@ == toks.skip(1)[0]);
                assert(r1@ == toks.skip(1)[1]);
            }
            push_pair(
                &mut backend.timeout,
                scan::tok_to_string(r0.as_slice()),
                scan::tok_to_string(r1.as_slice()),
            );
        }
        Ok(())
    } else {
        Ok(())
    }
}

/// Trim an ASCII token and return it as a string.
fn trim_ascii(tok: &Vec<u8>) -> (r: String)
    requires
        scan::all_ascii(tok@),
    ensures
        r@ == scan::ascii_view(scan::spec_trim(tok@)),
{
    let t = scan::trim_bytes(tok.as_slice());
    proof {
        lemma_trim_ascii(tok@);
    }
    scan::tok_to_string(t.as_slice())
}

/// Trimming keeps a text ASCII.
proof fn lemma_trim_ascii(s: Seq<u8>)
    requires
        scan::all_ascii(s),
    ensures
        scan::all_ascii(scan::spec_trim(s)),
    decreases s.len(),
{
    if s.len() == 0 {
    } else if scan::is_space(s[0]) {
        assert forall|i: int| 0 <= i < s.drop_first().len() implies s.drop_first()[i] < 128 by {
            assert(s.drop_first()[i] == s[i + 1]);
        }
        lemma_trim_ascii(s.drop_first());
    } else if scan::is_space(s.last()) {
        assert forall|i: int| 0 <= i < s.drop_last().len() implies s.drop_last()[i] < 128 by {
            assert(s.drop_last()[i] == s[i]);
        }
        lemma_trim_ascii(s.drop_last());
    }
}

/// The first server of a backend that has `check` set, whose probe settings
/// the whole backend adopts.
pub open spec fn first_checked(servers: Seq<ServerV>) -> Option<ServerV>
    decreases servers.len(),
{
    if servers.len() == 0 {
        None
    } else if servers[0].check == Some(true) {
        Some(servers[0])
    } else {
        first_checked(servers.drop_first())
    }
}

/// The health-check settings a backend derives from its servers: present
/// exactly when some server has `check`, with that first server's interval
/// and thresholds (defaults 2s, rise 2, fall 3) and a 1 s probe timeout.
pub open spec fn spec_health_check_of(servers: Seq<ServerV>) -> Option<HealthCheckV> {
    match first_checked(servers) {
        Some(s) => Some(
            HealthCheckV {
                interval: match s.inter {
                    Some(i) => i,
                    None => "2s"@,
                },
                timeout: "1s"@,
                rise: match s.rise {
                    Some(r) => r,
                    None => 2u32,
                },
                fall: match s.fall {
                    Some(f) => f,
                    None => 3u32,
                },
            },
        ),
        None => None,
    }
}

/// Derive a backend's health-check settings from its server list.
pub fn create_health_check_config(backend: &BackendConfig) -> (r: Option<HealthCheckConfig>)
    ensures
        match r {
            Some(h) => spec_health_check_of(backend@.server) == Some(h@),
            None => spec_health_check_of(backend@.server) is None,
        },
{
    let ghost servers = backend@.server;
    let mut i: usize = 0;
    proof {
        assert(servers.skip(0) =~= servers);
    }
    while i < backend.server.len()
        invariant
            i <= servers.len(),
            servers == backend@.server,
            first_checked(servers) == first_checked(servers.skip(i as int)),
        decreases servers.len() - i,
    {
        let s = &backend.server[i];
        proof {
            assert(s@ == servers.skip(i as int)[0]);
            assert(servers.skip(i as int).drop_first() =~= servers.skip(i + 1));
        }
        let checked = match s.check {
            Some(c) => c,
            None => false,
        };
        if checked {
            let interval = match &s.inter {
                Some(iv) => clone_string(iv),
                None => "2s".to_owned(),
            };
            let rise = match s.rise {
                Some(r) => r,
                None => 2,
            };
            let fall = match s.fall {
                Some(f) => f,
                None => 3,
            };
            return Some(
                HealthCheckConfig { interval, timeout: "1s".to_owned(), rise, fall },
            );
        }
        i += 1;
    }
    proof {
        assert(servers.skip(i as int).len() == 0);
    }
    None
}


/// Which section the line reader is currently inside.
enum Section {
    Outside,
    InGlobal,
    InDefaults,
    InFrontend,
    InBackend,
    Other,
}

pub ghost enum SectionV {
    Outside,
    InGlobal,
    InDefaults,
    InFrontend,
    InBackend,
    Other,
}

impl View for Section {
    type V = SectionV;

    closed spec fn view(&self) -> SectionV {
        match self {
            Section::Outside => SectionV::Outside,
            Section::InGlobal => SectionV::InGlobal,
            Section::InDefaults => SectionV::InDefaults,
            Section::InFrontend => SectionV::InFrontend,
            Section::InBackend => SectionV::InBackend,
            Section::Other => SectionV::Other,
        }
    }
}

/// The whole state of the line reader.
pub ghost struct ParseStV {
    pub global: GlobalV,
    pub defaults: DefaultsV,
    pub frontends: Seq<FrontendV>,
    pub backends: Seq<BackendV>,
    pub stats_binds: Seq<Seq<char>>,
    pub section: SectionV,
    pub cur_fe: Option<FrontendV>,
    pub cur_be: Option<BackendV>,
}

impl GlobalV {
    /// The global section before any directive: 4096 connections, logging to
    /// stdout, not a daemon.
    pub open spec fn init() -> GlobalV {
        GlobalV {
            maxconn: Some(4096),
            log: Some("stdout"@),
            user: None,
            group: None,
            daemon: Some(false),
            pidfile: None,
            ssl_default_bind_ciphers: Some("EECDH+AESGCM:EDH+AESGCM"@),
            ssl_default_bind_options: Some("no-sslv3"@),
            option: Seq::empty(),
        }
    }
}

impl DefaultsV {
    /// The defaults section before any directive: tcp mode, global logging,
    /// `dontlognull`, three retries.
    pub open spec fn init() -> DefaultsV {
        DefaultsV {
            mode: Some("tcp"@),
            log: Some("global"@),
            option: seq!["dontlognull"@],
            timeout: Seq::empty(),
            retries: Some(3),
            options: None,
        }
    }
}

impl MetricsV {
    /// Metrics are served by default on port 9090 under `/metrics`.
    pub open spec fn init() -> MetricsV {
        MetricsV { enabled: true, bind: Some("0.0.0.0:9090"@), path: Some("/metrics"@) }
    }
}

impl ParseStV {
    /// The reader's state before the first line.
    pub open spec fn init() -> ParseStV {
        ParseStV {
            global: GlobalV::init(),
            defaults: DefaultsV::init(),
            frontends: Seq::empty(),
            backends: Seq::empty(),
            stats_binds: Seq::empty(),
            section: SectionV::Outside,
            cur_fe: None,
            cur_be: None,
        }
    }
}

/// A fresh frontend section with only its name set.
pub open spec fn spec_fresh_fe(name: Seq<char>) -> FrontendV {
    FrontendV {
        name,
        bind: Seq::empty(),
        mode: None,
        default_backend: None,
        acl: Seq::empty(),
        use_backend: Seq::empty(),
        option: Seq::empty(),
        timeout: Seq::empty(),
        options: None,
    }
}

/// A fresh backend section with only its name set.
pub open spec fn spec_fresh_be(name: Seq<char>) -> BackendV {
    BackendV {
        name,
        mode: None,
        balance: None,
        server: Seq::empty(),
        option: Seq::empty(),
        timeout: Seq::empty(),
        health_check: None,
        options: None,
        retries: None,
    }
}

/// The byte text of each stored option line.
pub open spec fn opt_lines(opts: Seq<Seq<char>>) -> Seq<Seq<u8>> {
    opts.map_values(|s: Seq<char>| vstd::utf8::encode_utf8(s))
}

/// A finished frontend: its options block is built from its `option` lines
/// under its mode (tcp unless it says http).
pub open spec fn spec_finish_fe(f: FrontendV) -> FrontendV {
    let mode = match f.mode {
        Some(m) => m,
        None => "tcp"@,
    };
    FrontendV {
        options: Some(
            options::spec_apply_options(OptionsV::init(), opt_lines(f.option), mode == "http"@),
        ),
        ..f
    }
}

/// A finished backend: options from its `option` lines, health-check
/// settings derived from its servers.
pub open spec fn spec_finish_be(b: BackendV) -> BackendV {
    let mode = match b.mode {
        Some(m) => m,
        None => "tcp"@,
    };
    BackendV {
        options: Some(
            options::spec_apply_options(OptionsV::init(), opt_lines(b.option), mode == "http"@),
        ),
        health_check: spec_health_check_of(b.server),
        ..b
    }
}

/// Close any open frontend or backend section, finishing and appending it.
pub open spec fn spec_close(st: ParseStV) -> ParseStV {
    let fes = match st.cur_fe {
        Some(f) => st.frontends.push(spec_finish_fe(f)),
        None => st.frontends,
    };
    let bes = match st.cur_be {
        Some(b) => st.backends.push(spec_finish_be(b)),
        None => st.backends,
    };
    ParseStV { frontends: fes, backends: bes, cur_fe: None, cur_be: None, ..st }
}

/// How one configuration line advances the reader. Blank and comment lines
/// do nothing; a heading closes the open section and opens a new one; a
/// directive inside a section applies to it; `None` is a configuration
/// error.
#[verifier::opaque]
pub open spec fn spec_line_step(st: ParseStV, line: Seq<u8>) -> Option<ParseStV> {
    let toks = scan::spec_tokens(line);
    if toks.len() == 0 || toks[0][0] == 35 {
        Some(st)
    } else if toks[0] == "global".spec_bytes() || toks[0] == "defaults".spec_bytes()
        || "frontend".spec_bytes().is_prefix_of(toks[0]) || "backend".spec_bytes().is_prefix_of(
        toks[0],
    ) {
        let closed = spec_close(st);
        if toks[0] == "global".spec_bytes() {
            Some(ParseStV { section: SectionV::InGlobal, ..closed })
        } else if toks[0] == "defaults".spec_bytes() {
            Some(ParseStV { section: SectionV::InDefaults, ..closed })
        } else if toks[0] == "frontend".spec_bytes() {
            if toks.len() >= 2 {
                Some(
                    ParseStV {
                        section: SectionV::InFrontend,
                        cur_fe: Some(spec_fresh_fe(scan::ascii_view(toks[1]))),
                        ..closed
                    },
                )
            } else {
                Some(ParseStV { section: SectionV::Other, ..closed })
            }
        } else if toks[0] == "backend".spec_bytes() {
            if toks.len() >= 2 {
                Some(
                    ParseStV {
                        section: SectionV::InBackend,
                        cur_be: Some(spec_fresh_be(scan::ascii_view(toks[1]))),
                        ..closed
                    },
                )
            } else {
                Some(ParseStV { section: SectionV::Other, ..closed })
            }
        } else {
            Some(ParseStV { section: SectionV::Other, ..closed })
        }
    } else if toks.len() < 2 {
        None
    } else {
        match st.section {
            SectionV::InGlobal => {
                if toks[0] == "stats".spec_bytes() && "bind".spec_bytes().is_prefix_of(toks[1]) {
                    if toks.len() >= 3 {
                        Some(
                            ParseStV {
                                stats_binds: st.stats_binds.push(scan::ascii_view(toks[2])),
                                ..st
                            },
                        )
                    } else {
                        Some(st)
                    }
                } else {
                    match spec_apply_global(st.global, toks) {
                        Some(g) => Some(ParseStV { global: g, ..st }),
                        None => None,
                    }
                }
            },
            SectionV::InDefaults => match spec_apply_defaults(st.defaults, toks) {
                Some(d) => Some(ParseStV { defaults: d, ..st }),
                None => None,
            },
            SectionV::InFrontend => match st.cur_fe {
                Some(f) => Some(ParseStV { cur_fe: Some(spec_apply_frontend(f, toks)), ..st }),
                None => Some(st),
            },
            SectionV::InBackend => match st.cur_be {
                Some(b) => match spec_apply_backend(b, toks) {
                    Some(bv) => Some(ParseStV { cur_be: Some(bv), ..st }),
                    None => None,
                },
                None => Some(st),
            },
            _ => Some(st),
        }
    }
}

/// The reader's state after all lines, oldest first.
pub open spec fn spec_parse_lines(st: ParseStV, lines: Seq<Seq<u8>>) -> Option<ParseStV>
    decreases lines.len(),
{
    if lines.len() == 0 {
        Some(st)
    } else {
        match spec_parse_lines(st, lines.drop_last()) {
            Some(m) => spec_line_step(m, lines.last()),
            None => None,
        }
    }
}


/// Assemble the reader state from its parts.
pub open spec fn st_of(
    g: GlobalV,
    d: DefaultsV,
    fes: Seq<FrontendV>,
    bes: Seq<BackendV>,
    sb: Seq<Seq<char>>,
    sec: SectionV,
    cf: Option<FrontendV>,
    cb: Option<BackendV>,
) -> ParseStV {
    ParseStV {
        global: g,
        defaults: d,
        frontends: fes,
        backends: bes,
        stats_binds: sb,
        section: sec,
        cur_fe: cf,
        cur_be: cb,
    }
}

pub open spec fn fes_view(v: Seq<FrontendConfig>) -> Seq<FrontendV> {
    v.map_values(|f: FrontendConfig| f@)
}

pub open spec fn bes_view(v: Seq<BackendConfig>) -> Seq<BackendV> {
    v.map_values(|b: BackendConfig| b@)
}

pub open spec fn opt_fe_view(o: Option<FrontendConfig>) -> Option<FrontendV> {
    match o {
        Some(f) => Some(f@),
        None => None,
    }
}

pub open spec fn opt_be_view(o: Option<BackendConfig>) -> Option<BackendV> {
    match o {
        Some(b) => Some(b@),
        None => None,
    }
}

/// Append one finished frontend.
fn push_fe(fes: &mut Vec<FrontendConfig>, f: FrontendConfig)
    ensures
        fes_view(final(fes)@) == fes_view(old(fes)@).push(f@),
{
    fes.push(f);
    proof {
        assert(fes_view(fes@) =~= fes_view(old(fes)@).push(fes@.last()@));
    }
}

/// Append one finished backend.
fn push_be(bes: &mut Vec<BackendConfig>, b: BackendConfig)
    ensures
        bes_view(final(bes)@) == bes_view(old(bes)@).push(b@),
{
    bes.push(b);
    proof {
        assert(bes_view(bes@) =~= bes_view(old(bes)@).push(bes@.last()@));
    }
}

/// Finish and append any open frontend or backend section.
fn close_sections(
    frontends: &mut Vec<FrontendConfig>,
    backends: &mut Vec<BackendConfig>,
    cur_fe: Option<FrontendConfig>,
    cur_be: Option<BackendConfig>,
) -> (r: Result<(), ConfigError>)
    ensures
        r is Ok,
        fes_view(final(frontends)@) == (match opt_fe_view(cur_fe) {
            Some(f) => fes_view(old(frontends)@).push(spec_finish_fe(f)),
            None => fes_view(old(frontends)@),
        }),
        bes_view(final(backends)@) == (match opt_be_view(cur_be) {
            Some(b) => bes_view(old(backends)@).push(spec_finish_be(b)),
            None => bes_view(old(backends)@),
        }),
{
    match cur_fe {
        Some(mut f) => {
            let opts = {
                let mode_str = match &f.mode {
                    Some(m) => m.as_str(),
                    None => "tcp",
                };
                match Options::from_strings(f.option.as_slice(), mode_str) {
                    Ok(o) => o,
                    Err(e) => {
                        return Err(e);
                    },
                }
            };
            proof {
                assert(options::spec_lines_of(f.option@) =~= opt_lines(strs_view(f.option@)));
            }
            f.options = Some(opts);
            push_fe(frontends, f);
        },
        None => {},
    }
    match cur_be {
        Some(mut b) => {
            let opts = {
                let mode_str = match &b.mode {
                    Some(m) => m.as_str(),
                    None => "tcp",
                };
                match Options::from_strings(b.option.as_slice(), mode_str) {
                    Ok(o) => o,
                    Err(e) => {
                        return Err(e);
                    },
                }
            };
            proof {
                assert(options::spec_lines_of(b.option@) =~= opt_lines(strs_view(b.option@)));
            }
            b.options = Some(opts);
            b.health_check = create_health_check_config(&b);
            push_be(backends, b);
        },
        None => {},
    }
    Ok(())
}

/// Read one configuration line into the reader state.
#[verifier::rlimit(100)]
fn handle_line(
    global: &mut GlobalConfig,
    defaults: &mut DefaultsConfig,
    frontends: &mut Vec<FrontendConfig>,
    backends: &mut Vec<BackendConfig>,
    stats_binds: &mut Vec<String>,
    section: &mut Section,
    cur_fe: &mut Option<FrontendConfig>,
    cur_be: &mut Option<BackendConfig>,
    line: &[u8],
) -> (r: Result<(), ConfigError>)
    requires
        scan::all_ascii(line@),
    ensures
        match spec_line_step(
            st_of(
                old(global)@,
                old(defaults)@,
                fes_view(old(frontends)@),
                bes_view(old(backends)@),
                strs_view(old(stats_binds)@),
                old(section)@,
                opt_fe_view(*old(cur_fe)),
                opt_be_view(*old(cur_be)),
            ),
            line@,
        ) {
            Some(stv) => r is Ok && st_of(
                final(global)@,
                final(defaults)@,
                fes_view(final(frontends)@),
                bes_view(final(backends)@),
                strs_view(final(stats_binds)@),
                final(section)@,
                opt_fe_view(*final(cur_fe)),
                opt_be_view(*final(cur_be)),
            ) == stv,
            None => r is Err,
        },
{
    proof {
        reveal(spec_line_step);
    }
    let tokens = scan::split_ws(line);
    let ghost toks = scan::spec_tokens(line@);
    proof {
        assert(tokens.deep_view() == toks);
        scan::lemma_tokens_wf(line@);
    }
    if tokens.len() == 0 {
        return Ok(());
    }
    let t0 = &tokens[0];
    proof {
        assert(t0@ == toks[0]);
        assert(toks_wf(toks));
    }
    if t0[0] == 35 {
        return Ok(());
    }
    let is_global = scan::is_lit(t0.as_slice(), "global");
    let is_defaults = scan::is_lit(t0.as_slice(), "defaults");
    let starts_fe = scan::starts_with(t0.as_slice(), "frontend".as_bytes());
    let starts_be = scan::starts_with(t0.as_slice(), "backend".as_bytes());
    if is_global || is_defaults || starts_fe || starts_be {
        let mut fe_taken: Option<FrontendConfig> = None;
        let mut be_taken: Option<BackendConfig> = None;
        core::mem::swap(cur_fe, &mut fe_taken);
        core::mem::swap(cur_be, &mut be_taken);
        match close_sections(frontends, backends, fe_taken, be_taken) {
            Ok(()) => {},
            Err(e) => {
                return Err(e);
            },
        }
        if is_global {
            *section = Section::InGlobal;
        } else if is_defaults {
            *section = Section::InDefaults;
        } else if scan::is_lit(t0.as_slice(), "frontend") {
            if tokens.len() >= 2 {
                let name_tok = &tokens[1];
                proof {
                    assert(name_tok@ == toks[1]);
                }
                *section = Section::InFrontend;
                let nf = FrontendConfig {
                    name: scan::tok_to_string(name_tok.as_slice()),
                    bind: Vec::new(),
                    mode: None,
                    default_backend: None,
                    acl: Vec::new(),
                    use_backend: Vec::new(),
                    option: Vec::new(),
                    timeout: Vec::new(),
                    options: None,
                };
                proof {
                    assert(nf@.bind =~= Seq::<Seq<char>>::empty());
                    assert(nf@.acl =~= Seq::<AclV>::empty());
                    assert(nf@.use_backend =~= Seq::<UseBackendV>::empty());
                    assert(nf@.option =~= Seq::<Seq<char>>::empty());
                    assert(nf@.timeout =~= Seq::<(Seq<char>, Seq<char>)>::empty());
                    assert(nf@ == spec_fresh_fe(scan::ascii_view(toks[1])));
                }
                *cur_fe = Some(nf);
            } else {
                *section = Section::Other;
            }
        } else if scan::is_lit(t0.as_slice(), "backend") {
            if tokens.len() >= 2 {
                let name_tok = &tokens[1];
                proof {
                    assert(name_tok@ == toks[1]);
                }
                *section = Section::InBackend;
                let nb = BackendConfig {
                    name: scan::tok_to_string(name_tok.as_slice()),
                    mode: None,
                    balance: None,
                    server: Vec::new(),
                    option: Vec::new(),
                    timeout: Vec::new(),
                    health_check: None,
                    options: None,
                    retries: None,
                };
                proof {
                    assert(nb@.server =~= Seq::<ServerV>::empty());
                    assert(nb@.option =~= Seq::<Seq<char>>::empty());
                    assert(nb@.timeout =~= Seq::<(Seq<char>, Seq<char>)>::empty());
                    assert(nb@ == spec_fresh_be(scan::ascii_view(toks[1])));
                }
                *cur_be = Some(nb);
            } else {
                *section = Section::Other;
            }
        } else {
            *section = Section::Other;
        }
        return Ok(());
    }
    if tokens.len() < 2 {
        return Err(ConfigError::InvalidDirective);
    }
    match section {
        Section::InGlobal => {
            let t1 = &tokens[1];
            proof {
                assert(t1@ == toks[1]);
            }
            if scan::is_lit(t0.as_slice(), "stats") && scan::starts_with(
                t1.as_slice(),
                "bind".as_bytes(),
            ) {
                if tokens.len() >= 3 {
                    let t2 = &tokens[2];
                    proof {
                        assert(t2@ == toks[2]);
                    }
                    push_entry(stats_binds, scan::tok_to_string(t2.as_slice()));
                }
                Ok(())
            } else {
                parse_global_directive(global, &tokens)
            }
        },
        Section::InDefaults => parse_defaults_directive(defaults, &tokens),
        Section::InFrontend => {
            match cur_fe {
                Some(f) => {
                    parse_frontend_directive(f, &tokens);
                },
                None => {},
            }
            Ok(())
        },
        Section::InBackend => {
            match cur_be {
                Some(b) => parse_backend_directive(b, &tokens),
                None => Ok(()),
            }
        },
        _ => Ok(()),
    }
}


/// The last `KEY N` option entry with this marker, read as a number.
pub open spec fn spec_opt_num(opts: Seq<Seq<u8>>, key: Seq<u8>, max: nat) -> Option<u64>
    decreases opts.len(),
{
    if opts.len() == 0 {
        None
    } else {
        let t = scan::spec_tokens(opts.last());
        if t.len() >= 2 && t[0] == key && scan::is_number(t[1]) && scan::digits_val(t[1]) <= max {
            Some(scan::digits_val(t[1]) as u64)
        } else {
            spec_opt_num(opts.drop_last(), key, max)
        }
    }
}

/// The rate-limit settings stored in the global option list: present exactly
/// when both a request rate and a burst size were given, each last-wins.
pub open spec fn spec_rate_limit_of(opts: Seq<Seq<u8>>) -> Option<RateLimitV> {
    let rps = spec_opt_num(opts, "rate-limit-rps".spec_bytes(), u32::MAX as nat);
    let burst = spec_opt_num(opts, "rate-limit-burst".spec_bytes(), u32::MAX as nat);
    if rps is Some && burst is Some {
        Some(
            RateLimitV {
                requests_per_second: rps->Some_0 as u32,
                burst_size: burst->Some_0 as u32,
                window_size: 1,
            },
        )
    } else {
        None
    }
}

/// The last `ddos-protection SUB N` entry, read as a number.
pub open spec fn spec_ddos_num(opts: Seq<Seq<u8>>, sub: Seq<u8>, max: nat) -> Option<u64>
    decreases opts.len(),
{
    if opts.len() == 0 {
        None
    } else {
        let t = scan::spec_tokens(opts.last());
        if t.len() >= 3 && t[0] == "ddos-protection".spec_bytes() && t[1] == sub && scan::is_number(
            t[2],
        ) && scan::digits_val(t[2]) <= max {
            Some(scan::digits_val(t[2]) as u64)
        } else {
            spec_ddos_num(opts.drop_last(), sub, max)
        }
    }
}

/// All `ddos-protection SUB VALUE` entries, in order.
pub open spec fn spec_ddos_list(opts: Seq<Seq<u8>>, sub: Seq<u8>) -> Seq<Seq<char>>
    decreases opts.len(),
{
    if opts.len() == 0 {
        Seq::empty()
    } else {
        let t = scan::spec_tokens(opts.last());
        spec_ddos_list(opts.drop_last(), sub) + if t.len() >= 3 && t[0]
            == "ddos-protection".spec_bytes() && t[1] == sub && scan::all_ascii(t[2]) {
            seq![scan::ascii_view(t[2])]
        } else {
            Seq::empty()
        }
    }
}

/// The flood-protection settings stored in the global option list; the reset
/// interval defaults to a minute.
pub open spec fn spec_ddos_of(opts: Seq<Seq<u8>>) -> DdosProtectionV {
    DdosProtectionV {
        reset_interval_seconds: match spec_ddos_num(
            opts,
            "reset-interval-seconds".spec_bytes(),
            u64::MAX as nat,
        ) {
            Some(v) => v,
            None => 60,
        },
        max_requests_per_minute: match spec_ddos_num(
            opts,
            "max-requests-per-minute".spec_bytes(),
            u32::MAX as nat,
        ) {
            Some(v) => Some(v as u32),
            None => None,
        },
        max_connections_per_ip: match spec_ddos_num(
            opts,
            "max-connections-per-ip".spec_bytes(),
            u32::MAX as nat,
        ) {
            Some(v) => Some(v as u32),
            None => None,
        },
        suspicious_patterns: spec_ddos_list(opts, "suspicious-pattern".spec_bytes()),
        whitelist: spec_ddos_list(opts, "whitelist".spec_bytes()),
        blacklist: spec_ddos_list(opts, "blacklist".spec_bytes()),
    }
}

/// The last `KEY enabled|...` entry for a compression toggle.
pub open spec fn spec_comp_flag(opts: Seq<Seq<u8>>, key: Seq<u8>) -> Option<bool>
    decreases opts.len(),
{
    if opts.len() == 0 {
        None
    } else {
        let t = scan::spec_tokens(opts.last());
        if t.len() >= 2 && t[0] == key {
            Some(t[1] == "enabled".spec_bytes())
        } else {
            spec_comp_flag(opts.drop_last(), key)
        }
    }
}

/// The compression settings stored in the global option list: present
/// exactly when some codec was enabled.
pub open spec fn spec_compression_of(opts: Seq<Seq<u8>>) -> Option<CompressionV> {
    let gz = spec_comp_flag(opts, "compression-gzip".spec_bytes()) == Some(true);
    let br = spec_comp_flag(opts, "compression-brotli".spec_bytes()) == Some(true);
    let df = spec_comp_flag(opts, "compression-deflate".spec_bytes()) == Some(true);
    if gz || br || df {
        Some(
            CompressionV {
                gzip_enabled: gz,
                brotli_enabled: br,
                deflate_enabled: df,
                min_size: match spec_opt_num(
                    opts,
                    "compression-min-size".spec_bytes(),
                    usize::MAX as nat,
                ) {
                    Some(v) => v as usize,
                    None => 1024,
                },
                max_size: match spec_opt_num(
                    opts,
                    "compression-max-size".spec_bytes(),
                    usize::MAX as nat,
                ) {
                    Some(v) => v as usize,
                    None => 1048576,
                },
                compression_level: match spec_opt_num(
                    opts,
                    "compression-level".spec_bytes(),
                    u32::MAX as nat,
                ) {
                    Some(v) => v as u32,
                    None => 6,
                },
                content_types: seq![
                    "text/plain"@,
                    "text/html"@,
                    "text/css"@,
                    "application/javascript"@,
                    "application/json"@,
                ],
            },
        )
    } else {
        None
    }
}

/// Scan an option list for the last numeric entry under this marker.
fn find_opt_num(opts: &Vec<String>, key: &str, max: u64) -> (r: Option<u64>)
    ensures
        r == spec_opt_num(opt_lines(strs_view(opts@)), key.spec_bytes(), max as nat),
{
    let ghost lines = opt_lines(strs_view(opts@));
    let mut r: Option<u64> = None;
    let mut i: usize = 0;
    proof {
        assert(lines.take(0) =~= Seq::<Seq<u8>>::empty());
    }
    while i < opts.len()
        invariant
            i <= opts@.len(),
            lines == opt_lines(strs_view(opts@)),
            r == spec_opt_num(lines.take(i as int), key.spec_bytes(), max as nat),
            max <= u64::MAX,
        decreases opts@.len() - i,
    {
        let bytes = opts[i].as_str().as_bytes_vec();
        let tokens = scan::split_ws(bytes.as_slice());
        proof {
            assert(lines.take(i + 1).drop_last() =~= lines.take(i as int));
            assert(lines.take(i + 1).last() == vstd::utf8::encode_utf8(opts@[i as int]@));
            assert(tokens.deep_view() == scan::spec_tokens(lines.take(i + 1).last()));
        }
        if tokens.len() >= 2 {
            let t0 = &tokens[0];
            let t1 = &tokens[1];
            proof {
                assert(t0@ == tokens.deep_view()[0]);
                assert(t1@ == tokens.deep_view()[1]);
            }
            if scan::is_lit(t0.as_slice(), key) {
                match scan::parse_u64(t1.as_slice()) {
                    Some(n) => if n <= max {
                        r = Some(n);
                    },
                    None => {},
                }
            }
        }
        i += 1;
    }
    proof {
        assert(lines.take(i as int) =~= lines);
    }
    r
}

impl Config {
    /// Read the rate-limit settings out of the parsed global options.
    pub fn parse_rate_limit_config(config: &mut Config) -> (r: Result<(), ConfigError>)
        ensures
            r is Ok,
            final(config)@ == (ConfigV {
                rate_limit: spec_rate_limit_of(opt_lines(old(config)@.global.option)),
                ..old(config)@
            }),
    {
        let rps = find_opt_num(&config.global.option, "rate-limit-rps", u32::MAX as u64);
        let burst = find_opt_num(&config.global.option, "rate-limit-burst", u32::MAX as u64);
        match (rps, burst) {
            (Some(r0), Some(b0)) => {
                config.rate_limit = Some(
                    RateLimitConfig {
                        requests_per_second: r0 as u32,
                        burst_size: b0 as u32,
                        window_size: 1,
                    },
                );
            },
            _ => {
                config.rate_limit = None;
            },
        }
        Ok(())
    }

    /// Read the flood-protection settings out of the parsed global options.
    pub fn parse_ddos_protection_config(config: &mut Config) -> (r: Result<(), ConfigError>)
        ensures
            r is Ok,
            final(config)@ == (ConfigV {
                ddos_protection: Some(spec_ddos_of(opt_lines(old(config)@.global.option))),
                ..old(config)@
            }),
    {
        let reset = match find_ddos_num(&config.global.option, "reset-interval-seconds", u64::MAX) {
            Some(v) => v,
            None => 60,
        };
        let max_rpm = match find_ddos_num(
            &config.global.option,
            "max-requests-per-minute",
            u32::MAX as u64,
        ) {
            Some(v) => Some(v as u32),
            None => None,
        };
        let max_conn = match find_ddos_num(
            &config.global.option,
            "max-connections-per-ip",
            u32::MAX as u64,
        ) {
            Some(v) => Some(v as u32),
            None => None,
        };
        let patterns = find_ddos_list(&config.global.option, "suspicious-pattern");
        let whitelist = find_ddos_list(&config.global.option, "whitelist");
        let blacklist = find_ddos_list(&config.global.option, "blacklist");
        config.ddos_protection = Some(
            DdosProtectionConfig {
                reset_interval_seconds: reset,
                max_requests_per_minute: max_rpm,
                max_connections_per_ip: max_conn,
                suspicious_patterns: patterns,
                whitelist,
                blacklist,
            },
        );
        Ok(())
    }

    /// Read the compression settings out of the parsed global options.
    pub fn parse_compression_config(config: &mut Config) -> (r: Result<(), ConfigError>)
        ensures
            r is Ok,
            final(config)@ == (ConfigV {
                compression: spec_compression_of(opt_lines(old(config)@.global.option)),
                ..old(config)@
            }),
    {
        let gz = match find_comp_flag(&config.global.option, "compression-gzip") {
            Some(b) => b,
            None => false,
        };
        let br = match find_comp_flag(&config.global.option, "compression-brotli") {
            Some(b) => b,
            None => false,
        };
        let df = match find_comp_flag(&config.global.option, "compression-deflate") {
            Some(b) => b,
            None => false,
        };
        if gz || br || df {
            let min_size = match find_opt_num(
                &config.global.option,
                "compression-min-size",
                usize::MAX as u64,
            ) {
                Some(v) => v as usize,
                None => 1024,
            };
            let max_size = match find_opt_num(
                &config.global.option,
                "compression-max-size",
                usize::MAX as u64,
            ) {
                Some(v) => v as usize,
                None => 1048576,
            };
            let level = match find_opt_num(
                &config.global.option,
                "compression-level",
                u32::MAX as u64,
            ) {
                Some(v) => v as u32,
                None => 6,
            };
            let mut content_types: Vec<String> = Vec::new();
            content_types.push("text/plain".to_owned());
            content_types.push("text/html".to_owned());
            content_types.push("text/css".to_owned());
            content_types.push("application/javascript".to_owned());
            content_types.push("application/json".to_owned());
            proof {
                assert(strs_view(content_types@) =~= seq![
                    "text/plain"@,
                    "text/html"@,
                    "text/css"@,
                    "application/javascript"@,
                    "application/json"@,
                ]);
            }
            config.compression = Some(
                CompressionConfig {
                    gzip_enabled: gz,
                    brotli_enabled: br,
                    deflate_enabled: df,
                    min_size,
                    max_size,
                    compression_level: level,
                    content_types,
                },
            );
        } else {
            config.compression = None;
        }
        Ok(())
    }
}

/// Scan an option list for the last numeric flood-protection entry.
fn find_ddos_num(opts: &Vec<String>, sub: &str, max: u64) -> (r: Option<u64>)
    ensures
        r == spec_ddos_num(opt_lines(strs_view(opts@)), sub.spec_bytes(), max as nat),
{
    let ghost lines = opt_lines(strs_view(opts@));
    let mut r: Option<u64> = None;
    let mut i: usize = 0;
    proof {
        assert(lines.take(0) =~= Seq::<Seq<u8>>::empty());
    }
    while i < opts.len()
        invariant
            i <= opts@.len(),
            lines == opt_lines(strs_view(opts@)),
            r == spec_ddos_num(lines.take(i as int), sub.spec_bytes(), max as nat),
            max <= u64::MAX,
        decreases opts@.len() - i,
    {
        let bytes = opts[i].as_str().as_bytes_vec();
        let tokens = scan::split_ws(bytes.as_slice());
        proof {
            assert(lines.take(i + 1).drop_last() =~= lines.take(i as int));
            assert(lines.take(i + 1).last() == vstd::utf8::encode_utf8(opts@[i as int]@));
            assert(tokens.deep_view() == scan::spec_tokens(lines.take(i + 1).last()));
        }
        if tokens.len() >= 3 {
            let t0 = &tokens[0];
            let t1 = &tokens[1];
            let t2 = &tokens[2];
            proof {
                assert(t0@ == tokens.deep_view()[0]);
                assert(t1@ == tokens.deep_view()[1]);
                assert(t2@ == tokens.deep_view()[2]);
            }
            if scan::is_lit(t0.as_slice(), "ddos-protection") && scan::is_lit(t1.as_slice(), sub) {
                match scan::parse_u64(t2.as_slice()) {
                    Some(n) => if n <= max {
                        r = Some(n);
                    },
                    None => {},
                }
            }
        }
        i += 1;
    }
    proof {
        assert(lines.take(i as int) =~= lines);
    }
    r
}

/// Collect the values of all flood-protection entries under this marker.
fn find_ddos_list(opts: &Vec<String>, sub: &str) -> (r: Vec<String>)
    ensures
        strs_view(r@) == spec_ddos_list(opt_lines(strs_view(opts@)), sub.spec_bytes()),
{
    let ghost lines = opt_lines(strs_view(opts@));
    let mut r: Vec<String> = Vec::new();
    let mut i: usize = 0;
    proof {
        assert(lines.take(0) =~= Seq::<Seq<u8>>::empty());
        assert(strs_view(r@) =~= spec_ddos_list(lines.take(0), sub.spec_bytes()));
    }
    while i < opts.len()
        invariant
            i <= opts@.len(),
            lines == opt_lines(strs_view(opts@)),
            strs_view(r@) == spec_ddos_list(lines.take(i as int), sub.spec_bytes()),
        decreases opts@.len() - i,
    {
        let bytes = opts[i].as_str().as_bytes_vec();
        let tokens = scan::split_ws(bytes.as_slice());
        proof {
            assert(lines.take(i + 1).drop_last() =~= lines.take(i as int));
            assert(lines.take(i + 1).last() == vstd::utf8::encode_utf8(opts@[i as int]@));
            assert(tokens.deep_view() == scan::spec_tokens(lines.take(i + 1).last()));
        }
        let ghost before = strs_view(r@);
        if tokens.len() >= 3 {
            let t0 = &tokens[0];
            let t1 = &tokens[1];
            let t2 = &tokens[2];
            proof {
                assert(t0@ == tokens.deep_view()[0]);
                assert(t1@ == tokens.deep_view()[1]);
                assert(t2@ == tokens.deep_view()[2]);
            }
            if scan::is_lit(t0.as_slice(), "ddos-protection") && scan::is_lit(t1.as_slice(), sub)
                && scan::check_ascii(t2.as_slice()) {
                push_entry(&mut r, scan::tok_to_string(t2.as_slice()));
            }
        }
        proof {
            assert(strs_view(r@) =~= spec_ddos_list(lines.take(i + 1), sub.spec_bytes()));
        }
        i += 1;
    }
    proof {
        assert(lines.take(i as int) =~= lines);
    }
    r
}

/// Scan an option list for the last compression toggle under this marker.
fn find_comp_flag(opts: &Vec<String>, key: &str) -> (r: Option<bool>)
    ensures
        r == spec_comp_flag(opt_lines(strs_view(opts@)), key.spec_bytes()),
{
    let ghost lines = opt_lines(strs_view(opts@));
    let mut r: Option<bool> = None;
    let mut i: usize = 0;
    proof {
        assert(lines.take(0) =~= Seq::<Seq<u8>>::empty());
    }
    while i < opts.len()
        invariant
            i <= opts@.len(),
            lines == opt_lines(strs_view(opts@)),
            r == spec_comp_flag(lines.take(i as int), key.spec_bytes()),
        decreases opts@.len() - i,
    {
        let bytes = opts[i].as_str().as_bytes_vec();
        let tokens = scan::split_ws(bytes.as_slice());
        proof {
            assert(lines.take(i + 1).drop_last() =~= lines.take(i as int));
            assert(lines.take(i + 1).last() == vstd::utf8::encode_utf8(opts@[i as int]@));
            assert(tokens.deep_view() == scan::spec_tokens(lines.take(i + 1).last()));
        }
        if tokens.len() >= 2 {
            let t0 = &tokens[0];
            let t1 = &tokens[1];
            proof {
                assert(t0@ == tokens.deep_view()[0]);
                assert(t1@ == tokens.deep_view()[1]);
            }
            if scan::is_lit(t0.as_slice(), key) {
                r = Some(scan::is_lit(t1.as_slice(), "enabled"));
            }
        }
        i += 1;
    }
    proof {
        assert(lines.take(i as int) =~= lines);
    }
    r
}


/// What a whole configuration text parses to, or `None` on a configuration
/// error: read every line, close the last section, build the defaults'
/// options block, point metrics at the first `stats bind` address, and read
/// the rate-limit, flood-protection and compression settings out of the
/// collected global options.
pub open spec fn spec_parse_config(s: Seq<u8>) -> Option<ConfigV> {
    match spec_parse_lines(ParseStV::init(), scan::spec_split(s, 10)) {
        None => None,
        Some(st0) => {
            let st = spec_close(st0);
            let d_mode = match st.defaults.mode {
                Some(m) => m,
                None => "tcp"@,
            };
            let defaults = DefaultsV {
                options: Some(
                    options::spec_apply_options(
                        OptionsV::init(),
                        opt_lines(st.defaults.option),
                        d_mode == "http"@,
                    ),
                ),
                ..st.defaults
            };
            let metrics = if st.stats_binds.len() > 0 {
                MetricsV { bind: Some(st.stats_binds[0]), ..MetricsV::init() }
            } else {
                MetricsV::init()
            };
            Some(
                ConfigV {
                    global: st.global,
                    defaults,
                    frontends: st.frontends,
                    backends: st.backends,
                    metrics,
                    rate_limit: spec_rate_limit_of(opt_lines(st.global.option)),
                    ddos_protection: Some(spec_ddos_of(opt_lines(st.global.option))),
                    hot_reload: None,
                    compression: spec_compression_of(opt_lines(st.global.option)),
                },
            )
        },
    }
}

impl Config {
    /// Parse a configuration text. The text must be ASCII; a malformed
    /// directive is an error, unknown directives are ignored.
    #[verifier::rlimit(100)]
    pub fn from_haproxy_config(content: &str) -> (r: Result<Config, ConfigError>)
        ensures
            !vstd::string::is_ascii(content) ==> r matches Err(ConfigError::NotAscii),
            vstd::string::is_ascii(content) ==> match spec_parse_config(content.spec_bytes()) {
                Some(cv) => r matches Ok(c) && c@ == cv,
                None => r is Err,
            },
    {
        if !content.is_ascii() {
            return Err(ConfigError::NotAscii);
        }
        let bytes = content.as_bytes_vec();
        proof {
            broadcast use vstd::string::is_ascii_spec_bytes;

            assert(scan::all_ascii(bytes@));
        }
        let lines = scan::split_on(bytes.as_slice(), 10);
        let ghost lines_v = scan::spec_split(content.spec_bytes(), 10);
        proof {
            assert(lines.deep_view() == lines_v);
            lemma_split_pieces_ascii(bytes@, 10);
        }
        let mut global = GlobalConfig::default();
        let mut defaults = DefaultsConfig::default();
        let mut frontends: Vec<FrontendConfig> = Vec::new();
        let mut backends: Vec<BackendConfig> = Vec::new();
        let mut stats_binds: Vec<String> = Vec::new();
        let mut section = Section::Outside;
        let mut cur_fe: Option<FrontendConfig> = None;
        let mut cur_be: Option<BackendConfig> = None;
        let mut i: usize = 0;
        proof {
            assert(fes_view(frontends@) =~= Seq::<FrontendV>::empty());
            assert(bes_view(backends@) =~= Seq::<BackendV>::empty());
            assert(strs_view(stats_binds@) =~= Seq::<Seq<char>>::empty());
            assert(lines_v.take(0) =~= Seq::<Seq<u8>>::empty());
            assert(st_of(
                global@,
                defaults@,
                fes_view(frontends@),
                bes_view(backends@),
                strs_view(stats_binds@),
                section@,
                opt_fe_view(cur_fe),
                opt_be_view(cur_be),
            ) == ParseStV::init());
        }
        while i < lines.len()
            invariant
                i <= lines@.len(),
                lines.deep_view() == lines_v,
                vstd::string::is_ascii(content),
                lines_v == scan::spec_split(content.spec_bytes(), 10),
                forall|k: int|
                    0 <= k < lines_v.len() ==> scan::all_ascii(#[trigger] lines_v[k]),
                spec_parse_lines(ParseStV::init(), lines_v.take(i as int)) == Some(
                    st_of(
                        global@,
                        defaults@,
                        fes_view(frontends@),
                        bes_view(backends@),
                        strs_view(stats_binds@),
                        section@,
                        opt_fe_view(cur_fe),
                        opt_be_view(cur_be),
                    ),
                ),
            decreases lines@.len() - i,
        {
            let line = &lines[i];
            proof {
                assert(line@ == lines_v[i as int]);
                assert(lines_v.take(i + 1).drop_last() =~= lines_v.take(i as int));
                assert(lines_v.take(i + 1).last() == lines_v[i as int]);
            }
            match handle_line(
                &mut global,
                &mut defaults,
                &mut frontends,
                &mut backends,
                &mut stats_binds,
                &mut section,
                &mut cur_fe,
                &mut cur_be,
                line.as_slice(),
            ) {
                Ok(()) => {},
                Err(e) => {
                    proof {
                        assert(spec_parse_lines(ParseStV::init(), lines_v.take(i + 1)) is None);
                        lemma_parse_lines_extend_none(ParseStV::init(), lines_v, i + 1);
                    }
                    return Err(e);
                },
            }
            i += 1;
        }
        proof {
            assert(lines_v.take(i as int) =~= lines_v);
        }
        let ghost st0 = st_of(
            global@,
            defaults@,
            fes_view(frontends@),
            bes_view(backends@),
            strs_view(stats_binds@),
            section@,
            opt_fe_view(cur_fe),
            opt_be_view(cur_be),
        );
        match close_sections(&mut frontends, &mut backends, cur_fe, cur_be) {
            Ok(()) => {},
            Err(e) => {
                return Err(e);
            },
        }
        let d_opts = {
            let mode_str = match &defaults.mode {
                Some(m) => m.as_str(),
                None => "tcp",
            };
            match Options::from_strings(defaults.option.as_slice(), mode_str) {
                Ok(o) => o,
                Err(e) => {
                    return Err(e);
                },
            }
        };
        proof {
            assert(options::spec_lines_of(defaults.option@) =~= opt_lines(
                strs_view(defaults.option@),
            ));
        }
        defaults.options = Some(d_opts);
        let mut metrics = MetricsConfig::default();
        if stats_binds.len() > 0 {
            metrics.bind = Some(clone_string(&stats_binds[0]));
        }
        let mut config = Config {
            global,
            defaults,
            frontends,
            backends,
            metrics,
            rate_limit: None,
            ddos_protection: None,
            hot_reload: None,
            compression: None,
        };
        match Config::parse_rate_limit_config(&mut config) {
            Ok(()) => {},
            Err(e) => {
                return Err(e);
            },
        }
        match Config::parse_ddos_protection_config(&mut config) {
            Ok(()) => {},
            Err(e) => {
                return Err(e);
            },
        }
        match Config::parse_compression_config(&mut config) {
            Ok(()) => {},
            Err(e) => {
                return Err(e);
            },
        }
        proof {
            assert(spec_close(st0).frontends == fes_view(config.frontends@));
            assert(spec_close(st0).backends == bes_view(config.backends@));
            assert(config@ == spec_parse_config(content.spec_bytes())->Some_0);
        }
        Ok(config)
    }
}


/// Once a line has failed, the whole text fails.
proof fn lemma_parse_lines_extend_none(st: ParseStV, lines: Seq<Seq<u8>>, i: int)
    requires
        0 <= i <= lines.len(),
        spec_parse_lines(st, lines.take(i)) is None,
    ensures
        spec_parse_lines(st, lines) is None,
    decreases lines.len() - i,
{
    if i < lines.len() {
        assert(lines.take(i + 1).drop_last() =~= lines.take(i));
        assert(spec_parse_lines(st, lines.take(i + 1)) is None);
        lemma_parse_lines_extend_none(st, lines, i + 1);
    } else {
        assert(lines.take(i) =~= lines);
    }
}


/// No two servers of a backend share a name.
pub open spec fn spec_servers_unique(servers: Seq<ServerConfig>) -> bool {
    forall|a: int, b: int|
        0 <= a < b < servers.len() ==> (#[trigger] servers[a]).name@ != (#[trigger] servers[b]).name@
}

/// The first pair of equal backend names, if any.
fn find_dup_backend(backends: &Vec<BackendConfig>) -> (r: Option<usize>)
    ensures
        match r {
            Some(b) => b < backends@.len() && exists|a: int|
                0 <= a < b && (#[trigger] backends@[a]).name@ == backends@[b as int].name@,
            None => forall|a: int, b: int|
                0 <= a < b < backends@.len() ==> (#[trigger] backends@[a]).name@
                    != (#[trigger] backends@[b]).name@,
        },
{
    let mut a: usize = 0;
    while a < backends.len()
        invariant
            a <= backends@.len(),
            forall|i: int, j: int|
                0 <= i < j < backends@.len() && i < a ==> (#[trigger] backends@[i]).name@
                    != (#[trigger] backends@[j]).name@,
        decreases backends@.len() - a,
    {
        let mut b: usize = a + 1;
        while b < backends.len()
            invariant
                a < b <= backends@.len(),
                a < backends@.len(),
                forall|i: int, j: int|
                    0 <= i < j < backends@.len() && i < a ==> (#[trigger] backends@[i]).name@
                        != (#[trigger] backends@[j]).name@,
                forall|j: int|
                    a < j < b ==> (#[trigger] backends@[j]).name@ != backends@[a as int].name@,
            decreases backends@.len() - b,
        {
            if scan::str_eq(backends[a].name.as_str(), backends[b].name.as_str()) {
                proof {
                    assert(backends@[a as int].name@ == backends@[b as int].name@);
                }
                return Some(b);
            }
            b += 1;
        }
        a += 1;
    }
    None
}

/// The first pair of equal server names in one backend, if any.
fn find_dup_server(servers: &Vec<ServerConfig>) -> (r: Option<usize>)
    ensures
        match r {
            Some(b) => b < servers@.len() && exists|a: int|
                0 <= a < b && (#[trigger] servers@[a]).name@ == servers@[b as int].name@,
            None => spec_servers_unique(servers@),
        },
{
    let mut a: usize = 0;
    while a < servers.len()
        invariant
            a <= servers@.len(),
            forall|i: int, j: int|
                0 <= i < j < servers@.len() && i < a ==> (#[trigger] servers@[i]).name@
                    != (#[trigger] servers@[j]).name@,
        decreases servers@.len() - a,
    {
        let mut b: usize = a + 1;
        while b < servers.len()
            invariant
                a < b <= servers@.len(),
                a < servers@.len(),
                forall|i: int, j: int|
                    0 <= i < j < servers@.len() && i < a ==> (#[trigger] servers@[i]).name@
                        != (#[trigger] servers@[j]).name@,
                forall|j: int|
                    a < j < b ==> (#[trigger] servers@[j]).name@ != servers@[a as int].name@,
            decreases servers@.len() - b,
        {
            if scan::str_eq(servers[a].name.as_str(), servers[b].name.as_str()) {
                proof {
                    assert(servers@[a as int].name@ == servers@[b as int].name@);
                }
                return Some(b);
            }
            b += 1;
        }
        a += 1;
    }
    None
}

/// A copy of a string with the same characters.
pub fn clone_string(s: &String) -> (r: String)
    ensures
        r@ == s@,
{
    s.clone()
}

} // verus!
