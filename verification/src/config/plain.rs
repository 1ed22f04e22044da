//! Configuration in plain fields, checked as a whole.
//!
//! Nothing in these types keeps a bad value out, so a configuration is checked
//! once it is complete.
use crate::config::loading::{
    found_in, name_of, number_var, port_of, server_vars, EnvProvider, ServerVars,
};
use crate::bytes::parse_decimal;
use crate::text::{blank, concat3, is_blank, number_string, string_of};
use vstd::prelude::*;
use vstd::string::*;
use vstd::utf8::*;

verus! {

/// How connections are shared between clients.
#[derive(Clone, Copy, Debug, PartialEq, Eq, Structural)]
pub enum RoutingMode {
    /// Each client has a backend connection of its own.
    Standard,
    /// Each command may go to another backend.
    PerCommand,
    /// Command by command until a client needs state.
    Hybrid,
}

impl Default for RoutingMode {
    fn default() -> (r: Self)
        ensures
            r == RoutingMode::Hybrid,
    {
        RoutingMode::Hybrid
    }
}

impl RoutingMode {
    pub fn supports_per_command_routing(&self) -> (r: bool)
        ensures
            r == (*self == RoutingMode::PerCommand || *self == RoutingMode::Hybrid),
    {
        matches!(self, RoutingMode::PerCommand | RoutingMode::Hybrid)
    }

    pub fn supports_stateful_commands(&self) -> (r: bool)
        ensures
            r == (*self == RoutingMode::Standard || *self == RoutingMode::Hybrid),
    {
        matches!(self, RoutingMode::Standard | RoutingMode::Hybrid)
    }
}

/// Size and lifetime of the article cache.
#[derive(Clone, Copy, Debug, PartialEq, Structural)]
pub struct CacheConfig {
    pub max_capacity: u64,
    pub ttl_secs: u64,
}

impl Default for CacheConfig {
    fn default() -> (r: Self)
        ensures
            r.max_capacity == 10_000,
            r.ttl_secs == 3600,
    {
        CacheConfig { max_capacity: 10_000, ttl_secs: 3600 }
    }
}

/// How often and how long backends are probed.
#[derive(Clone, Copy, Debug, PartialEq, Structural)]
pub struct HealthCheckConfig {
    pub interval_secs: u64,
    pub timeout_secs: u64,
    /// Failures in a row after which a backend counts as down.
    pub unhealthy_threshold: u32,
}

impl Default for HealthCheckConfig {
    fn default() -> (r: Self)
        ensures
            r.interval_secs == 30,
            r.timeout_secs == 5,
            r.unhealthy_threshold == 3,
    {
        HealthCheckConfig { interval_secs: 30, timeout_secs: 5, unhealthy_threshold: 3 }
    }
}

/// One backend server.
#[derive(Clone, Debug, PartialEq)]
pub struct ServerConfig {
    pub host: String,
    pub port: u16,
    pub name: String,
    pub username: Option<String>,
    pub password: Option<String>,
    pub max_connections: u32,
    pub use_tls: bool,
    pub tls_verify_cert: bool,
    pub tls_cert_path: Option<String>,
}

/// Connections per server where nothing else is asked.
pub fn default_max_connections() -> (r: u32)
    ensures
        r == 10,
{
    10
}

/// Certificates are verified.
pub fn default_tls_verify_cert() -> (r: bool)
    ensures
        r,
{
    true
}

/// The whole configuration.
#[derive(Clone, Debug, PartialEq)]
pub struct Config {
    pub servers: Vec<ServerConfig>,
    pub health_check: HealthCheckConfig,
    pub cache: Option<CacheConfig>,
}

impl Default for Config {
    fn default() -> (r: Self)
        ensures
            r.servers@.len() == 0,
            r.health_check == (HealthCheckConfig {
                interval_secs: 30,
                timeout_secs: 5,
                unhealthy_threshold: 3,
            }),
            r.cache is None,
    {
        Config {
            servers: Vec::new(),
            health_check: HealthCheckConfig::default(),
            cache: None,
        }
    }
}

/// What is wrong with a configuration. A server is named by its position.
#[derive(Clone, Copy, Debug, PartialEq, Eq, Structural)]
pub enum ConfigRefusal {
    NoServers,
    EmptyName(usize),
    EmptyHost(usize),
    PortZero(usize),
    NoConnections(usize),
    HealthInterval,
    HealthTimeout,
    HealthThreshold,
    CacheCapacity,
    CacheTtl,
}

/// What is wrong with the server at position `i`, if anything is.
pub open spec fn server_refusal(server: ServerConfig, i: int) -> Option<ConfigRefusal> {
    if blank(server.name@) {
        Some(ConfigRefusal::EmptyName(i as usize))
    } else if blank(server.host@) {
        Some(ConfigRefusal::EmptyHost(i as usize))
    } else if server.port == 0 {
        Some(ConfigRefusal::PortZero(i as usize))
    } else if server.max_connections == 0 {
        Some(ConfigRefusal::NoConnections(i as usize))
    } else {
        None
    }
}

/// The first thing that is wrong with the first `n` servers.
pub open spec fn servers_refusal(servers: Seq<ServerConfig>, n: nat) -> Option<ConfigRefusal>
    decreases n,
{
    if n == 0 {
        None
    } else {
        match servers_refusal(servers, (n - 1) as nat) {
            Some(e) => Some(e),
            None => server_refusal(servers[n - 1], n - 1),
        }
    }
}

impl Config {
    /// The first thing that is wrong with the configuration: with its servers,
    /// then with the health check, then with the cache.
    pub open spec fn refusal(&self) -> Option<ConfigRefusal> {
        if self.servers@.len() == 0 {
            Some(ConfigRefusal::NoServers)
        } else {
            match servers_refusal(self.servers@, self.servers@.len()) {
                Some(e) => Some(e),
                None => if self.health_check.interval_secs == 0 {
                    Some(ConfigRefusal::HealthInterval)
                } else if self.health_check.timeout_secs == 0 {
                    Some(ConfigRefusal::HealthTimeout)
                } else if self.health_check.unhealthy_threshold == 0 {
                    Some(ConfigRefusal::HealthThreshold)
                } else {
                    match self.cache {
                        Some(c) => if c.max_capacity == 0 {
                            Some(ConfigRefusal::CacheCapacity)
                        } else if c.ttl_secs == 0 {
                            Some(ConfigRefusal::CacheTtl)
                        } else {
                            None
                        },
                        None => None,
                    }
                },
            }
        }
    }

    /// Checks the configuration.
    pub fn validate(&self) -> (r: Result<(), ConfigRefusal>)
        ensures
            match r {
                Ok(_) => self.refusal() is None,
                Err(e) => self.refusal() == Some(e),
            },
    {
        if self.servers.len() == 0 {
            return Err(ConfigRefusal::NoServers);
        }
        for i in 0..self.servers.len()
            invariant
                self.servers@.len() > 0,
                servers_refusal(self.servers@, i as nat) is None,
        {
            let server = &self.servers[i];
            let found = if is_blank(server.name.as_str()) {
                Some(ConfigRefusal::EmptyName(i))
            } else if is_blank(server.host.as_str()) {
                Some(ConfigRefusal::EmptyHost(i))
            } else if server.port == 0 {
                Some(ConfigRefusal::PortZero(i))
            } else if server.max_connections == 0 {
                Some(ConfigRefusal::NoConnections(i))
            } else {
                None
            };
            assert(found == server_refusal(self.servers@[i as int], i as int));
            if let Some(e) = found {
                proof {
                    lemma_first_refusal_stands(
                        self.servers@,
                        (i + 1) as nat,
                        self.servers@.len(),
                        e,
                    );
                }
                return Err(e);
            }
        }
        if self.health_check.interval_secs == 0 {
            return Err(ConfigRefusal::HealthInterval);
        }
        if self.health_check.timeout_secs == 0 {
            return Err(ConfigRefusal::HealthTimeout);
        }
        if self.health_check.unhealthy_threshold == 0 {
            return Err(ConfigRefusal::HealthThreshold);
        }
        if let Some(cache) = &self.cache {
            if cache.max_capacity == 0 {
                return Err(ConfigRefusal::CacheCapacity);
            }
            if cache.ttl_secs == 0 {
                return Err(ConfigRefusal::CacheTtl);
            }
        }
        Ok(())
    }

    /// The words for a refusal of this configuration.
    pub open spec fn refusal_text(&self, e: ConfigRefusal) -> Seq<char> {
        match e {
            ConfigRefusal::NoServers => "Configuration must have at least one server"@,
            ConfigRefusal::EmptyName(_) => "Server name cannot be empty"@,
            ConfigRefusal::EmptyHost(i) => "Server '"@ + self.servers@[i as int].name@
                + "' has empty host"@,
            ConfigRefusal::PortZero(i) => "Invalid port 0 for server '"@
                + self.servers@[i as int].name@ + "'"@,
            ConfigRefusal::NoConnections(i) => "max_connections must be > 0 for server '"@
                + self.servers@[i as int].name@ + "'"@,
            ConfigRefusal::HealthInterval => "health_check.interval_secs must be > 0"@,
            ConfigRefusal::HealthTimeout => "health_check.timeout_secs must be > 0"@,
            ConfigRefusal::HealthThreshold => "health_check.unhealthy_threshold must be > 0"@,
            ConfigRefusal::CacheCapacity => "cache.max_capacity must be > 0"@,
            ConfigRefusal::CacheTtl => "cache.ttl_secs must be > 0"@,
        }
    }

    /// The words for the refusal of this configuration.
    pub fn refusal_message(&self, e: ConfigRefusal) -> (r: String)
        requires
            self.refusal() == Some(e),
        ensures
            r@ == self.refusal_text(e),
    {
        proof {
            assert(self.servers@.len() == self.servers.len());
            lemma_refused_server_exists(self.servers@, self.servers@.len());
        }
        match e {
            ConfigRefusal::NoServers => string_of("Configuration must have at least one server"),
            ConfigRefusal::EmptyName(_) => string_of("Server name cannot be empty"),
            ConfigRefusal::EmptyHost(i) => concat3(
                "Server '",
                self.servers[i].name.as_str(),
                "' has empty host",
            ),
            ConfigRefusal::PortZero(i) => concat3(
                "Invalid port 0 for server '",
                self.servers[i].name.as_str(),
                "'",
            ),
            ConfigRefusal::NoConnections(i) => concat3(
                "max_connections must be > 0 for server '",
                self.servers[i].name.as_str(),
                "'",
            ),
            ConfigRefusal::HealthInterval => string_of("health_check.interval_secs must be > 0"),
            ConfigRefusal::HealthTimeout => string_of("health_check.timeout_secs must be > 0"),
            ConfigRefusal::HealthThreshold => string_of(
                "health_check.unhealthy_threshold must be > 0",
            ),
            ConfigRefusal::CacheCapacity => string_of("cache.max_capacity must be > 0"),
            ConfigRefusal::CacheTtl => string_of("cache.ttl_secs must be > 0"),
        }
    }
}

/// The first refusal among some servers is the first among more of them.
proof fn lemma_first_refusal_stands(
    servers: Seq<ServerConfig>,
    k: nat,
    n: nat,
    e: ConfigRefusal,
)
    requires
        k <= n,
        servers_refusal(servers, k) == Some(e),
    ensures
        servers_refusal(servers, n) == Some(e),
    decreases n,
{
    if k < n {
        lemma_first_refusal_stands(servers, k, (n - 1) as nat, e);
    }
}

/// A refusal of a server names one of the servers.
proof fn lemma_refused_server_exists(servers: Seq<ServerConfig>, n: nat)
    requires
        n <= servers.len(),
        servers.len() <= usize::MAX,
    ensures
        match servers_refusal(servers, n) {
            Some(ConfigRefusal::EmptyName(i)) => i < n,
            Some(ConfigRefusal::EmptyHost(i)) => i < n,
            Some(ConfigRefusal::PortZero(i)) => i < n,
            Some(ConfigRefusal::NoConnections(i)) => i < n,
            Some(_) => false,
            None => true,
        },
    decreases n,
{
    if n > 0 {
        lemma_refused_server_exists(servers, (n - 1) as nat);
    }
}

/// A configuration passes exactly when it names a server and every value in it
/// is one that can be used.
pub proof fn law_valid_configuration(config: Config)
    ensures
        (config.refusal() is None) == ({
            &&& config.servers@.len() > 0
            &&& forall|i: int|
                0 <= i < config.servers@.len() ==> {
                    let s = #[trigger] config.servers@[i];
                    !blank(s.name@) && !blank(s.host@) && s.port != 0 && s.max_connections != 0
                }
            &&& config.health_check.interval_secs != 0
            &&& config.health_check.timeout_secs != 0
            &&& config.health_check.unhealthy_threshold != 0
            &&& match config.cache {
                Some(c) => c.max_capacity != 0 && c.ttl_secs != 0,
                None => true,
            }
        }),
{
    lemma_no_server_refused(config.servers@, config.servers@.len());
}

proof fn lemma_no_server_refused(servers: Seq<ServerConfig>, n: nat)
    requires
        n <= servers.len(),
    ensures
        (servers_refusal(servers, n) is None) == (forall|i: int|
            0 <= i < n ==> {
                let s = #[trigger] servers[i];
                !blank(s.name@) && !blank(s.host@) && s.port != 0 && s.max_connections != 0
            }),
    decreases n,
{
    if n > 0 {
        lemma_no_server_refused(servers, (n - 1) as nat);
        assert(servers[n - 1] == servers[n - 1]);
    }
}

// ---------------------------------------------------------------------------
// Loading
// ---------------------------------------------------------------------------

/// `server` is what the variables describe.
pub open spec fn plainly_described(server: ServerConfig, index: nat, vars: ServerVars) -> bool {
    &&& vars.host is Some
    &&& server.host@ == vars.host->0@
    &&& server.port == port_of(vars)
    &&& server.name@ == name_of(index, vars)
    &&& server.username == vars.username
    &&& server.password == vars.password
    &&& server.max_connections == (match number_var(vars.max_connections, u32::MAX as nat) {
        Some(n) => n,
        None => 10,
    })
    &&& !server.use_tls
    &&& server.tls_verify_cert
    &&& server.tls_cert_path is None
}

/// The server that variables describe; none where no host is set.
pub fn plain_server_from_vars(index: usize, vars: ServerVars) -> (r: Option<ServerConfig>)
    ensures
        match r {
            Some(server) => plainly_described(server, index as nat, vars),
            None => vars.host is None,
        },
{
    let port: u16 = match &vars.port {
        Some(p) => match parse_decimal(p.as_str().as_bytes(), 65535) {
            Some(n) => n as u16,
            None => 119,
        },
        None => 119,
    };
    let max_connections: u32 = match &vars.max_connections {
        Some(m) => match parse_decimal(m.as_str().as_bytes(), u32::MAX as u64) {
            Some(n) => n as u32,
            None => default_max_connections(),
        },
        None => default_max_connections(),
    };
    let host = match vars.host {
        Some(h) => h,
        None => {
            return None;
        },
    };
    let name = match vars.name {
        Some(n) => n,
        None => {
            let number = number_string(index as u64);
            concat3("Server ", number.as_str(), "")
        },
    };
    Some(
        ServerConfig {
            host,
            port,
            name,
            username: vars.username,
            password: vars.password,
            max_connections,
            use_tls: false,
            tls_verify_cert: default_tls_verify_cert(),
            tls_cert_path: None,
        },
    )
}

/// `outcome` is what the environment says of server `index`.
pub open spec fn plainly_says<E: EnvProvider>(
    env: &E,
    index: usize,
    outcome: Option<ServerConfig>,
) -> bool {
    exists|vars: ServerVars| #[trigger]
        found_in(env, index as nat, vars) && match outcome {
            Some(server) => plainly_described(server, index as nat, vars),
            None => vars.host is None,
        }
}

/// The servers that the environment describes, from the first number on up to
/// the first that is missing; none where there is no first.
pub fn load_servers_from_env<E: EnvProvider>(env: &E) -> (r: Option<Vec<ServerConfig>>)
    ensures
        match r {
            Some(servers) => {
                &&& servers@.len() > 0
                &&& forall|i: int|
                    0 <= i < servers@.len() ==> plainly_says(
                        env,
                        i as usize,
                        Some(#[trigger] servers@[i]),
                    )
                &&& servers@.len() < usize::MAX ==> plainly_says(
                    env,
                    servers@.len() as usize,
                    None,
                )
            },
            None => plainly_says(env, 0, None),
        },
{
    let mut servers: Vec<ServerConfig> = Vec::new();
    let mut index: usize = 0;
    let mut more: bool = true;
    while more && index < usize::MAX
        invariant
            index == servers@.len(),
            forall|i: int|
                0 <= i < servers@.len() ==> plainly_says(
                    env,
                    i as usize,
                    Some(#[trigger] servers@[i]),
                ),
            !more ==> plainly_says(env, index, None),
        decreases usize::MAX - index, (if more { 1int } else { 0 }),
    {
        let vars = server_vars(env, index);
        assert(found_in(env, index as nat, vars));
        match plain_server_from_vars(index, vars) {
            Some(server) => {
                servers.push(server);
                index = index + 1;
            },
            None => {
                more = false;
            },
        }
    }
    if servers.len() == 0 {
        None
    } else {
        Some(servers)
    }
}

/// Puts the servers of the environment over those of a file, and checks the
/// outcome.
pub fn with_env_servers(config: Config, servers: Option<Vec<ServerConfig>>) -> (r: Result<
    Config,
    ConfigRefusal,
>)
    ensures
        ({
            let wanted = match servers {
                Some(s) => Config { servers: s, ..config },
                None => config,
            };
            match r {
                Ok(c) => wanted.refusal() is None && c == wanted,
                Err(e) => wanted.refusal() == Some(e),
            }
        }),
{
    let mut config = config;
    if let Some(list) = servers {
        config.servers = list;
    }
    match config.validate() {
        Ok(_) => Ok(config),
        Err(e) => Err(e),
    }
}

/// A configuration to start from, with one example server.
pub fn create_default_config() -> (r: Config)
    ensures
        r.servers@.len() == 1,
        r.servers@[0].host@ == "news.example.com"@,
        r.servers@[0].port == 119,
        r.servers@[0].name@ == "Example News Server"@,
        r.servers@[0].username is None,
        r.servers@[0].password is None,
        r.servers@[0].max_connections == 10,
        !r.servers@[0].use_tls,
        r.servers@[0].tls_verify_cert,
        r.servers@[0].tls_cert_path is None,
        r.health_check == (HealthCheckConfig {
            interval_secs: 30,
            timeout_secs: 5,
            unhealthy_threshold: 3,
        }),
        r.cache is None,
{
    let mut config = Config::default();
    config.servers.push(
        ServerConfig {
            host: string_of("news.example.com"),
            port: 119,
            name: string_of("Example News Server"),
            username: None,
            password: None,
            max_connections: default_max_connections(),
            use_tls: false,
            tls_verify_cert: default_tls_verify_cert(),
            tls_cert_path: None,
        },
    );
    config
}

/// A server that variables describe plainly is asked on port 119 over ten
/// connections where they say nothing else, and always without TLS.
pub proof fn law_plain_servers(server: ServerConfig, index: nat, vars: ServerVars, n: nat)
    requires
        plainly_described(server, index, vars),
    ensures
        vars.host is Some && server.host@ == vars.host->0@,
        server.username == vars.username,
        server.password == vars.password,
        vars.name is Some ==> server.name@ == vars.name->0@,
        vars.port is None ==> server.port == 119,
        vars.port is Some && vars.port->0@ == crate::text::decimal_text(n) && n <= 65535
            ==> server.port == n,
        vars.max_connections is None ==> server.max_connections == 10,
        vars.max_connections is Some && vars.max_connections->0@ == crate::text::decimal_text(n)
            && n <= u32::MAX ==> server.max_connections == n,
        !server.use_tls,
        server.tls_verify_cert,
        server.tls_cert_path is None,
{
    if vars.port is Some && vars.port->0@ == crate::text::decimal_text(n) {
        crate::config::loading::law_number_variables(vars.port->0, n, 65535);
    }
    if vars.max_connections is Some && vars.max_connections->0@ == crate::text::decimal_text(n) {
        crate::config::loading::law_number_variables(vars.max_connections->0, n, u32::MAX as nat);
    }
}

/// The words for a refused configuration: of a server they give its name between
/// quotes, of a number its place in the configuration and that it must be
/// greater than zero.
pub proof fn law_words_for_refusals(config: Config, e: ConfigRefusal)
    ensures
        config.refusal_text(e) == (match e {
            ConfigRefusal::NoServers => "Configuration must have"@ + " at least one server"@,
            ConfigRefusal::EmptyName(_) => "Server name"@ + " cannot be empty"@,
            ConfigRefusal::EmptyHost(i) => "Server "@ + seq!['\''] + config.servers@[i as int].name@
                + seq!['\''] + " has empty host"@,
            ConfigRefusal::PortZero(i) => "Invalid port 0 for server "@ + seq!['\'']
                + config.servers@[i as int].name@ + seq!['\''],
            ConfigRefusal::NoConnections(i) => "max_connections"@ + " must be > 0"@
                + " for server "@ + seq!['\''] + config.servers@[i as int].name@ + seq!['\''],
            ConfigRefusal::HealthInterval => "health_check."@ + "interval_secs"@
                + " must be > 0"@,
            ConfigRefusal::HealthTimeout => "health_check."@ + "timeout_secs"@ + " must be > 0"@,
            ConfigRefusal::HealthThreshold => "health_check."@ + "unhealthy_threshold"@
                + " must be > 0"@,
            ConfigRefusal::CacheCapacity => "cache."@ + "max_capacity"@ + " must be > 0"@,
            ConfigRefusal::CacheTtl => "cache."@ + "ttl_secs"@ + " must be > 0"@,
        }),
{
    reveal_strlit("Configuration must have");
    reveal_strlit(" at least one server");
    reveal_strlit("Configuration must have at least one server");
    reveal_strlit("Server name");
    reveal_strlit(" cannot be empty");
    reveal_strlit("Server name cannot be empty");
    reveal_strlit("Server ");
    reveal_strlit("Server '");
    reveal_strlit(" has empty host");
    reveal_strlit("' has empty host");
    reveal_strlit("Invalid port 0 for server ");
    reveal_strlit("Invalid port 0 for server '");
    reveal_strlit("'");
    reveal_strlit("max_connections");
    reveal_strlit(" must be > 0");
    reveal_strlit(" for server ");
    reveal_strlit("max_connections must be > 0 for server '");
    reveal_strlit("health_check.");
    reveal_strlit("interval_secs");
    reveal_strlit("timeout_secs");
    reveal_strlit("unhealthy_threshold");
    reveal_strlit("cache.");
    reveal_strlit("max_capacity");
    reveal_strlit("ttl_secs");
    reveal_strlit("health_check.interval_secs must be > 0");
    reveal_strlit("health_check.timeout_secs must be > 0");
    reveal_strlit("health_check.unhealthy_threshold must be > 0");
    reveal_strlit("cache.max_capacity must be > 0");
    reveal_strlit("cache.ttl_secs must be > 0");
}

} // verus!
