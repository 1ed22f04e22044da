//! Configuration types.
use crate::config::defaults;
use crate::text::{blank, concat3, decimal_text, number_string, string_of};
use crate::types::{
    CacheCapacity, Duration, HostName, MaxConnections, MaxErrors, Port, ServerName, ThreadCount,
    ValidationError,
};
use vstd::prelude::*;
use vstd::string::*;

verus! {

/// How client connections relate to backend connections.
#[derive(Clone, Copy, Debug, PartialEq, Eq, Structural)]
pub enum RoutingMode {
    /// Each client has a backend connection of its own.
    Stateful,
    /// Each command may go to another backend.
    PerCommand,
    /// Per-command routing until the first command that needs state.
    Hybrid,
}

impl Default for RoutingMode {
    fn default() -> (r: Self)
        ensures
            r == RoutingMode::Hybrid,
    {
        RoutingMode::Hybrid
    }
}

impl RoutingMode {
    pub open spec fn description(self) -> Seq<char> {
        match self {
            RoutingMode::Stateful => "stateful 1:1 mode"@,
            RoutingMode::PerCommand => "per-command routing mode (stateless)"@,
            RoutingMode::Hybrid => "hybrid routing mode"@,
        }
    }

    pub fn supports_per_command_routing(&self) -> (r: bool)
        ensures
            r == (*self == RoutingMode::PerCommand || *self == RoutingMode::Hybrid),
    {
        matches!(self, RoutingMode::PerCommand | RoutingMode::Hybrid)
    }

    pub fn supports_stateful_commands(&self) -> (r: bool)
        ensures
            r == (*self == RoutingMode::Stateful || *self == RoutingMode::Hybrid),
    {
        matches!(self, RoutingMode::Stateful | RoutingMode::Hybrid)
    }

    pub fn as_str(&self) -> (r: &'static str)
        ensures
            r@ == self.description(),
    {
        match self {
            RoutingMode::Stateful => "stateful 1:1 mode",
            RoutingMode::PerCommand => "per-command routing mode (stateless)",
            RoutingMode::Hybrid => "hybrid routing mode",
        }
    }

    pub fn display(&self) -> (r: String)
        ensures
            r@ == self.description(),
    {
        string_of(self.as_str())
    }
}

/// How the backend of a request is picked.
#[derive(Clone, Copy, Debug, PartialEq, Eq, Structural)]
pub enum RoutingStrategy {
    /// One backend after another.
    RoundRobin,
    /// By how the backends perform.
    AdaptiveWeighted,
}

impl Default for RoutingStrategy {
    fn default() -> (r: Self)
        ensures
            r == RoutingStrategy::RoundRobin,
    {
        RoutingStrategy::RoundRobin
    }
}

impl RoutingStrategy {
    pub open spec fn description(self) -> Seq<char> {
        match self {
            RoutingStrategy::RoundRobin => "round-robin load balancing"@,
            RoutingStrategy::AdaptiveWeighted => "adaptive weighted routing"@,
        }
    }

    pub fn as_str(&self) -> (r: &'static str)
        ensures
            r@ == self.description(),
    {
        match self {
            RoutingStrategy::RoundRobin => "round-robin load balancing",
            RoutingStrategy::AdaptiveWeighted => "adaptive weighted routing",
        }
    }

    pub fn display(&self) -> (r: String)
        ensures
            r@ == self.description(),
    {
        string_of(self.as_str())
    }
}

/// How load is spread over the backends that may serve a request.
#[derive(Clone, Copy, Debug, PartialEq, Eq, Structural)]
pub enum BackendSelectionStrategy {
    WeightedRoundRobin,
    LeastLoaded,
}

impl Default for BackendSelectionStrategy {
    fn default() -> (r: Self)
        ensures
            r == BackendSelectionStrategy::LeastLoaded,
    {
        BackendSelectionStrategy::LeastLoaded
    }
}

/// Command that asks a backend whether it has an article.
#[derive(Clone, Copy, Debug, PartialEq, Eq, Structural)]
pub enum PrecheckCommand {
    /// STAT, which needs less bandwidth.
    Stat,
    /// HEAD, which returns headers.
    Head,
    /// Both, until they disagree.
    Auto,
}

impl Default for PrecheckCommand {
    fn default() -> (r: Self)
        ensures
            r == PrecheckCommand::Auto,
    {
        PrecheckCommand::Auto
    }
}

impl PrecheckCommand {
    pub open spec fn description(self) -> Seq<char> {
        match self {
            PrecheckCommand::Stat => "STAT command"@,
            PrecheckCommand::Head => "HEAD command"@,
            PrecheckCommand::Auto => "auto-detect (both commands until disagreement)"@,
        }
    }

    pub fn as_str(&self) -> (r: &'static str)
        ensures
            r@ == self.description(),
    {
        match self {
            PrecheckCommand::Stat => "STAT command",
            PrecheckCommand::Head => "HEAD command",
            PrecheckCommand::Auto => "auto-detect (both commands until disagreement)",
        }
    }

    pub fn display(&self) -> (r: String)
        ensures
            r@ == self.description(),
    {
        string_of(self.as_str())
    }
}

/// Routing section.
#[derive(Clone, Copy, Debug, PartialEq, Eq)]
pub struct Routing {
    pub strategy: RoutingStrategy,
    pub routing_mode: RoutingMode,
    pub backend_selection: BackendSelectionStrategy,
    /// Ask every backend for an article whose location is not known.
    pub adaptive_precheck: bool,
    /// Number of message identifiers whose location is remembered.
    pub precheck_cache_size: u64,
}

impl Default for Routing {
    fn default() -> (r: Self)
        ensures
            r == (Routing {
                strategy: RoutingStrategy::RoundRobin,
                routing_mode: RoutingMode::Hybrid,
                backend_selection: BackendSelectionStrategy::LeastLoaded,
                adaptive_precheck: false,
                precheck_cache_size: 640_000,
            }),
    {
        Routing {
            strategy: RoutingStrategy::default(),
            routing_mode: RoutingMode::default(),
            backend_selection: BackendSelectionStrategy::default(),
            adaptive_precheck: defaults::adaptive_precheck(),
            precheck_cache_size: 640_000,
        }
    }
}

/// The whole configuration.
#[derive(Clone, Debug, PartialEq)]
pub struct Config {
    pub servers: Vec<Server>,
    pub proxy: Proxy,
    pub routing: Routing,
    pub health_check: HealthCheck,
    pub cache: Option<Cache>,
    pub client_auth: ClientAuth,
}

impl Config {
    /// The values of a configuration that names no server and leaves every
    /// section out.
    pub open spec fn is_default_but_servers(&self) -> bool {
        &&& self.proxy.is_default()
        &&& self.routing == (Routing {
            strategy: RoutingStrategy::RoundRobin,
            routing_mode: RoutingMode::Hybrid,
            backend_selection: BackendSelectionStrategy::LeastLoaded,
            adaptive_precheck: false,
            precheck_cache_size: 640_000,
        })
        &&& self.health_check.is_default()
        &&& self.cache is None
        &&& self.client_auth.is_default()
    }
}

impl Default for Config {
    fn default() -> (r: Self)
        ensures
            r.servers@.len() == 0,
            r.is_default_but_servers(),
    {
        Config {
            servers: Vec::new(),
            proxy: Proxy::default(),
            routing: Routing::default(),
            health_check: HealthCheck::default(),
            cache: None,
            client_auth: ClientAuth::default(),
        }
    }
}

/// Address and threads of the proxy itself.
#[derive(Clone, Debug, PartialEq)]
pub struct Proxy {
    pub host: String,
    pub port: Port,
    pub threads: ThreadCount,
}

impl Proxy {
    /// All interfaces.
    pub const DEFAULT_HOST: &'static str = "0.0.0.0";

    pub open spec fn is_default(&self) -> bool {
        self.host@ == "0.0.0.0"@ && self.port@ == 8119 && self.threads@ == 1
    }
}

impl Default for Proxy {
    fn default() -> (r: Self)
        ensures
            r.is_default(),
    {
        Proxy { host: string_of("0.0.0.0"), port: Port::default(), threads: ThreadCount::default() }
    }
}

/// Article cache section.
#[derive(Clone, Copy, Debug, PartialEq, Eq)]
pub struct Cache {
    pub max_capacity: CacheCapacity,
    pub ttl: Duration,
    /// Keep article bodies, not only availability.
    pub store_article_bodies: bool,
}

impl Cache {
    pub open spec fn is_default(&self) -> bool {
        &&& self.max_capacity@ == 10_000
        &&& self.ttl@ == 3600 * 1_000_000_000
        &&& self.store_article_bodies
    }
}

impl Default for Cache {
    fn default() -> (r: Self)
        ensures
            r.is_default(),
    {
        Cache {
            max_capacity: defaults::cache_max_capacity(),
            ttl: defaults::cache_ttl(),
            store_article_bodies: defaults::cache_articles(),
        }
    }
}

/// Health-check section.
#[derive(Clone, Copy, Debug, PartialEq, Eq)]
pub struct HealthCheck {
    pub interval: Duration,
    pub timeout: Duration,
    pub unhealthy_threshold: MaxErrors,
}

impl HealthCheck {
    pub open spec fn is_default(&self) -> bool {
        &&& self.interval@ == 30_000_000_000
        &&& self.timeout@ == 5_000_000_000
        &&& self.unhealthy_threshold@ == 3
    }
}

impl Default for HealthCheck {
    fn default() -> (r: Self)
        ensures
            r.is_default(),
    {
        HealthCheck {
            interval: defaults::health_check_interval(),
            timeout: defaults::health_check_timeout(),
            unhealthy_threshold: defaults::unhealthy_threshold(),
        }
    }
}

/// Accounts that clients may log in with.
#[derive(Clone, Debug, PartialEq)]
pub struct ClientAuth {
    /// A single account; `users` holds any number.
    pub username: Option<String>,
    pub password: Option<String>,
    /// Greeting to send in place of the built-in one.
    pub greeting: Option<String>,
    pub users: Vec<UserCredentials>,
}

/// One account.
#[derive(Clone, Debug, PartialEq)]
pub struct UserCredentials {
    pub username: String,
    pub password: String,
}

impl Default for ClientAuth {
    fn default() -> (r: Self)
        ensures
            r.is_default(),
    {
        ClientAuth { username: None, password: None, greeting: None, users: Vec::new() }
    }
}

impl ClientAuth {
    pub open spec fn is_default(&self) -> bool {
        &&& self.username is None
        &&& self.password is None
        &&& self.greeting is None
        &&& self.users@.len() == 0
    }

    /// The single account, when it is complete.
    pub open spec fn single_user(&self) -> Seq<(Seq<char>, Seq<char>)> {
        match (self.username, self.password) {
            (Some(u), Some(p)) => seq![(u@, p@)],
            _ => Seq::empty(),
        }
    }

    /// Every account: the single one first, then the list in its order.
    pub open spec fn user_list(&self) -> Seq<(Seq<char>, Seq<char>)> {
        self.single_user() + self.users@.map_values(
            |u: UserCredentials| (u.username@, u.password@),
        )
    }

    /// Must clients log in?
    pub fn is_enabled(&self) -> (r: bool)
        ensures
            r == (self.user_list().len() > 0),
    {
        (self.users.len() != 0) || (self.username.is_some() && self.password.is_some())
    }

    pub fn all_users(&self) -> (r: Vec<(&str, &str)>)
        ensures
            r@.map_values(|p: (&str, &str)| (p.0@, p.1@)) == self.user_list(),
    {
        let mut users: Vec<(&str, &str)> = Vec::new();
        if let (Some(u), Some(p)) = (&self.username, &self.password) {
            users.push((u.as_str(), p.as_str()));
        }
        let ghost f = |p: (&str, &str)| (p.0@, p.1@);
        let ghost g = |u: UserCredentials| (u.username@, u.password@);
        assert(users@.map_values(f) =~= self.single_user() + self.users@.take(0).map_values(g));
        for i in 0..self.users.len()
            invariant
                f == (|p: (&str, &str)| (p.0@, p.1@)),
                g == (|u: UserCredentials| (u.username@, u.password@)),
                users@.map_values(f) == self.single_user() + self.users@.take(
                    i as int,
                ).map_values(g),
        {
            let ghost before = users@;
            users.push((self.users[i].username.as_str(), self.users[i].password.as_str()));
            proof {
                assert(self.users@.take(i + 1) =~= self.users@.take(i as int).push(
                    self.users@[i as int],
                ));
                assert(users@.map_values(f) =~= before.map_values(f).push(f(users@.last())));
                assert(self.users@.take(i + 1).map_values(g) =~= self.users@.take(
                    i as int,
                ).map_values(g).push(g(self.users@[i as int])));
                assert(users@.map_values(f) =~= self.single_user() + self.users@.take(
                    i + 1,
                ).map_values(g));
            }
        }
        assert(self.users@.take(self.users@.len() as int) =~= self.users@);
        users
    }
}

/// One backend server.
#[derive(Clone, Debug, PartialEq)]
pub struct Server {
    pub host: HostName,
    pub port: Port,
    pub name: ServerName,
    pub username: Option<String>,
    pub password: Option<String>,
    pub max_connections: MaxConnections,
    pub use_tls: bool,
    pub tls_verify_cert: bool,
    pub tls_cert_path: Option<String>,
    /// Interval of keep-alive commands on idle connections.
    pub connection_keepalive: Option<Duration>,
    pub health_check_max_per_cycle: usize,
    pub health_check_pool_timeout: Duration,
    pub precheck_command: PrecheckCommand,
    /// Send commands ahead of their answers.
    pub backend_pipelining: bool,
    /// Name under which availability facts are shared, in place of the host.
    pub availability_namespace: Option<String>,
}

/// Why a server could not be built.
#[derive(Clone, Copy, Debug, PartialEq, Eq, Structural)]
pub enum ServerBuildError {
    Host(ValidationError),
    /// The port is zero.
    Port(u16),
    Name(ValidationError),
    /// The connection limit is zero.
    MaxConnections(usize),
}

/// Builds a [`Server`] step by step.
pub struct ServerBuilder {
    pub host: String,
    pub port: u16,
    pub name: Option<String>,
    pub username: Option<String>,
    pub password: Option<String>,
    pub max_connections: Option<usize>,
    pub use_tls: bool,
    pub tls_verify_cert: bool,
    pub tls_cert_path: Option<String>,
    pub connection_keepalive: Option<Duration>,
    pub health_check_max_per_cycle: Option<usize>,
    pub health_check_pool_timeout: Option<Duration>,
    pub precheck_command: Option<PrecheckCommand>,
    pub backend_pipelining: bool,
    pub availability_namespace: Option<String>,
}

impl ServerBuilder {
    /// A builder for a server at `host` and `port`; TLS is off, and
    /// certificates are verified once it is on.
    pub fn new(host: &str, port: u16) -> (r: Self)
        ensures
            r.host@ == host@,
            r.port == port,
            r.name is None,
            r.username is None,
            r.password is None,
            r.max_connections is None,
            !r.use_tls,
            r.tls_verify_cert,
            r.tls_cert_path is None,
            r.connection_keepalive is None,
            r.health_check_max_per_cycle is None,
            r.health_check_pool_timeout is None,
            r.precheck_command is None,
            !r.backend_pipelining,
            r.availability_namespace is None,
    {
        ServerBuilder {
            host: string_of(host),
            port,
            name: None,
            username: None,
            password: None,
            max_connections: None,
            use_tls: false,
            tls_verify_cert: true,
            tls_cert_path: None,
            connection_keepalive: None,
            health_check_max_per_cycle: None,
            health_check_pool_timeout: None,
            precheck_command: None,
            backend_pipelining: false,
            availability_namespace: None,
        }
    }

    /// Sets the name; without one the server is called `host:port`.
    pub fn name(self, value: &str) -> (r: Self)
        ensures
            match r.name {
                Some(s) => s@ == value@,
                None => false,
            },
            r == (ServerBuilder { name: r.name, ..self }),
    {
        ServerBuilder { name: Some(string_of(value)), ..self }
    }

    /// Sets the account of the proxy on the server.
    pub fn username(self, value: &str) -> (r: Self)
        ensures
            match r.username {
                Some(s) => s@ == value@,
                None => false,
            },
            r == (ServerBuilder { username: r.username, ..self }),
    {
        ServerBuilder { username: Some(string_of(value)), ..self }
    }

    /// Sets the password of that account.
    pub fn password(self, value: &str) -> (r: Self)
        ensures
            match r.password {
                Some(s) => s@ == value@,
                None => false,
            },
            r == (ServerBuilder { password: r.password, ..self }),
    {
        ServerBuilder { password: Some(string_of(value)), ..self }
    }

    /// Limits the concurrent connections.
    pub fn max_connections(self, value: usize) -> (r: Self)
        ensures
            r == (ServerBuilder { max_connections: Some(value), ..self }),
    {
        ServerBuilder { max_connections: Some(value), ..self }
    }

    /// Turns TLS on or off.
    pub fn use_tls(self, value: bool) -> (r: Self)
        ensures
            r == (ServerBuilder { use_tls: value, ..self }),
    {
        ServerBuilder { use_tls: value, ..self }
    }

    /// Turns the verification of certificates on or off.
    pub fn tls_verify_cert(self, value: bool) -> (r: Self)
        ensures
            r == (ServerBuilder { tls_verify_cert: value, ..self }),
    {
        ServerBuilder { tls_verify_cert: value, ..self }
    }

    /// Adds a CA certificate.
    pub fn tls_cert_path(self, value: &str) -> (r: Self)
        ensures
            match r.tls_cert_path {
                Some(s) => s@ == value@,
                None => false,
            },
            r == (ServerBuilder { tls_cert_path: r.tls_cert_path, ..self }),
    {
        ServerBuilder { tls_cert_path: Some(string_of(value)), ..self }
    }

    /// Sends keep-alive commands at this interval.
    pub fn connection_keepalive(self, value: Duration) -> (r: Self)
        ensures
            r == (ServerBuilder { connection_keepalive: Some(value), ..self }),
    {
        ServerBuilder { connection_keepalive: Some(value), ..self }
    }

    /// Limits the connections that a health-check cycle looks at.
    pub fn health_check_max_per_cycle(self, value: usize) -> (r: Self)
        ensures
            r == (ServerBuilder { health_check_max_per_cycle: Some(value), ..self }),
    {
        ServerBuilder { health_check_max_per_cycle: Some(value), ..self }
    }

    /// Limits the wait for a connection to check.
    pub fn health_check_pool_timeout(self, value: Duration) -> (r: Self)
        ensures
            r == (ServerBuilder { health_check_pool_timeout: Some(value), ..self }),
    {
        ServerBuilder { health_check_pool_timeout: Some(value), ..self }
    }

    /// Sets the command that asks for availability.
    pub fn precheck_command(self, value: PrecheckCommand) -> (r: Self)
        ensures
            r == (ServerBuilder { precheck_command: Some(value), ..self }),
    {
        ServerBuilder { precheck_command: Some(value), ..self }
    }

    /// Turns pipelining on or off.
    pub fn backend_pipelining(self, value: bool) -> (r: Self)
        ensures
            r == (ServerBuilder { backend_pipelining: value, ..self }),
    {
        ServerBuilder { backend_pipelining: value, ..self }
    }

    /// Shares availability facts under this name.
    pub fn availability_namespace(self, value: &str) -> (r: Self)
        ensures
            match r.availability_namespace {
                Some(s) => s@ == value@,
                None => false,
            },
            r == (ServerBuilder { availability_namespace: r.availability_namespace, ..self }),
    {
        ServerBuilder { availability_namespace: Some(string_of(value)), ..self }
    }

    /// The name that the server will have.
    pub open spec fn effective_name(&self) -> Seq<char> {
        match self.name {
            Some(n) => n@,
            None => self.host@ + ":"@ + decimal_text(self.port as nat),
        }
    }

    /// Why the builder cannot give a server, if it cannot.
    pub open spec fn refusal(&self) -> Option<ServerBuildError> {
        if blank(self.host@) {
            Some(ServerBuildError::Host(ValidationError::EmptyHostName))
        } else if self.port == 0 {
            Some(ServerBuildError::Port(self.port))
        } else if blank(self.effective_name()) {
            Some(ServerBuildError::Name(ValidationError::EmptyServerName))
        } else if self.max_connections == Some(0usize) {
            Some(ServerBuildError::MaxConnections(0))
        } else {
            None
        }
    }

    /// `server` is what the builder describes.
    pub open spec fn describes(&self, server: Server) -> bool {
        &&& server.host@ == self.host@
        &&& server.port@ == self.port
        &&& server.name@ == self.effective_name()
        &&& server.username == self.username
        &&& server.password == self.password
        &&& server.max_connections@ == (match self.max_connections {
            Some(m) => m as nat,
            None => 10,
        })
        &&& server.use_tls == self.use_tls
        &&& server.tls_verify_cert == self.tls_verify_cert
        &&& server.tls_cert_path == self.tls_cert_path
        &&& server.connection_keepalive == self.connection_keepalive
        &&& server.health_check_max_per_cycle == (match self.health_check_max_per_cycle {
            Some(m) => m,
            None => defaults::MAX_CONNECTIONS_PER_HEALTH_CHECK_CYCLE,
        })
        &&& server.health_check_pool_timeout@ == (match self.health_check_pool_timeout {
            Some(t) => t@,
            None => (defaults::HEALTH_CHECK_POOL_TIMEOUT_MS * 1_000_000) as nat,
        })
        &&& server.precheck_command == (match self.precheck_command {
            Some(c) => c,
            None => PrecheckCommand::Auto,
        })
        &&& server.backend_pipelining == self.backend_pipelining
        &&& server.availability_namespace == self.availability_namespace
    }

    /// The server, or the first thing that is wrong with its description.
    pub fn build(self) -> (r: Result<Server, ServerBuildError>)
        ensures
            match r {
                Ok(server) => self.refusal() is None && self.describes(server),
                Err(e) => self.refusal() == Some(e),
            },
    {
        let host = match HostName::new(self.host.clone()) {
            Ok(h) => h,
            Err(e) => {
                return Err(ServerBuildError::Host(e));
            },
        };
        let port = match Port::new(self.port) {
            Some(p) => p,
            None => {
                return Err(ServerBuildError::Port(self.port));
            },
        };
        let name_str = match self.name {
            Some(n) => n,
            None => {
                let number = number_string(self.port as u64);
                concat3(self.host.as_str(), ":", number.as_str())
            },
        };
        let name = match ServerName::new(name_str) {
            Ok(n) => n,
            Err(e) => {
                return Err(ServerBuildError::Name(e));
            },
        };
        let max_connections = match self.max_connections {
            Some(max) => match MaxConnections::new(max) {
                Some(m) => m,
                None => {
                    return Err(ServerBuildError::MaxConnections(max));
                },
            },
            None => defaults::max_connections(),
        };
        let health_check_max_per_cycle: usize = match self.health_check_max_per_cycle {
            Some(m) => m,
            None => defaults::health_check_max_per_cycle(),
        };
        let health_check_pool_timeout = match self.health_check_pool_timeout {
            Some(t) => t,
            None => defaults::health_check_pool_timeout(),
        };
        let precheck_command = match self.precheck_command {
            Some(c) => c,
            None => PrecheckCommand::default(),
        };
        Ok(
            Server {
                host,
                port,
                name,
                username: self.username,
                password: self.password,
                max_connections,
                use_tls: self.use_tls,
                tls_verify_cert: self.tls_verify_cert,
                tls_cert_path: self.tls_cert_path,
                connection_keepalive: self.connection_keepalive,
                health_check_max_per_cycle,
                health_check_pool_timeout,
                precheck_command,
                backend_pipelining: self.backend_pipelining,
                availability_namespace: self.availability_namespace,
            },
        )
    }
}

impl Server {
    /// A builder for a server at `host` and `port`.
    pub fn builder(host: &str, port: u16) -> (r: ServerBuilder)
        ensures
            r.host@ == host@,
            r.port == port,
            r.name is None,
            r.username is None,
            r.password is None,
            r.max_connections is None,
            !r.use_tls,
            r.tls_verify_cert,
            r.tls_cert_path is None,
            r.connection_keepalive is None,
            r.health_check_max_per_cycle is None,
            r.health_check_pool_timeout is None,
            r.precheck_command is None,
            !r.backend_pipelining,
            r.availability_namespace is None,
    {
        ServerBuilder::new(host, port)
    }
}

/// A server is refused exactly where its host or its name is blank, or its port or
/// its number of connections is zero. Without a name it is called by its host and
/// its port.
pub proof fn law_servers_that_can_be_built(builder: ServerBuilder)
    ensures
        (builder.refusal() is None) == ({
            &&& !blank(builder.host@)
            &&& builder.port != 0
            &&& builder.name is Some ==> !blank(builder.name->0@)
            &&& builder.max_connections != Some(0usize)
        }),
        blank(builder.host@) ==> builder.refusal() == Some(
            ServerBuildError::Host(ValidationError::EmptyHostName),
        ),
        !blank(builder.host@) && builder.port == 0 ==> builder.refusal() == Some(
            ServerBuildError::Port(0),
        ),
        builder.name is None ==> builder.effective_name() == builder.host@ + seq![':']
            + decimal_text(builder.port as nat),
{
    reveal_strlit(":");
    assert(":"@ =~= seq![':']);
    if builder.name is None && !blank(builder.host@) {
        let name = builder.effective_name();
        let i = choose|i: int|
            0 <= i < builder.host@.len() && !crate::text::is_white_space(#[trigger] builder.host@[i]);
        assert(name[i] == builder.host@[i]);
    }
}

/// What a builder leaves open is filled in: ten connections, five of them looked
/// at by a health check that waits a tenth of a second, and both commands tried to
/// ask for availability. What it says is taken.
pub proof fn law_built_servers(builder: ServerBuilder, server: Server)
    requires
        builder.describes(server),
    ensures
        server.host@ == builder.host@,
        server.port@ == builder.port,
        builder.name is Some ==> server.name@ == builder.name->0@,
        builder.max_connections is Some ==> server.max_connections@ == builder.max_connections->0,
        builder.max_connections is None ==> server.max_connections@ == 10,
        builder.health_check_max_per_cycle is None ==> server.health_check_max_per_cycle == 5,
        builder.health_check_max_per_cycle is Some ==> server.health_check_max_per_cycle
            == builder.health_check_max_per_cycle->0,
        builder.health_check_pool_timeout is None ==> server.health_check_pool_timeout@
            == 100 * 1_000_000,
        builder.health_check_pool_timeout is Some ==> server.health_check_pool_timeout@
            == builder.health_check_pool_timeout->0@,
        builder.precheck_command is None ==> server.precheck_command == PrecheckCommand::Auto,
        builder.precheck_command is Some ==> server.precheck_command
            == builder.precheck_command->0,
        server.use_tls == builder.use_tls,
        server.tls_verify_cert == builder.tls_verify_cert,
        server.tls_cert_path == builder.tls_cert_path,
        server.username == builder.username,
        server.password == builder.password,
        server.connection_keepalive == builder.connection_keepalive,
        server.backend_pipelining == builder.backend_pipelining,
        server.availability_namespace == builder.availability_namespace,
{
}

/// Every account of the list may log in, and the single one before them where both
/// its name and its password are given.
pub proof fn law_accounts(auth: ClientAuth, i: int)
    ensures
        ({
            let single = auth.username is Some && auth.password is Some;
            let all = auth.user_list();
            &&& all.len() == auth.users@.len() + (if single {
                1int
            } else {
                0
            })
            &&& single ==> all[0] == (auth.username->0@, auth.password->0@)
            &&& 0 <= i < auth.users@.len() ==> all[i + (if single {
                1int
            } else {
                0
            })] == (auth.users@[i].username@, auth.users@[i].password@)
        }),
{
}

/// A configuration that leaves its sections out listens on port 8119 with one
/// thread, takes the backends in turn, switches modes as clients need, asks no
/// backend ahead, and keeps no cache and no accounts.
pub proof fn law_default_configuration(config: Config)
    requires
        config.is_default_but_servers(),
    ensures
        config.proxy.port@ == 8119,
        config.proxy.threads@ == 1,
        config.routing.strategy == RoutingStrategy::RoundRobin,
        config.routing.routing_mode == RoutingMode::Hybrid,
        config.routing.backend_selection == BackendSelectionStrategy::LeastLoaded,
        !config.routing.adaptive_precheck,
        config.routing.precheck_cache_size == 640_000,
        config.health_check.interval@ == 30 * 1_000_000_000,
        config.health_check.timeout@ == 5 * 1_000_000_000,
        config.health_check.unhealthy_threshold@ == 3,
        config.cache is None,
        config.client_auth.user_list().len() == 0,
{
}

/// The words for the routing modes.
pub proof fn law_words_for_routing_modes(e: RoutingMode)
    ensures
        e.description() == (match e {
            RoutingMode::Stateful => "stateful 1:1"@ + " mode"@,
            RoutingMode::PerCommand => "per-command routing"@ + " mode (stateless)"@,
            RoutingMode::Hybrid => "hybrid routing"@ + " mode"@,
        }),
{
    reveal_strlit("stateful 1:1 mode");
    reveal_strlit("stateful 1:1");
    reveal_strlit(" mode");
    reveal_strlit("per-command routing mode (stateless)");
    reveal_strlit("per-command routing");
    reveal_strlit(" mode (stateless)");
    reveal_strlit("hybrid routing mode");
    reveal_strlit("hybrid routing");
}

/// The words for the ways to choose a backend.
pub proof fn law_words_for_strategies(e: RoutingStrategy)
    ensures
        e.description() == (match e {
            RoutingStrategy::RoundRobin => "round-robin load"@ + " balancing"@,
            RoutingStrategy::AdaptiveWeighted => "adaptive weighted"@ + " routing"@,
        }),
{
    reveal_strlit("round-robin load balancing");
    reveal_strlit("round-robin load");
    reveal_strlit(" balancing");
    reveal_strlit("adaptive weighted routing");
    reveal_strlit("adaptive weighted");
    reveal_strlit(" routing");
}

/// The words for the commands that look ahead.
pub proof fn law_words_for_prechecks(e: PrecheckCommand)
    ensures
        e.description() == (match e {
            PrecheckCommand::Stat => "STAT"@ + " command"@,
            PrecheckCommand::Head => "HEAD"@ + " command"@,
            PrecheckCommand::Auto => "auto-detect (both commands"@ + " until disagreement)"@,
        }),
{
    reveal_strlit("STAT command");
    reveal_strlit("STAT");
    reveal_strlit(" command");
    reveal_strlit("HEAD command");
    reveal_strlit("HEAD");
    reveal_strlit("auto-detect (both commands until disagreement)");
    reveal_strlit("auto-detect (both commands");
    reveal_strlit(" until disagreement)");
}

} // verus!
