//! Configuration from environment variables, and where a configuration comes
//! from.
use crate::bytes::{lower_bytes, parse_decimal, parse_decimal_spec};
use crate::config::defaults;
use crate::config::types::{
    Config, PrecheckCommand, Routing, RoutingStrategy, Server, ServerBuildError, ServerBuilder,
};
use crate::config::validation::ConfigError;
use crate::text::{
    blank, concat3, decimal_text, law_letter_case, number_string, same_letter, same_letters, str_eq,
    str_eq_ignore_case,
};
use crate::types::Duration;
use vstd::prelude::*;
use vstd::string::*;
use vstd::utf8::*;

verus! {

/// Where environment variables are looked up.
pub trait EnvProvider {
    /// The value of a variable, if it is set. Nothing is known of it: an
    /// environment may hold anything, and change.
    fn get(&self, key: &str) -> Option<String>;
}

/// The variable of a server.
pub open spec fn server_key(index: nat, field: Seq<char>) -> Seq<char> {
    ("NNTP_SERVER_"@ + decimal_text(index) + "_"@) + field + ""@
}

/// The variable of a server.
pub fn server_variable(index: usize, field: &str) -> (r: String)
    ensures
        r@ == server_key(index as nat, field@),
{
    let number = number_string(index as u64);
    let head = concat3("NNTP_SERVER_", number.as_str(), "_");
    concat3(head.as_str(), field, "")
}

/// `value` is what the environment answered when it was asked for a variable.
pub open spec fn answered<E: EnvProvider>(env: &E, key: Seq<char>, value: Option<String>) -> bool {
    exists|k: &str| k@ == key && #[trigger] call_ensures(E::get, (env, k), value)
}

/// The variables of one server, as they were found.
#[derive(Debug)]
pub struct ServerVars {
    pub host: Option<String>,
    pub port: Option<String>,
    pub name: Option<String>,
    pub username: Option<String>,
    pub password: Option<String>,
    pub max_connections: Option<String>,
    pub use_tls: Option<String>,
    pub tls_verify_cert: Option<String>,
    pub tls_cert_path: Option<String>,
    pub connection_keepalive: Option<String>,
    pub health_check_max_per_cycle: Option<String>,
    pub health_check_pool_timeout: Option<String>,
}

/// The variables are those of server `index` in the environment.
pub open spec fn found_in<E: EnvProvider>(env: &E, index: nat, vars: ServerVars) -> bool {
    &&& answered(env, server_key(index, "HOST"@), vars.host)
    &&& vars.host is Some ==> {
        &&& answered(env, server_key(index, "PORT"@), vars.port)
        &&& answered(env, server_key(index, "NAME"@), vars.name)
        &&& answered(env, server_key(index, "USERNAME"@), vars.username)
        &&& answered(env, server_key(index, "PASSWORD"@), vars.password)
        &&& answered(env, server_key(index, "MAX_CONNECTIONS"@), vars.max_connections)
        &&& answered(env, server_key(index, "USE_TLS"@), vars.use_tls)
        &&& answered(env, server_key(index, "TLS_VERIFY_CERT"@), vars.tls_verify_cert)
        &&& answered(env, server_key(index, "TLS_CERT_PATH"@), vars.tls_cert_path)
        &&& answered(env, server_key(index, "CONNECTION_KEEPALIVE"@), vars.connection_keepalive)
        &&& answered(
            env,
            server_key(index, "HEALTH_CHECK_MAX_PER_CYCLE"@),
            vars.health_check_max_per_cycle,
        )
        &&& answered(
            env,
            server_key(index, "HEALTH_CHECK_POOL_TIMEOUT"@),
            vars.health_check_pool_timeout,
        )
    }
}

/// A variable read as a number of at most `max`.
pub open spec fn number_var(value: Option<String>, max: nat) -> Option<nat> {
    match value {
        Some(s) => match parse_decimal_spec(encode_utf8(s@)) {
            Some(n) => if n <= max {
                Some(n)
            } else {
                None
            },
            None => None,
        },
        None => None,
    }
}

/// A variable read as a truth value; only `true` and `false` are.
pub open spec fn bool_var(value: Option<String>, default: bool) -> bool {
    match value {
        Some(s) => if s@ == "true"@ {
            true
        } else if s@ == "false"@ {
            false
        } else {
            default
        },
        None => default,
    }
}

fn number_of(value: &Option<String>, max: u64) -> (r: Option<u64>)
    ensures
        match r {
            Some(n) => number_var(*value, max as nat) == Some(n as nat),
            None => number_var(*value, max as nat) is None,
        },
{
    match value {
        Some(s) => parse_decimal(s.as_str().as_bytes(), max),
        None => None,
    }
}

fn bool_of(value: &Option<String>, default: bool) -> (r: bool)
    ensures
        r == bool_var(*value, default),
{
    match value {
        Some(s) => {
            if str_eq(s.as_str(), "true") {
                true
            } else if str_eq(s.as_str(), "false") {
                false
            } else {
                default
            }
        },
        None => default,
    }
}

/// The port of a server: the default for news where the variable is no port.
pub open spec fn port_of(vars: ServerVars) -> nat {
    match number_var(vars.port, 65535) {
        Some(n) => n,
        None => 119,
    }
}

/// The name of a server: its number where the variable is not set.
pub open spec fn name_of(index: nat, vars: ServerVars) -> Seq<char> {
    match vars.name {
        Some(n) => n@,
        None => "Server "@ + decimal_text(index) + ""@,
    }
}

/// `server` is what the variables describe.
pub open spec fn described(server: Server, index: nat, vars: ServerVars) -> bool {
    &&& vars.host is Some
    &&& server.host@ == vars.host->0@
    &&& server.port@ == port_of(vars)
    &&& server.name@ == name_of(index, vars)
    &&& server.username == vars.username
    &&& server.password == vars.password
    &&& server.max_connections@ == (match number_var(vars.max_connections, usize::MAX as nat) {
        Some(n) => if n > 0 {
            n
        } else {
            10
        },
        None => 10,
    })
    &&& server.use_tls == bool_var(vars.use_tls, false)
    &&& server.tls_verify_cert == bool_var(vars.tls_verify_cert, true)
    &&& server.tls_cert_path == vars.tls_cert_path
    &&& match number_var(vars.connection_keepalive, u64::MAX as nat) {
        Some(n) => server.connection_keepalive is Some && server.connection_keepalive->0@ == n
            * 1_000_000_000,
        None => server.connection_keepalive is None,
    }
    &&& server.health_check_max_per_cycle == (match number_var(
        vars.health_check_max_per_cycle,
        usize::MAX as nat,
    ) {
        Some(n) => n,
        None => defaults::MAX_CONNECTIONS_PER_HEALTH_CHECK_CYCLE as nat,
    })
    &&& server.health_check_pool_timeout@ == (match number_var(
        vars.health_check_pool_timeout,
        u64::MAX as nat,
    ) {
        Some(n) => n * 1_000_000_000,
        None => (defaults::HEALTH_CHECK_POOL_TIMEOUT_MS * 1_000_000) as nat,
    })
    &&& server.precheck_command == PrecheckCommand::Auto
    &&& !server.backend_pipelining
    &&& server.availability_namespace is None
}

/// Why variables describe no server although a host is set.
#[derive(Clone, Copy, Debug, PartialEq, Eq, Structural)]
pub enum EnvServerError {
    /// The host of this server is blank.
    InvalidHost(usize),
    /// The port of this server is zero.
    InvalidPort(usize),
    /// The name of this server is blank.
    InvalidName(usize),
}

impl EnvServerError {
    pub open spec fn text(self) -> Seq<char> {
        match self {
            EnvServerError::InvalidHost(i) => "Invalid hostname in "@ + server_key(
                i as nat,
                "HOST"@,
            ) + ""@,
            EnvServerError::InvalidPort(i) => "Invalid port in "@ + server_key(i as nat, "PORT"@)
                + ": 0"@,
            EnvServerError::InvalidName(i) => "Invalid server name in "@ + server_key(
                i as nat,
                "NAME"@,
            ) + ""@,
        }
    }

    pub fn message(&self) -> (r: String)
        ensures
            r@ == self.text(),
    {
        match self {
            EnvServerError::InvalidHost(i) => {
                let key = server_variable(*i, "HOST");
                concat3("Invalid hostname in ", key.as_str(), "")
            },
            EnvServerError::InvalidPort(i) => {
                let key = server_variable(*i, "PORT");
                concat3("Invalid port in ", key.as_str(), ": 0")
            },
            EnvServerError::InvalidName(i) => {
                let key = server_variable(*i, "NAME");
                concat3("Invalid server name in ", key.as_str(), "")
            },
        }
    }
}

/// What is wrong with the variables of a server, if anything is.
pub open spec fn vars_refusal(index: usize, vars: ServerVars) -> Option<EnvServerError> {
    match vars.host {
        None => None,
        Some(h) => if blank(h@) {
            Some(EnvServerError::InvalidHost(index))
        } else if port_of(vars) == 0 {
            Some(EnvServerError::InvalidPort(index))
        } else if blank(name_of(index as nat, vars)) {
            Some(EnvServerError::InvalidName(index))
        } else {
            None
        },
    }
}

/// The server that variables describe; none where no host is set.
pub fn server_from_vars(index: usize, vars: ServerVars) -> (r: Result<Option<Server>, EnvServerError>)
    ensures
        match r {
            Ok(Some(server)) => vars_refusal(index, vars) is None && described(
                server,
                index as nat,
                vars,
            ),
            Ok(None) => vars.host is None,
            Err(e) => vars_refusal(index, vars) == Some(e),
        },
{
    let ghost given = vars;
    let port: u16 = match number_of(&vars.port, 65535) {
        Some(n) => n as u16,
        None => 119,
    };
    let max_connections: Option<usize> = match number_of(&vars.max_connections, usize::MAX as u64) {
        Some(n) => if n > 0 {
            Some(n as usize)
        } else {
            None
        },
        None => None,
    };
    let use_tls = bool_of(&vars.use_tls, false);
    let tls_verify_cert = bool_of(&vars.tls_verify_cert, defaults::tls_verify_cert());
    let connection_keepalive = match number_of(&vars.connection_keepalive, u64::MAX) {
        Some(n) => Some(Duration::from_secs(n)),
        None => None,
    };
    let health_check_max_per_cycle: Option<usize> = match number_of(
        &vars.health_check_max_per_cycle,
        usize::MAX as u64,
    ) {
        Some(n) => Some(n as usize),
        None => None,
    };
    let health_check_pool_timeout = match number_of(&vars.health_check_pool_timeout, u64::MAX) {
        Some(n) => Some(Duration::from_secs(n)),
        None => None,
    };
    let host = match vars.host {
        Some(h) => h,
        None => {
            return Ok(None);
        },
    };
    let name = match vars.name {
        Some(n) => n,
        None => {
            let number = number_string(index as u64);
            concat3("Server ", number.as_str(), "")
        },
    };
    let builder = ServerBuilder {
        host,
        port,
        name: Some(name),
        username: vars.username,
        password: vars.password,
        max_connections,
        use_tls,
        tls_verify_cert,
        tls_cert_path: vars.tls_cert_path,
        connection_keepalive,
        health_check_max_per_cycle,
        health_check_pool_timeout,
        precheck_command: None,
        backend_pipelining: false,
        availability_namespace: None,
    };
    match builder.build() {
        Ok(server) => Ok(Some(server)),
        Err(ServerBuildError::Host(_)) => Err(EnvServerError::InvalidHost(index)),
        Err(ServerBuildError::Port(_)) => Err(EnvServerError::InvalidPort(index)),
        Err(_) => Err(EnvServerError::InvalidName(index)),
    }
}

fn ask<E: EnvProvider>(env: &E, index: usize, field: &str) -> (r: Option<String>)
    ensures
        answered(env, server_key(index as nat, field@), r),
{
    let key = server_variable(index, field);
    let k = key.as_str();
    let r = env.get(k);
    assert(call_ensures(E::get, (env, k), r));
    r
}

/// The variables of one server.
pub fn server_vars<E: EnvProvider>(env: &E, index: usize) -> (r: ServerVars)
    ensures
        found_in(env, index as nat, r),
{
    let host = ask(env, index, "HOST");
    if host.is_none() {
        return ServerVars {
            host,
            port: None,
            name: None,
            username: None,
            password: None,
            max_connections: None,
            use_tls: None,
            tls_verify_cert: None,
            tls_cert_path: None,
            connection_keepalive: None,
            health_check_max_per_cycle: None,
            health_check_pool_timeout: None,
        };
    }
    ServerVars {
        host,
        port: ask(env, index, "PORT"),
        name: ask(env, index, "NAME"),
        username: ask(env, index, "USERNAME"),
        password: ask(env, index, "PASSWORD"),
        max_connections: ask(env, index, "MAX_CONNECTIONS"),
        use_tls: ask(env, index, "USE_TLS"),
        tls_verify_cert: ask(env, index, "TLS_VERIFY_CERT"),
        tls_cert_path: ask(env, index, "TLS_CERT_PATH"),
        connection_keepalive: ask(env, index, "CONNECTION_KEEPALIVE"),
        health_check_max_per_cycle: ask(env, index, "HEALTH_CHECK_MAX_PER_CYCLE"),
        health_check_pool_timeout: ask(env, index, "HEALTH_CHECK_POOL_TIMEOUT"),
    }
}

/// `outcome` is what the environment says of server `index`.
pub open spec fn says_of<E: EnvProvider>(
    env: &E,
    index: usize,
    outcome: Result<Option<Server>, EnvServerError>,
) -> bool {
    exists|vars: ServerVars| #[trigger]
        found_in(env, index as nat, vars) && match outcome {
            Ok(Some(server)) => vars_refusal(index, vars) is None && described(
                server,
                index as nat,
                vars,
            ),
            Ok(None) => vars.host is None,
            Err(e) => vars_refusal(index, vars) == Some(e),
        }
}

/// The server that the environment describes under a number.
pub fn parse_server_from_env<E: EnvProvider>(index: usize, env: &E) -> (r: Result<
    Option<Server>,
    EnvServerError,
>)
    ensures
        says_of(env, index, r),
{
    let vars = server_vars(env, index);
    let r = server_from_vars(index, vars);
    assert(found_in(env, index as nat, vars));
    r
}

/// The environment describes a server under this number.
pub open spec fn describes<E: EnvProvider>(env: &E, index: usize) -> bool {
    exists|s: Server| says_of(env, index, Ok(Some(s)))
}

/// The environment describes servers up to one that is faulty.
pub open spec fn fails_at<E: EnvProvider>(env: &E, index: usize, e: EnvServerError) -> bool {
    &&& says_of(env, index, Err(e))
    &&& forall|j: usize| j < index ==> #[trigger] describes(env, j)
}

/// The servers that the environment describes, from the first number on up to
/// the first that is missing; none where there is no first.
pub fn load_servers_from_env_provider<E: EnvProvider>(env: &E) -> (r: Result<
    Option<Vec<Server>>,
    EnvServerError,
>)
    ensures
        match r {
            Ok(Some(servers)) => {
                &&& servers@.len() > 0
                &&& forall|i: int|
                    0 <= i < servers@.len() ==> says_of(
                        env,
                        i as usize,
                        Ok(Some(#[trigger] servers@[i])),
                    )
                &&& servers@.len() < usize::MAX ==> says_of(env, servers@.len() as usize, Ok(None))
            },
            Ok(None) => says_of(env, 0, Ok(None)),
            Err(e) => exists|i: usize| #[trigger] fails_at(env, i, e),
        },
{
    let mut servers: Vec<Server> = Vec::new();
    let mut index: usize = 0;
    let mut more: bool = true;
    while more && index < usize::MAX
        invariant
            index == servers@.len(),
            forall|i: int|
                0 <= i < servers@.len() ==> says_of(
                    env,
                    i as usize,
                    Ok(Some(#[trigger] servers@[i])),
                ),
            !more ==> says_of(env, index, Ok(None)),
        decreases usize::MAX - index, (if more { 1int } else { 0 }),
    {
        match parse_server_from_env(index, env) {
            Ok(Some(server)) => {
                servers.push(server);
                index = index + 1;
            },
            Ok(None) => {
                more = false;
            },
            Err(e) => {
                assert forall|j: usize| j < index implies #[trigger] describes(env, j) by {
                    assert(says_of(env, j, Ok(Some(servers@[j as int]))));
                }
                assert(fails_at(env, index, e));
                return Err(e);
            },
        }
    }
    if servers.len() == 0 {
        Ok(None)
    } else {
        Ok(Some(servers))
    }
}

/// Does the environment describe a first server?
pub fn has_server_env_vars<E: EnvProvider>(env: &E) -> (r: bool)
    ensures
        exists|host: Option<String>| #[trigger]
            answered(env, server_key(0, "HOST"@), host) && r == (host is Some),
{
    let host = ask(env, 0, "HOST");
    assert(answered(env, server_key(0, "HOST"@), host));
    host.is_some()
}

// ---------------------------------------------------------------------------
// Whole configurations
// ---------------------------------------------------------------------------

/// Why there is no configuration.
#[derive(Clone, Copy, Debug, PartialEq, Eq, Structural)]
pub enum LoadError {
    /// The environment describes no server.
    NoServersInEnv,
    Server(EnvServerError),
    Config(ConfigError),
}

/// A configuration of these servers and defaults otherwise.
pub fn config_from_servers(servers: Option<Vec<Server>>) -> (r: Result<Config, LoadError>)
    ensures
        match r {
            Ok(config) => servers is Some && servers->0@.len() > 0 && config.servers == servers->0
                && config.is_default_but_servers(),
            Err(e) => if servers is None {
                e == LoadError::NoServersInEnv
            } else {
                servers->0@.len() == 0 && e == LoadError::Config(ConfigError::NoServers)
            },
        },
{
    match servers {
        None => Err(LoadError::NoServersInEnv),
        Some(list) => {
            let mut config = Config::default();
            config.servers = list;
            match config.validate() {
                Ok(_) => Ok(config),
                Err(e) => Err(LoadError::Config(e)),
            }
        },
    }
}

/// The configuration that the environment describes.
pub fn load_config_from_env<E: EnvProvider>(env: &E) -> (r: Result<Config, LoadError>)
    ensures
        match r {
            Ok(config) => {
                &&& config.servers@.len() > 0
                &&& config.is_default_but_servers()
                &&& forall|i: int|
                    0 <= i < config.servers@.len() ==> says_of(
                        env,
                        i as usize,
                        Ok(Some(#[trigger] config.servers@[i])),
                    )
                &&& config.servers@.len() < usize::MAX ==> says_of(
                    env,
                    config.servers@.len() as usize,
                    Ok(None),
                )
            },
            Err(LoadError::NoServersInEnv) => says_of(env, 0, Ok(None)),
            Err(LoadError::Server(e)) => exists|i: usize| #[trigger] fails_at(env, i, e),
            Err(LoadError::Config(_)) => false,
        },
{
    match load_servers_from_env_provider(env) {
        Ok(servers) => config_from_servers(servers),
        Err(e) => Err(LoadError::Server(e)),
    }
}

/// The texts are equal up to ASCII letter case.
pub open spec fn same_word(text: Seq<char>, word: Seq<char>) -> bool {
    lower_bytes(encode_utf8(text)) == lower_bytes(encode_utf8(word))
}

/// The routing strategy that a variable asks for.
pub open spec fn strategy_named(text: Seq<char>) -> Option<RoutingStrategy> {
    if same_word(text, "round-robin"@) {
        Some(RoutingStrategy::RoundRobin)
    } else if same_word(text, "adaptive-weighted"@) {
        Some(RoutingStrategy::AdaptiveWeighted)
    } else {
        None
    }
}

/// The routing strategy that a variable asks for; an unknown one is ignored.
pub fn routing_strategy_override(text: &str) -> (r: Option<RoutingStrategy>)
    ensures
        r == strategy_named(text@),
{
    if str_eq_ignore_case(text, "round-robin") {
        Some(RoutingStrategy::RoundRobin)
    } else if str_eq_ignore_case(text, "adaptive-weighted") {
        Some(RoutingStrategy::AdaptiveWeighted)
    } else {
        None
    }
}

/// The switch that a variable sets.
pub open spec fn switch_named(text: Seq<char>) -> Option<bool> {
    if same_word(text, "true"@) || same_word(text, "1"@) || same_word(text, "yes"@) || same_word(
        text,
        "on"@,
    ) {
        Some(true)
    } else if same_word(text, "false"@) || same_word(text, "0"@) || same_word(text, "no"@)
        || same_word(text, "off"@) {
        Some(false)
    } else {
        None
    }
}

/// The switch that a variable sets; an unknown value is ignored.
pub fn precheck_override(text: &str) -> (r: Option<bool>)
    ensures
        r == switch_named(text@),
{
    if str_eq_ignore_case(text, "true") || str_eq_ignore_case(text, "1") || str_eq_ignore_case(
        text,
        "yes",
    ) || str_eq_ignore_case(text, "on") {
        Some(true)
    } else if str_eq_ignore_case(text, "false") || str_eq_ignore_case(text, "0")
        || str_eq_ignore_case(text, "no") || str_eq_ignore_case(text, "off") {
        Some(false)
    } else {
        None
    }
}

/// The routing section after the overrides of the environment.
pub open spec fn overridden(
    routing: Routing,
    strategy: Option<String>,
    precheck: Option<String>,
) -> Routing {
    Routing {
        strategy: match strategy {
            Some(s) => match strategy_named(s@) {
                Some(x) => x,
                None => routing.strategy,
            },
            None => routing.strategy,
        },
        adaptive_precheck: match precheck {
            Some(s) => match switch_named(s@) {
                Some(x) => x,
                None => routing.adaptive_precheck,
            },
            None => routing.adaptive_precheck,
        },
        ..routing
    }
}

/// A word that asks for something, in any letter case.
pub open spec fn asks_for(text: Seq<char>) -> bool {
    same_letters(text, "true"@) || same_letters(text, "1"@) || same_letters(text, "yes"@)
        || same_letters(text, "on"@)
}

/// A word that asks for something not to be, in any letter case.
pub open spec fn asks_against(text: Seq<char>) -> bool {
    same_letters(text, "false"@) || same_letters(text, "0"@) || same_letters(text, "no"@)
        || same_letters(text, "off"@)
}

/// `round-robin` and `adaptive-weighted`, in any letter case, each name a
/// strategy of their own. Any other text leaves the strategy as it was, and none
/// of them touches the rest of the section.
pub proof fn law_strategy_by_name(routing: Routing, text: String, precheck: Option<String>)
    ensures
        ({
            let after = overridden(routing, Some(text), precheck);
            &&& same_letters(text@, "round-robin"@) ==> after.strategy
                == RoutingStrategy::RoundRobin
            &&& same_letters(text@, "adaptive-weighted"@) ==> after.strategy
                == RoutingStrategy::AdaptiveWeighted
            &&& !same_letters(text@, "round-robin"@) && !same_letters(text@, "adaptive-weighted"@)
                ==> after.strategy == routing.strategy
            &&& after.routing_mode == routing.routing_mode
            &&& after.backend_selection == routing.backend_selection
            &&& after.precheck_cache_size == routing.precheck_cache_size
        }),
        overridden(routing, None, precheck).strategy == routing.strategy,
{
    reveal_strlit("round-robin");
    reveal_strlit("adaptive-weighted");
    law_letter_case(text@, "round-robin"@);
    law_letter_case(text@, "adaptive-weighted"@);
}

/// `true`, `1`, `yes` and `on` switch the precheck on, `false`, `0`, `no` and
/// `off` switch it off, in any letter case. Any other text leaves it as it was.
pub proof fn law_precheck_by_word(routing: Routing, strategy: Option<String>, text: String)
    ensures
        ({
            let after = overridden(routing, strategy, Some(text));
            &&& asks_for(text@) ==> after.adaptive_precheck
            &&& asks_against(text@) ==> !after.adaptive_precheck
            &&& !asks_for(text@) && !asks_against(text@) ==> after.adaptive_precheck
                == routing.adaptive_precheck
        }),
        overridden(routing, strategy, None).adaptive_precheck == routing.adaptive_precheck,
{
    reveal_strlit("true");
    reveal_strlit("1");
    reveal_strlit("yes");
    reveal_strlit("on");
    reveal_strlit("false");
    reveal_strlit("0");
    reveal_strlit("no");
    reveal_strlit("off");
    law_letter_case(text@, "true"@);
    law_letter_case(text@, "1"@);
    law_letter_case(text@, "yes"@);
    law_letter_case(text@, "on"@);
    law_letter_case(text@, "false"@);
    law_letter_case(text@, "0"@);
    law_letter_case(text@, "no"@);
    law_letter_case(text@, "off"@);
    if asks_against(text@) {
        assert(!asks_for(text@)) by {
            if same_letters(text@, "0"@) && same_letters(text@, "1"@) {
                assert(same_letter(text@[0], "0"@[0]) && same_letter(text@[0], "1"@[0]));
            }
            if same_letters(text@, "no"@) && same_letters(text@, "on"@) {
                assert(same_letter(text@[0], "no"@[0]) && same_letter(text@[0], "on"@[0]));
            }
            if same_letters(text@, "off"@) && same_letters(text@, "yes"@) {
                assert(same_letter(text@[0], "off"@[0]) && same_letter(text@[0], "yes"@[0]));
            }
        }
    }
}

/// Puts what the environment says over a configuration from a file, and checks
/// the outcome.
pub fn apply_env_overrides(
    config: Config,
    servers: Option<Vec<Server>>,
    strategy: Option<String>,
    precheck: Option<String>,
) -> (r: Result<Config, ConfigError>)
    ensures
        ({
            let wanted = match servers {
                Some(s) => s,
                None => config.servers,
            };
            match r {
                Ok(c) => wanted@.len() > 0 && c == (Config {
                    servers: wanted,
                    routing: overridden(config.routing, strategy, precheck),
                    ..config
                }),
                Err(e) => wanted@.len() == 0 && e == ConfigError::NoServers,
            }
        }),
        r is Ok && strategy is Some && same_letters(strategy->0@, "round-robin"@)
            ==> r->Ok_0.routing.strategy == RoutingStrategy::RoundRobin,
        r is Ok && strategy is Some && same_letters(strategy->0@, "adaptive-weighted"@)
            ==> r->Ok_0.routing.strategy == RoutingStrategy::AdaptiveWeighted,
        r is Ok && precheck is Some && asks_for(precheck->0@) ==> r->Ok_0.routing.adaptive_precheck,
        r is Ok && precheck is Some && asks_against(precheck->0@)
            ==> !r->Ok_0.routing.adaptive_precheck,
{
    proof {
        if strategy is Some {
            law_strategy_by_name(config.routing, strategy->0, precheck);
        }
        if precheck is Some {
            law_precheck_by_word(config.routing, strategy, precheck->0);
        }
    }
    let mut config = config;
    if let Some(list) = servers {
        config.servers = list;
    }
    if let Some(text) = &strategy {
        if let Some(s) = routing_strategy_override(text.as_str()) {
            config.routing.strategy = s;
        }
    }
    if let Some(text) = &precheck {
        if let Some(on) = precheck_override(text.as_str()) {
            config.routing.adaptive_precheck = on;
        }
    }
    match config.validate() {
        Ok(_) => Ok(config),
        Err(e) => Err(e),
    }
}

/// Where a configuration came from.
#[derive(Clone, Copy, Debug, PartialEq, Eq, Structural)]
pub enum ConfigSource {
    File,
    Environment,
    /// A default was written, since there was no file.
    DefaultCreated,
}

impl ConfigSource {
    pub open spec fn text(self) -> Seq<char> {
        match self {
            ConfigSource::File => "configuration file"@,
            ConfigSource::Environment => "environment variables"@,
            ConfigSource::DefaultCreated => "default configuration (created)"@,
        }
    }

    pub fn description(&self) -> (r: &'static str)
        ensures
            r@ == self.text(),
    {
        match self {
            ConfigSource::File => "configuration file",
            ConfigSource::Environment => "environment variables",
            ConfigSource::DefaultCreated => "default configuration (created)",
        }
    }
}

/// Where to take the configuration from: a file that exists, else an
/// environment that describes a server, else a default.
pub fn choose_source(file_exists: bool, env_has_server: bool) -> (r: ConfigSource)
    ensures
        r == (if file_exists {
            ConfigSource::File
        } else if env_has_server {
            ConfigSource::Environment
        } else {
            ConfigSource::DefaultCreated
        }),
{
    if file_exists {
        ConfigSource::File
    } else if env_has_server {
        ConfigSource::Environment
    } else {
        ConfigSource::DefaultCreated
    }
}

/// A configuration to start from, with one example server.
pub fn create_default_config() -> (r: Config)
    ensures
        r.is_default_but_servers(),
        r.servers@.len() == 1,
        ({
            let s = r.servers@[0];
            &&& s.host@ == "news.example.com"@
            &&& s.port@ == 119
            &&& s.name@ == "Example News Server"@
            &&& s.username is None
            &&& s.password is None
            &&& s.max_connections@ == 10
            &&& !s.use_tls
            &&& s.tls_verify_cert
            &&& s.tls_cert_path is None
            &&& s.connection_keepalive is None
        }),
{
    let builder = Server::builder("news.example.com", 119).name("Example News Server");
    proof {
        reveal_strlit("news.example.com");
        reveal_strlit("Example News Server");
        assert(!crate::text::is_white_space(builder.host@[0]));
        assert(!crate::text::is_white_space(builder.name->0@[0]));
    }
    let server = builder.build().unwrap();
    let mut config = Config::default();
    let mut servers: Vec<Server> = Vec::new();
    servers.push(server);
    config.servers = servers;
    config
}

/// A variable that is a number is read as that number, up to the largest that is
/// taken.
pub proof fn law_number_variables(text: String, n: nat, max: nat)
    requires
        text@ == decimal_text(n),
    ensures
        number_var(Some(text), max) == (if n <= max {
            Some(n)
        } else {
            None
        }),
{
    let d = crate::bytes::decimal(n);
    crate::bytes::lemma_decimal_parts(n);
    crate::bytes::law_decimal_round_trip(n);
    assert forall|i: int| 0 <= i < d.len() implies #[trigger] d[i] < 0x80 by {
        assert(crate::bytes::is_digit(d[i]));
    }
    crate::text::lemma_encode_ascii_front(d, Seq::empty());
    assert(decimal_text(n) + Seq::<char>::empty() =~= decimal_text(n));
    assert(encode_utf8(Seq::<char>::empty()) =~= Seq::<u8>::empty());
    assert(encode_utf8(text@) =~= d);
}

/// A variable switches something on or off as `true` or `false` alone.
pub proof fn law_switch_variables(text: String, default: bool)
    ensures
        text@ == seq!['t', 'r', 'u', 'e'] ==> bool_var(Some(text), default),
        text@ == seq!['f', 'a', 'l', 's', 'e'] ==> !bool_var(Some(text), default),
        text@ != seq!['t', 'r', 'u', 'e'] && text@ != seq!['f', 'a', 'l', 's', 'e'] ==> bool_var(
            Some(text),
            default,
        ) == default,
        bool_var(None, default) == default,
{
    reveal_strlit("true");
    reveal_strlit("false");
    assert("true"@ =~= seq!['t', 'r', 'u', 'e']);
    assert("false"@ =~= seq!['f', 'a', 'l', 's', 'e']);
}

/// The variables of a server are what it is made of: its host, its port and its
/// limits as they are written, its account as it stands.
pub proof fn law_variables_make_the_server(server: Server, index: nat, vars: ServerVars, n: nat)
    requires
        described(server, index, vars),
    ensures
        vars.host is Some && server.host@ == vars.host->0@,
        vars.name is Some ==> server.name@ == vars.name->0@,
        server.username == vars.username,
        server.password == vars.password,
        server.tls_cert_path == vars.tls_cert_path,
        vars.port is Some && vars.port->0@ == decimal_text(n) && n <= 65535 ==> server.port@ == n,
        vars.max_connections is Some && vars.max_connections->0@ == decimal_text(n) && 0 < n
            <= usize::MAX ==> server.max_connections@ == n,
        vars.use_tls is Some && vars.use_tls->0@ == seq!['t', 'r', 'u', 'e'] ==> server.use_tls,
        vars.tls_verify_cert is Some && vars.tls_verify_cert->0@ == seq!['f', 'a', 'l', 's', 'e']
            ==> !server.tls_verify_cert,
        vars.connection_keepalive is Some && vars.connection_keepalive->0@ == decimal_text(n) && n
            <= u64::MAX ==> server.connection_keepalive is Some && server.connection_keepalive->0@
            == n * 1_000_000_000,
        vars.health_check_max_per_cycle is Some && vars.health_check_max_per_cycle->0@
            == decimal_text(n) && n <= usize::MAX ==> server.health_check_max_per_cycle == n,
        vars.health_check_pool_timeout is Some && vars.health_check_pool_timeout->0@
            == decimal_text(n) && n <= u64::MAX ==> server.health_check_pool_timeout@ == n
            * 1_000_000_000,
{
    if vars.port is Some && vars.port->0@ == decimal_text(n) {
        law_number_variables(vars.port->0, n, 65535);
    }
    if vars.max_connections is Some && vars.max_connections->0@ == decimal_text(n) {
        law_number_variables(vars.max_connections->0, n, usize::MAX as nat);
    }
    if vars.use_tls is Some {
        law_switch_variables(vars.use_tls->0, false);
    }
    if vars.tls_verify_cert is Some {
        law_switch_variables(vars.tls_verify_cert->0, true);
    }
    if vars.connection_keepalive is Some && vars.connection_keepalive->0@ == decimal_text(n) {
        law_number_variables(vars.connection_keepalive->0, n, u64::MAX as nat);
    }
    if vars.health_check_max_per_cycle is Some && vars.health_check_max_per_cycle->0@
        == decimal_text(n) {
        law_number_variables(vars.health_check_max_per_cycle->0, n, usize::MAX as nat);
    }
    if vars.health_check_pool_timeout is Some && vars.health_check_pool_timeout->0@
        == decimal_text(n) {
        law_number_variables(vars.health_check_pool_timeout->0, n, u64::MAX as nat);
    }
}

/// A server of which only the host is set is asked on port 119, without TLS, over
/// ten connections at most, and is called by its number; once TLS is on its
/// certificate is verified.
pub proof fn law_server_defaults(server: Server, index: nat, vars: ServerVars)
    requires
        described(server, index, vars),
    ensures
        vars.port is None ==> server.port@ == 119,
        vars.name is None ==> server.name@ == seq!['S', 'e', 'r', 'v', 'e', 'r', ' ']
            + decimal_text(index),
        vars.max_connections is None ==> server.max_connections@ == 10,
        vars.use_tls is None ==> !server.use_tls,
        vars.tls_verify_cert is None ==> server.tls_verify_cert,
        vars.connection_keepalive is None ==> server.connection_keepalive is None,
        vars.health_check_max_per_cycle is None ==> server.health_check_max_per_cycle == 5,
        vars.health_check_pool_timeout is None ==> server.health_check_pool_timeout@
            == 100 * 1_000_000,
        server.precheck_command == PrecheckCommand::Auto,
        !server.backend_pipelining,
        server.availability_namespace is None,
{
    reveal_strlit("Server ");
    reveal_strlit("");
    assert("Server "@ + decimal_text(index) + ""@ =~= seq!['S', 'e', 'r', 'v', 'e', 'r', ' ']
        + decimal_text(index));
}

/// Variables that name a host make a server unless the host or the name is blank
/// or the port is zero, and the first of these is what is told.
pub proof fn law_faulty_variables(index: usize, vars: ServerVars)
    requires
        vars.host is Some,
    ensures
        blank(vars.host->0@) ==> vars_refusal(index, vars) == Some(
            EnvServerError::InvalidHost(index),
        ),
        !blank(vars.host->0@) && port_of(vars) == 0 ==> vars_refusal(index, vars) == Some(
            EnvServerError::InvalidPort(index),
        ),
        !blank(vars.host->0@) && port_of(vars) != 0 && vars.name is Some && blank(vars.name->0@)
            ==> vars_refusal(index, vars) == Some(EnvServerError::InvalidName(index)),
        !blank(vars.host->0@) && port_of(vars) != 0 && (vars.name is Some ==> !blank(
            vars.name->0@,
        )) ==> vars_refusal(index, vars) is None,
{
    if vars.name is None {
        reveal_strlit("Server ");
        reveal_strlit("");
        let name = name_of(index as nat, vars);
        assert(name[0] == 'S');
        assert(!crate::text::is_white_space(name[0]));
    }
}

/// The words for where a configuration comes from.
pub proof fn law_words_for_sources(e: ConfigSource)
    ensures
        e.text() == (match e {
            ConfigSource::File => "configuration"@ + " file"@,
            ConfigSource::Environment => "environment"@ + " variables"@,
            ConfigSource::DefaultCreated => "default configuration"@ + " (created)"@,
        }),
{
    reveal_strlit("configuration file");
    reveal_strlit("configuration");
    reveal_strlit(" file");
    reveal_strlit("environment variables");
    reveal_strlit("environment");
    reveal_strlit(" variables");
    reveal_strlit("default configuration (created)");
    reveal_strlit("default configuration");
    reveal_strlit(" (created)");
}

/// The words for a faulty variable name it, as the environment does.
pub proof fn law_words_for_faulty_variables(index: usize)
    ensures
        EnvServerError::InvalidHost(index).text() == "Invalid hostname"@ + " in NNTP_SERVER_"@
            + decimal_text(index as nat) + "_HOST"@,
        EnvServerError::InvalidPort(index).text() == "Invalid port"@ + " in NNTP_SERVER_"@
            + decimal_text(index as nat) + "_PORT: 0"@,
        EnvServerError::InvalidName(index).text() == "Invalid server name"@ + " in NNTP_SERVER_"@
            + decimal_text(index as nat) + "_NAME"@,
{
    reveal_strlit("");
    reveal_strlit("_");
    reveal_strlit("HOST");
    reveal_strlit("PORT");
    reveal_strlit("NAME");
    reveal_strlit(": 0");
    reveal_strlit("_HOST");
    reveal_strlit("_PORT: 0");
    reveal_strlit("_NAME");
    reveal_strlit("NNTP_SERVER_");
    reveal_strlit(" in NNTP_SERVER_");
    reveal_strlit("Invalid hostname");
    reveal_strlit("Invalid port");
    reveal_strlit("Invalid server name");
    reveal_strlit("Invalid hostname in ");
    reveal_strlit("Invalid port in ");
    reveal_strlit("Invalid server name in ");
    assert(EnvServerError::InvalidHost(index).text() =~= "Invalid hostname"@ + " in NNTP_SERVER_"@
        + decimal_text(index as nat) + "_HOST"@);
    assert(EnvServerError::InvalidPort(index).text() =~= "Invalid port"@ + " in NNTP_SERVER_"@
        + decimal_text(index as nat) + "_PORT: 0"@);
    assert(EnvServerError::InvalidName(index).text() =~= "Invalid server name"@
        + " in NNTP_SERVER_"@ + decimal_text(index as nat) + "_NAME"@);
}

/// Each setting of a server is looked up under the prefix, the number of the
/// server and the name of the setting; without a host nothing else is.
pub proof fn law_names_of_variables<E: EnvProvider>(env: &E, index: nat, vars: ServerVars)
    ensures
        ({
            let of = |name: Seq<char>| "NNTP_SERVER_"@ + decimal_text(index) + name;
            found_in(env, index, vars) <==> {
                &&& answered(env, of("_HOST"@), vars.host)
                &&& vars.host is Some ==> {
                    &&& answered(env, of("_PORT"@), vars.port)
                    &&& answered(env, of("_NAME"@), vars.name)
                    &&& answered(env, of("_USERNAME"@), vars.username)
                    &&& answered(env, of("_PASSWORD"@), vars.password)
                    &&& answered(env, of("_MAX_CONNECTIONS"@), vars.max_connections)
                    &&& answered(env, of("_USE_TLS"@), vars.use_tls)
                    &&& answered(env, of("_TLS_VERIFY_CERT"@), vars.tls_verify_cert)
                    &&& answered(env, of("_TLS_CERT_PATH"@), vars.tls_cert_path)
                    &&& answered(env, of("_CONNECTION_KEEPALIVE"@), vars.connection_keepalive)
                    &&& answered(
                        env,
                        of("_HEALTH_CHECK_MAX_PER_CYCLE"@),
                        vars.health_check_max_per_cycle,
                    )
                    &&& answered(
                        env,
                        of("_HEALTH_CHECK_POOL_TIMEOUT"@),
                        vars.health_check_pool_timeout,
                    )
                }
            }
        }),
{
    reveal_strlit("");
    reveal_strlit("_");
    reveal_strlit("HOST");
    reveal_strlit("_HOST");
    reveal_strlit("PORT");
    reveal_strlit("_PORT");
    reveal_strlit("NAME");
    reveal_strlit("_NAME");
    reveal_strlit("USERNAME");
    reveal_strlit("_USERNAME");
    reveal_strlit("PASSWORD");
    reveal_strlit("_PASSWORD");
    reveal_strlit("MAX_CONNECTIONS");
    reveal_strlit("_MAX_CONNECTIONS");
    reveal_strlit("USE_TLS");
    reveal_strlit("_USE_TLS");
    reveal_strlit("TLS_VERIFY_CERT");
    reveal_strlit("_TLS_VERIFY_CERT");
    reveal_strlit("TLS_CERT_PATH");
    reveal_strlit("_TLS_CERT_PATH");
    reveal_strlit("CONNECTION_KEEPALIVE");
    reveal_strlit("_CONNECTION_KEEPALIVE");
    reveal_strlit("HEALTH_CHECK_MAX_PER_CYCLE");
    reveal_strlit("_HEALTH_CHECK_MAX_PER_CYCLE");
    reveal_strlit("HEALTH_CHECK_POOL_TIMEOUT");
    reveal_strlit("_HEALTH_CHECK_POOL_TIMEOUT");
    let start = "NNTP_SERVER_"@ + decimal_text(index);
    assert(server_key(index, "HOST"@) =~= start + "_HOST"@);
    assert(server_key(index, "PORT"@) =~= start + "_PORT"@);
    assert(server_key(index, "NAME"@) =~= start + "_NAME"@);
    assert(server_key(index, "USERNAME"@) =~= start + "_USERNAME"@);
    assert(server_key(index, "PASSWORD"@) =~= start + "_PASSWORD"@);
    assert(server_key(index, "MAX_CONNECTIONS"@) =~= start + "_MAX_CONNECTIONS"@);
    assert(server_key(index, "USE_TLS"@) =~= start + "_USE_TLS"@);
    assert(server_key(index, "TLS_VERIFY_CERT"@) =~= start + "_TLS_VERIFY_CERT"@);
    assert(server_key(index, "TLS_CERT_PATH"@) =~= start + "_TLS_CERT_PATH"@);
    assert(server_key(index, "CONNECTION_KEEPALIVE"@) =~= start + "_CONNECTION_KEEPALIVE"@);
    assert(server_key(index, "HEALTH_CHECK_MAX_PER_CYCLE"@) =~= start + "_HEALTH_CHECK_MAX_PER_CYCLE"@);
    assert(server_key(index, "HEALTH_CHECK_POOL_TIMEOUT"@) =~= start + "_HEALTH_CHECK_POOL_TIMEOUT"@);
}

} // verus!
