//! Configuration from the environment, and where a configuration comes from.
use nntp_proxy::config::loading::{
    apply_env_overrides, choose_source, config_from_servers, create_default_config,
    has_server_env_vars, load_config_from_env, load_servers_from_env_provider,
    parse_server_from_env, precheck_override, routing_strategy_override, server_variable,
    ConfigSource, EnvProvider, EnvServerError, LoadError,
};
use nntp_proxy::config::plain;
use nntp_proxy::config::types::{Config, RoutingStrategy, Server};
use nntp_proxy::config::validation::ConfigError;
use nntp_proxy::types::Duration;
use std::collections::HashMap;

struct MockEnv {
    vars: HashMap<String, String>,
}

impl MockEnv {
    fn new() -> Self {
        MockEnv {
            vars: HashMap::new(),
        }
    }

    fn set(&mut self, key: &str, value: &str) -> &mut Self {
        self.vars.insert(key.to_string(), value.to_string());
        self
    }
}

impl EnvProvider for MockEnv {
    fn get(&self, key: &str) -> Option<String> {
        self.vars.get(key).cloned()
    }
}

#[test]
fn test_parse_server_from_env_minimal() {
    let mut env = MockEnv::new();
    env.set("NNTP_SERVER_0_HOST", "news.example.com");

    let server = parse_server_from_env(0, &env).unwrap();
    assert!(server.is_some());

    let server = server.unwrap();
    assert_eq!(server.host.as_str(), "news.example.com");
    assert_eq!(server.port.get(), 119); // Default port
    assert_eq!(server.name.as_str(), "Server 0"); // Default name
    assert!(server.username.is_none());
    assert!(server.password.is_none());
}

#[test]
fn test_parse_server_from_env_full() {
    let mut env = MockEnv::new();
    env.set("NNTP_SERVER_0_HOST", "secure.example.com")
        .set("NNTP_SERVER_0_PORT", "563")
        .set("NNTP_SERVER_0_NAME", "Secure News")
        .set("NNTP_SERVER_0_USERNAME", "testuser")
        .set("NNTP_SERVER_0_PASSWORD", "testpass")
        .set("NNTP_SERVER_0_MAX_CONNECTIONS", "20")
        .set("NNTP_SERVER_0_USE_TLS", "true")
        .set("NNTP_SERVER_0_TLS_VERIFY_CERT", "false");

    let server = parse_server_from_env(0, &env).unwrap().unwrap();
    assert_eq!(server.host.as_str(), "secure.example.com");
    assert_eq!(server.port.get(), 563);
    assert_eq!(server.name.as_str(), "Secure News");
    assert_eq!(server.username, Some("testuser".to_string()));
    assert_eq!(server.password, Some("testpass".to_string()));
    assert_eq!(server.max_connections.get(), 20);
    assert!(server.use_tls);
    assert!(!server.tls_verify_cert);
}

#[test]
fn test_parse_server_from_env_no_host() {
    let env = MockEnv::new();
    let server = parse_server_from_env(0, &env).unwrap();
    assert!(server.is_none());
}

#[test]
fn test_parse_server_from_env_invalid_port() {
    let mut env = MockEnv::new();
    env.set("NNTP_SERVER_0_HOST", "news.example.com")
        .set("NNTP_SERVER_0_PORT", "invalid");

    let server = parse_server_from_env(0, &env).unwrap().unwrap();
    assert_eq!(server.port.get(), 119); // Falls back to default
}

#[test]
fn test_parse_server_from_env_invalid_max_connections() {
    let mut env = MockEnv::new();
    env.set("NNTP_SERVER_0_HOST", "news.example.com")
        .set("NNTP_SERVER_0_MAX_CONNECTIONS", "not_a_number");

    let server = parse_server_from_env(0, &env).unwrap().unwrap();
    assert_eq!(server.max_connections.get(), 10); // Default
}

#[test]
fn test_parse_server_from_env_zero_max_connections() {
    let mut env = MockEnv::new();
    env.set("NNTP_SERVER_0_HOST", "news.example.com")
        .set("NNTP_SERVER_0_MAX_CONNECTIONS", "0");

    let server = parse_server_from_env(0, &env).unwrap().unwrap();
    assert_eq!(server.max_connections.get(), 10); // Falls back to default (NonZero rejects 0)
}

#[test]
fn test_parse_server_from_env_keepalive() {
    let mut env = MockEnv::new();
    env.set("NNTP_SERVER_0_HOST", "news.example.com")
        .set("NNTP_SERVER_0_CONNECTION_KEEPALIVE", "300");

    let server = parse_server_from_env(0, &env).unwrap().unwrap();
    assert_eq!(
        server.connection_keepalive,
        Some(Duration::from_secs(300))
    );
}

#[test]
fn test_parse_server_from_env_health_check_config() {
    let mut env = MockEnv::new();
    env.set("NNTP_SERVER_0_HOST", "news.example.com")
        .set("NNTP_SERVER_0_HEALTH_CHECK_MAX_PER_CYCLE", "5")
        .set("NNTP_SERVER_0_HEALTH_CHECK_POOL_TIMEOUT", "15");

    let server = parse_server_from_env(0, &env).unwrap().unwrap();
    assert_eq!(server.health_check_max_per_cycle, 5);
    assert_eq!(
        server.health_check_pool_timeout,
        Duration::from_secs(15)
    );
}

#[test]
fn test_parse_server_from_env_tls_cert_path() {
    let mut env = MockEnv::new();
    env.set("NNTP_SERVER_0_HOST", "news.example.com")
        .set("NNTP_SERVER_0_USE_TLS", "true")
        .set("NNTP_SERVER_0_TLS_CERT_PATH", "/path/to/ca.pem");

    let server = parse_server_from_env(0, &env).unwrap().unwrap();
    assert!(server.use_tls);
    assert_eq!(server.tls_cert_path, Some("/path/to/ca.pem".to_string()));
}

#[test]
fn test_load_servers_from_env_provider_empty() {
    let env = MockEnv::new();
    let servers = load_servers_from_env_provider(&env).unwrap();
    assert!(servers.is_none());
}

#[test]
fn test_load_servers_from_env_provider_single() {
    let mut env = MockEnv::new();
    env.set("NNTP_SERVER_0_HOST", "news1.example.com");

    let servers = load_servers_from_env_provider(&env).unwrap();
    assert!(servers.is_some());

    let servers = servers.unwrap();
    assert_eq!(servers.len(), 1);
    assert_eq!(servers[0].host.as_str(), "news1.example.com");
}

#[test]
fn test_load_servers_from_env_provider_multiple() {
    let mut env = MockEnv::new();
    env.set("NNTP_SERVER_0_HOST", "news1.example.com")
        .set("NNTP_SERVER_0_PORT", "119")
        .set("NNTP_SERVER_1_HOST", "news2.example.com")
        .set("NNTP_SERVER_1_PORT", "563")
        .set("NNTP_SERVER_1_USE_TLS", "true")
        .set("NNTP_SERVER_2_HOST", "news3.example.com");

    let servers = load_servers_from_env_provider(&env).unwrap();
    assert!(servers.is_some());

    let servers = servers.unwrap();
    assert_eq!(servers.len(), 3);
    assert_eq!(servers[0].host.as_str(), "news1.example.com");
    assert_eq!(servers[1].host.as_str(), "news2.example.com");
    assert_eq!(servers[2].host.as_str(), "news3.example.com");
    assert!(servers[1].use_tls);
    assert!(!servers[0].use_tls);
}

#[test]
fn test_load_servers_from_env_provider_gaps() {
    let mut env = MockEnv::new();
    // Server 0 and 2 defined, but not 1 - should stop at 1
    env.set("NNTP_SERVER_0_HOST", "news1.example.com")
        .set("NNTP_SERVER_2_HOST", "news3.example.com");

    let servers = load_servers_from_env_provider(&env).unwrap();
    assert!(servers.is_some());

    let servers = servers.unwrap();
    // Should only get server 0, stops at first gap
    assert_eq!(servers.len(), 1);
    assert_eq!(servers[0].host.as_str(), "news1.example.com");
}

#[test]
fn test_parse_server_from_env_bool_variations() {
    let mut env = MockEnv::new();
    env.set("NNTP_SERVER_0_HOST", "news.example.com")
        .set("NNTP_SERVER_0_USE_TLS", "True")
        .set("NNTP_SERVER_0_TLS_VERIFY_CERT", "FALSE");

    let server = parse_server_from_env(0, &env).unwrap().unwrap();
    // Rust's parse::<bool>() requires exact "true"/"false" lowercase
    // So these should fail to parse and use defaults
    assert!(!server.use_tls); // Defaults to false
    assert!(server.tls_verify_cert); // Defaults to true
}

#[test]
fn test_parse_server_from_env_correct_bool() {
    let mut env = MockEnv::new();
    env.set("NNTP_SERVER_0_HOST", "news.example.com")
        .set("NNTP_SERVER_0_USE_TLS", "true")
        .set("NNTP_SERVER_0_TLS_VERIFY_CERT", "false");

    let server = parse_server_from_env(0, &env).unwrap().unwrap();
    assert!(server.use_tls);
    assert!(!server.tls_verify_cert);
}

#[test]
fn test_config_source_description() {
    assert_eq!(ConfigSource::File.description(), "configuration file");
    assert_eq!(
        ConfigSource::Environment.description(),
        "environment variables"
    );
    assert_eq!(
        ConfigSource::DefaultCreated.description(),
        "default configuration (created)"
    );
}

#[test]
fn test_config_source_equality() {
    assert_eq!(ConfigSource::File, ConfigSource::File);
    assert_ne!(ConfigSource::File, ConfigSource::Environment);
    assert_ne!(ConfigSource::Environment, ConfigSource::DefaultCreated);
}

#[test]
fn loading_test_create_default_config() {
    let config = create_default_config();
    assert_eq!(config.servers.len(), 1);
    assert_eq!(config.servers[0].host.as_str(), "news.example.com");
    assert_eq!(config.servers[0].port.get(), 119);
    assert!(!config.servers[0].use_tls);
}

#[test]
fn test_server_config_creation() {
    let config = plain::ServerConfig {
        host: "news.example.com".to_string(),
        port: 119,
        name: "Example Server".to_string(),
        username: None,
        password: None,
        max_connections: 15,
        use_tls: false,
        tls_verify_cert: plain::default_tls_verify_cert(),
        tls_cert_path: None,
    };

    assert_eq!(config.host, "news.example.com");
    assert_eq!(config.port, 119);
    assert_eq!(config.name, "Example Server");
    assert_eq!(config.max_connections, 15);
}

#[test]
fn config_test_create_default_config() {
    let config = plain::create_default_config();

    assert_eq!(config.servers.len(), 1);
    assert_eq!(config.servers[0].host, "news.example.com");
    assert_eq!(config.servers[0].port, 119);
    assert_eq!(config.servers[0].name, "Example News Server");
}

#[test]
fn test_load_servers_from_env() {
    let mut env = MockEnv::new();
    env.set("NNTP_SERVER_0_HOST", "env-server1.com");
    env.set("NNTP_SERVER_0_PORT", "8119");
    env.set("NNTP_SERVER_0_NAME", "Env Server 1");
    env.set("NNTP_SERVER_0_USERNAME", "envuser");
    env.set("NNTP_SERVER_0_PASSWORD", "envpass");
    env.set("NNTP_SERVER_0_MAX_CONNECTIONS", "15");

    env.set("NNTP_SERVER_1_HOST", "env-server2.com");
    env.set("NNTP_SERVER_1_PORT", "119");
    // No name set - should use default "Server 1"
    // No max_connections set - should use default 10

    let servers = plain::load_servers_from_env(&env).expect("Should load servers from env");

    assert_eq!(servers.len(), 2);

    // Check first server
    assert_eq!(servers[0].host, "env-server1.com");
    assert_eq!(servers[0].port, 8119);
    assert_eq!(servers[0].name, "Env Server 1");
    assert_eq!(servers[0].username, Some("envuser".to_string()));
    assert_eq!(servers[0].password, Some("envpass".to_string()));
    assert_eq!(servers[0].max_connections, 15);

    // Check second server
    assert_eq!(servers[1].host, "env-server2.com");
    assert_eq!(servers[1].port, 119);
    assert_eq!(servers[1].name, "Server 1"); // Default name
    assert_eq!(servers[1].username, None);
    assert_eq!(servers[1].password, None);
    assert_eq!(servers[1].max_connections, 10); // Default

}

#[test]
fn test_load_servers_from_env_empty() {
    let env = MockEnv::new();

    let servers = plain::load_servers_from_env(&env);
    assert!(servers.is_none(), "Should return None when no env vars set");
}

#[test]
fn a_blank_host_is_named_by_its_variable() {
    let mut env = MockEnv::new();
    env.set("NNTP_SERVER_0_HOST", "   ");
    let error = parse_server_from_env(0, &env).unwrap_err();
    assert_eq!(error, EnvServerError::InvalidHost(0));
    assert_eq!(error.message(), "Invalid hostname in NNTP_SERVER_0_HOST");

    let mut env = MockEnv::new();
    env.set("NNTP_SERVER_0_HOST", "a")
        .set("NNTP_SERVER_1_HOST", "b")
        .set("NNTP_SERVER_1_PORT", "0");
    let error = load_servers_from_env_provider(&env).unwrap_err();
    assert_eq!(error, EnvServerError::InvalidPort(1));
    assert_eq!(error.message(), "Invalid port in NNTP_SERVER_1_PORT: 0");
    assert_eq!(
        load_config_from_env(&env),
        Err(LoadError::Server(EnvServerError::InvalidPort(1)))
    );

    let mut env = MockEnv::new();
    env.set("NNTP_SERVER_7_HOST", "a")
        .set("NNTP_SERVER_7_NAME", " ");
    let error = parse_server_from_env(7, &env).unwrap_err();
    assert_eq!(error, EnvServerError::InvalidName(7));
    assert_eq!(error.message(), "Invalid server name in NNTP_SERVER_7_NAME");
}

#[test]
fn an_environment_without_servers_gives_no_configuration() {
    let env = MockEnv::new();
    assert!(!has_server_env_vars(&env));
    assert_eq!(load_config_from_env(&env), Err(LoadError::NoServersInEnv));
    assert_eq!(
        config_from_servers(Some(vec![])),
        Err(LoadError::Config(ConfigError::NoServers))
    );
    let mut env = MockEnv::new();
    env.set("NNTP_SERVER_0_HOST", "a");
    assert!(has_server_env_vars(&env));
    assert_eq!(load_config_from_env(&env).unwrap().servers.len(), 1);
    assert_eq!(server_variable(12, "PORT"), "NNTP_SERVER_12_PORT");
}

#[test]
fn the_environment_goes_before_the_file() {
    let server = |name: &str| Server::builder("h", 1).name(name).build().unwrap();
    let file = Config {
        servers: vec![server("file")],
        ..Default::default()
    };
    let config = apply_env_overrides(
        file,
        Some(vec![server("env")]),
        Some("Adaptive-Weighted".to_string()),
        Some("ON".to_string()),
    )
    .unwrap();
    assert_eq!(config.servers[0].name.as_str(), "env");
    assert_eq!(config.routing.strategy, RoutingStrategy::AdaptiveWeighted);
    assert!(config.routing.adaptive_precheck);
    assert_eq!(routing_strategy_override("random"), None);
    assert_eq!(precheck_override("off"), Some(false));
    assert_eq!(precheck_override("maybe"), None);
    let none = apply_env_overrides(Config::default(), None, None, None);
    assert_eq!(none, Err(ConfigError::NoServers));
}

#[test]
fn a_file_goes_before_everything_else() {
    assert_eq!(choose_source(true, true), ConfigSource::File);
    assert_eq!(choose_source(false, true), ConfigSource::Environment);
    assert_eq!(choose_source(false, false), ConfigSource::DefaultCreated);
}

fn plain_server(name: &str, host: &str, port: u16, max_connections: u32) -> plain::ServerConfig {
    plain::ServerConfig {
        host: host.to_string(),
        port,
        name: name.to_string(),
        username: None,
        password: None,
        max_connections,
        use_tls: false,
        tls_verify_cert: true,
        tls_cert_path: None,
    }
}

#[test]
fn a_plain_configuration_is_refused_for_its_first_fault() {
    let refused = |config: plain::Config| {
        let e = config.validate().unwrap_err();
        (e, config.refusal_message(e))
    };
    let with = |server: plain::ServerConfig| plain::Config {
        servers: vec![server],
        ..Default::default()
    };
    assert_eq!(
        refused(plain::Config::default()).0,
        plain::ConfigRefusal::NoServers
    );
    assert_eq!(
        refused(with(plain_server(" ", "h", 1, 1))).0,
        plain::ConfigRefusal::EmptyName(0)
    );
    assert_eq!(
        refused(with(plain_server("n", "", 1, 1))),
        (
            plain::ConfigRefusal::EmptyHost(0),
            "Server 'n' has empty host".to_string()
        )
    );
    assert_eq!(
        refused(with(plain_server("n", "h", 0, 1))).0,
        plain::ConfigRefusal::PortZero(0)
    );
    assert_eq!(
        refused(with(plain_server("n", "h", 1, 0))).0,
        plain::ConfigRefusal::NoConnections(0)
    );
    let mut config = with(plain_server("n", "h", 1, 1));
    config.health_check.interval_secs = 0;
    assert_eq!(refused(config).0, plain::ConfigRefusal::HealthInterval);
    let mut config = with(plain_server("n", "h", 1, 1));
    config.health_check.timeout_secs = 0;
    assert_eq!(refused(config).0, plain::ConfigRefusal::HealthTimeout);
    let mut config = with(plain_server("n", "h", 1, 1));
    config.health_check.unhealthy_threshold = 0;
    assert_eq!(refused(config).0, plain::ConfigRefusal::HealthThreshold);
    let mut config = with(plain_server("n", "h", 1, 1));
    config.cache = Some(plain::CacheConfig {
        max_capacity: 0,
        ttl_secs: 1,
    });
    assert_eq!(refused(config).0, plain::ConfigRefusal::CacheCapacity);
    let mut config = with(plain_server("n", "h", 1, 1));
    config.cache = Some(plain::CacheConfig {
        max_capacity: 1,
        ttl_secs: 0,
    });
    assert_eq!(refused(config).0, plain::ConfigRefusal::CacheTtl);
    assert!(with(plain_server("n", "h", 1, 1)).validate().is_ok());
    assert!(
        plain::with_env_servers(
            plain::Config::default(),
            Some(vec![plain_server("n", "h", 1, 1)])
        )
        .is_ok()
    );
}
