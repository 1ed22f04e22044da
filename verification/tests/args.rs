//! The arguments of the program and what they change.
use nntp_proxy::args::{
    listener_ips_conflict, parse_capacity, parse_port, proxy_listener_conflicts, ArgsError,
    CommonArgs, IpAddress, LegacyVars, PortTextError, SocketAddress, UiMode,
};
use nntp_proxy::config::loading::EnvProvider;
use nntp_proxy::config::types::{BackendSelectionStrategy, Config, RoutingMode, Server};
use nntp_proxy::types::{CacheCapacity, ConfigPath, Duration, Port, ThreadCount};

fn local(port: u16) -> SocketAddress {
    SocketAddress { ip: IpAddress::v4(127, 0, 0, 1), port }
}

/// The addresses of the name `localhost`.
fn localhost() -> Option<Vec<IpAddress>> {
    Some(vec![IpAddress::V6(1), IpAddress::v4(127, 0, 0, 1)])
}

fn no_vars() -> LegacyVars {
    LegacyVars { capacity: None, ttl: None, articles: None, pipelining: None }
}

struct OldVars;

impl EnvProvider for OldVars {
    fn get(&self, key: &str) -> Option<String> {
        match key {
            "NNTP_PROXY_CACHE_CAPACITY" => Some("128mb".to_string()),
            "NNTP_PROXY_CACHE_TTL" => Some("7200".to_string()),
            "NNTP_PROXY_CACHE_ARTICLES" => Some("false".to_string()),
            "NNTP_PROXY_ENABLE_PIPELINING" => Some("true".to_string()),
            _ => None,
        }
    }
}

#[test]
fn test_common_args_defaults() {
    let args = default_args();

    assert_eq!(args.listen_addr(None), "0.0.0.0:8119");
    assert_eq!(args.effective_host(), "0.0.0.0");
    assert!(args.effective_port(None).is_none());
    assert_eq!(args.effective_ui_mode(), UiMode::Headless);
}

#[test]
fn test_common_args_with_port() {
    let args = CommonArgs {
        port: Some(Port::try_new(9119).unwrap()),
        ..default_args()
    };

    assert_eq!(args.listen_addr(None), "0.0.0.0:9119");
    assert_eq!(
        args.effective_port(None),
        Some(Port::try_new(9119).unwrap())
    );
}

#[test]
fn test_common_args_with_host() {
    let args = CommonArgs {
        host: Some("127.0.0.1".to_string()),
        ..default_args()
    };

    assert_eq!(args.listen_addr(None), "127.0.0.1:8119");
    assert_eq!(args.effective_host(), "127.0.0.1");
}

#[test]
fn test_common_args_port_override() {
    let args = CommonArgs {
        port: Some(Port::try_new(9119).unwrap()),
        ..default_args()
    };

    let config_port = Some(Port::try_new(7119).unwrap());

    // Args port should override config port
    assert_eq!(args.listen_addr(config_port), "0.0.0.0:9119");
    assert_eq!(
        args.effective_port(config_port),
        Some(Port::try_new(9119).unwrap())
    );
}

#[test]
fn test_common_args_config_port_fallback() {
    let args = default_args();
    let config_port = Some(Port::try_new(7119).unwrap());

    // Should use config port when args port is None
    assert_eq!(args.listen_addr(config_port), "0.0.0.0:7119");
    assert_eq!(
        args.effective_port(config_port),
        Some(Port::try_new(7119).unwrap())
    );
}

#[test]
fn test_common_args_custom_host_and_port() {
    let args = CommonArgs {
        port: Some(Port::try_new(9119).unwrap()),
        host: Some("192.168.1.1".to_string()),
        ..default_args()
    };

    assert_eq!(args.listen_addr(None), "192.168.1.1:9119");
    assert_eq!(args.effective_host(), "192.168.1.1");
    assert_eq!(
        args.effective_port(None),
        Some(Port::try_new(9119).unwrap())
    );
}

#[test]
fn test_routing_modes() {
    let hybrid = CommonArgs {
        routing_mode: Some(RoutingMode::Hybrid),
        ..default_args()
    };
    assert_eq!(hybrid.routing_mode, Some(RoutingMode::Hybrid));

    let stateful = CommonArgs {
        routing_mode: Some(RoutingMode::Stateful),
        ..default_args()
    };
    assert_eq!(stateful.routing_mode, Some(RoutingMode::Stateful));

    let per_command = CommonArgs {
        routing_mode: Some(RoutingMode::PerCommand),
        ..default_args()
    };
    assert_eq!(per_command.routing_mode, Some(RoutingMode::PerCommand));
}

#[test]
fn test_thread_count() {
    let default_threads = CommonArgs {
        threads: None,
        ..default_args()
    };
    assert!(default_threads.threads.is_none());

    let single_thread = CommonArgs {
        threads: Some(ThreadCount::new(1).unwrap()),
        ..default_args()
    };
    assert_eq!(single_thread.threads, Some(ThreadCount::new(1).unwrap()));

    let multi_thread = CommonArgs {
        threads: Some(ThreadCount::new(4).unwrap()),
        ..default_args()
    };
    assert_eq!(multi_thread.threads, Some(ThreadCount::new(4).unwrap()));
}

#[test]
fn test_validate_runtime_mode_accepts_attach_client() {
    let args = CommonArgs {
        ui: UiMode::Tui,
        tui_attach: Some(local(8119)),
        ..default_args()
    };

    args.validate_runtime_mode().unwrap();
}

#[test]
fn test_validate_runtime_mode_rejects_attach_without_tui() {
    let args = CommonArgs {
        tui_attach: Some(local(8119)),
        ..default_args()
    };

    assert!(args.validate_runtime_mode().is_err());
}

#[test]
fn test_validate_runtime_mode_rejects_attach_and_listen() {
    let args = CommonArgs {
        ui: UiMode::Tui,
        tui_attach: Some(local(8119)),
        tui_listen: Some(local(8120)),
        ..default_args()
    };

    assert!(args.validate_runtime_mode().is_err());
}

#[test]
fn test_validate_runtime_mode_rejects_non_loopback_attach() {
    let args = CommonArgs {
        ui: UiMode::Tui,
        tui_attach: Some(SocketAddress { ip: IpAddress::v4(10, 0, 0, 5), port: 8119 }),
        ..default_args()
    };

    assert!(args.validate_runtime_mode().is_err());
}

#[test]
fn test_validate_runtime_mode_rejects_tui_listen_with_local_tui() {
    let args = CommonArgs {
        ui: UiMode::Tui,
        tui_listen: Some(local(8119)),
        ..default_args()
    };

    assert!(args.validate_runtime_mode().is_err());
}

#[test]
fn test_validate_dashboard_listen_rejects_same_socket() {
    let args = CommonArgs {
        tui_listen: Some(local(8119)),
        ..default_args()
    };

    assert!(
        args.validate_dashboard_listen(Port::try_new(8119).unwrap(), &Some(vec![IpAddress::v4(127, 0, 0, 1)]))
            .is_err()
    );
}

#[test]
fn test_validate_dashboard_listen_allows_distinct_socket() {
    let args = CommonArgs {
        tui_listen: Some(local(8120)),
        ..default_args()
    };

    args.validate_dashboard_listen(Port::try_new(8119).unwrap(), &Some(vec![IpAddress::v4(127, 0, 0, 1)]))
        .unwrap();
}

#[test]
fn test_validate_dashboard_listen_rejects_localhost_alias_collision() {
    let args = CommonArgs {
        tui_listen: Some(local(8119)),
        ..default_args()
    };

    assert!(
        args.validate_dashboard_listen(Port::try_new(8119).unwrap(), &localhost())
            .is_err()
    );
}

#[test]
fn test_validate_dashboard_listen_allows_distinct_loopback_ips() {
    let args = CommonArgs {
        tui_listen: Some(SocketAddress { ip: IpAddress::V6(1), port: 8119 }),
        ..default_args()
    };

    args.validate_dashboard_listen(Port::try_new(8119).unwrap(), &Some(vec![IpAddress::v4(127, 0, 0, 1)]))
        .unwrap();
}

#[test]
fn test_validate_dashboard_listen_rejects_non_loopback_bind() {
    let args = CommonArgs {
        tui_listen: Some(SocketAddress { ip: IpAddress::v4(0, 0, 0, 0), port: 8119 }),
        ..default_args()
    };

    assert!(
        args.validate_dashboard_listen(Port::try_new(9120).unwrap(), &Some(vec![IpAddress::v4(127, 0, 0, 1)]))
            .is_err()
    );
}

// Helper to create default args for testing
fn default_args() -> CommonArgs {
    CommonArgs {
        config: ConfigPath::new("config.toml".to_string()).unwrap(),
        ui: UiMode::Headless,
        no_tui: false,
        tui_listen: None,
        tui_attach: None,
        port: None,
        host: None,
        routing_mode: None,
        backend_selection: None,
        article_cache_capacity: None,
        article_cache_ttl_secs: None,
        store_article_bodies: None,
        threads: None,
        backend_pipelining: None,
    }
}

#[test]
fn test_apply_overrides_none_preserves_config() {
    let args = default_args();
    let mut config = Config::default();
    config.routing.backend_selection = BackendSelectionStrategy::WeightedRoundRobin;
    config.routing.routing_mode = RoutingMode::Stateful;

    args.apply_overrides(&mut config, &no_vars());

    // Config unchanged when args are None
    assert_eq!(
        config.routing.backend_selection,
        BackendSelectionStrategy::WeightedRoundRobin
    );
    assert_eq!(config.routing.routing_mode, RoutingMode::Stateful);
}

#[test]
fn test_apply_overrides_routing() {
    let args = CommonArgs {
        routing_mode: Some(RoutingMode::PerCommand),
        backend_selection: Some(BackendSelectionStrategy::LeastLoaded),
        ..default_args()
    };
    let mut config = Config::default();

    args.apply_overrides(&mut config, &no_vars());

    assert_eq!(config.routing.routing_mode, RoutingMode::PerCommand);
    assert_eq!(
        config.routing.backend_selection,
        BackendSelectionStrategy::LeastLoaded
    );
}

#[test]
fn test_apply_overrides_cache() {
    let args = CommonArgs {
        article_cache_capacity: Some(CacheCapacity::try_new(128 * 1024 * 1024).unwrap()),
        article_cache_ttl_secs: Some(7200),
        store_article_bodies: Some(false),
        ..default_args()
    };
    let mut config = Config {
        cache: None, // Start with no cache section
        ..Config::default()
    };

    args.apply_overrides(&mut config, &no_vars());

    let cache = config.cache.as_ref().unwrap();
    assert_eq!(cache.max_capacity.get(), 128 * 1024 * 1024);
    assert_eq!(
        cache.ttl,
        Duration::from_secs(7200)
    );
    assert!(!cache.store_article_bodies);
}

#[test]
fn test_apply_overrides_legacy_env_compat() {
    let args = default_args();
    let mut config = Config {
        cache: None,
        servers: vec![
            Server::builder("server1.example.com", 119)
                .backend_pipelining(false)
                .build()
                .unwrap(),
        ],
        ..Config::default()
    };

    args.apply_overrides_with_env(&mut config, &OldVars);

    let cache = config.cache.as_ref().unwrap();
    assert_eq!(cache.max_capacity.get(), 128_000_000);
    assert_eq!(
        cache.ttl,
        Duration::from_secs(7200)
    );
    assert!(!cache.store_article_bodies);
    assert!(config.servers[0].backend_pipelining);
}

#[test]
fn test_apply_overrides_pipelining_all_servers() {
    let args = CommonArgs {
        backend_pipelining: Some(false),
        ..default_args()
    };
    let mut config = Config::default();
    config.servers = vec![
        Server::builder("server1.example.com", 119)
            .backend_pipelining(true)
            .build()
            .unwrap(),
        Server::builder("server2.example.com", 119)
            .backend_pipelining(true)
            .build()
            .unwrap(),
    ];

    args.apply_overrides(&mut config, &no_vars());

    // All servers should have pipelining disabled
    for server in &config.servers {
        assert!(!server.backend_pipelining);
    }
}

#[test]
fn ports_are_read() {
    assert_eq!(parse_port("8119").unwrap().get(), 8119);
    assert_eq!(parse_port("+119").unwrap().get(), 119);
    assert_eq!(parse_port("0"), Err(PortTextError::Zero));
    assert_eq!(parse_port("65536"), Err(PortTextError::Number));
    assert_eq!(parse_port(""), Err(PortTextError::Number));
    assert_eq!(parse_port("news"), Err(PortTextError::Number));
}

#[test]
fn capacities_are_read() {
    let read = |s: &str| parse_capacity(s).map(|c| c.get());
    assert_eq!(read("128mb"), Some(128_000_000));
    assert_eq!(read("64"), Some(64));
    assert_eq!(read("0"), None);
    assert_eq!(read("mb"), None);
    assert_eq!(read("5 parsecs"), None);
}

#[test]
fn every_refusal_has_its_error() {
    let tui = |listen, attach| CommonArgs {
        ui: UiMode::Tui,
        tui_listen: listen,
        tui_attach: attach,
        ..default_args()
    };
    let far = Some(SocketAddress { ip: IpAddress::v4(10, 0, 0, 5), port: 8119 });
    let near = Some(local(8119));

    let args = CommonArgs { tui_attach: near, ..default_args() };
    assert_eq!(args.validate_runtime_mode(), Err(ArgsError::AttachWithoutTui));
    assert_eq!(tui(near, None).validate_runtime_mode(), Err(ArgsError::ListenWithTui));
    assert_eq!(tui(None, far).validate_runtime_mode(), Err(ArgsError::AttachNotLoopback));

    let port = Port::try_new(8119).unwrap();
    let args = CommonArgs { tui_listen: far, ..default_args() };
    assert_eq!(
        args.validate_dashboard_listen(port, &localhost()),
        Err(ArgsError::ListenNotLoopback)
    );
    let args = CommonArgs { tui_listen: near, ..default_args() };
    assert_eq!(
        args.validate_dashboard_listen(port, &localhost()),
        Err(ArgsError::ListenConflict)
    );
    assert_eq!(args.validate_dashboard_listen(port, &None), Ok(()));
}

#[test]
fn refusals_have_their_words() {
    let say = |e: ArgsError| e.message("10.0.0.5:8119", "0.0.0.0:8119");
    assert_eq!(say(ArgsError::AttachWithoutTui), "--tui-attach requires --ui tui");
    assert_eq!(
        say(ArgsError::AttachWithListen),
        "--tui-attach cannot be combined with --tui-listen"
    );
    assert!(say(ArgsError::AttachNotLoopback).contains("10.0.0.5:8119"));
}

#[test]
fn listeners_conflict_at_one_address_or_at_every() {
    let any = IpAddress::v4(0, 0, 0, 0);
    let one = IpAddress::v4(127, 0, 0, 1);
    let two = IpAddress::v4(127, 0, 0, 2);
    assert!(listener_ips_conflict(any, one));
    assert!(listener_ips_conflict(one, IpAddress::V6(0)));
    assert!(listener_ips_conflict(one, one));
    assert!(!listener_ips_conflict(one, two));
    assert!(proxy_listener_conflicts(&Some(vec![two, one]), one));
    assert!(!proxy_listener_conflicts(&Some(vec![two]), one));
    assert!(!proxy_listener_conflicts(&None, one));
    assert!(proxy_listener_conflicts(&None, any));
}

#[test]
fn loopback_is_a_whole_network_in_version_four() {
    assert!(IpAddress::v4(127, 200, 3, 4).is_loopback());
    assert!(!IpAddress::v4(128, 0, 0, 1).is_loopback());
    assert!(IpAddress::V6(1).is_loopback());
    assert!(!IpAddress::V6(2).is_loopback());
}

#[test]
fn arguments_win_over_older_variables() {
    let args = CommonArgs {
        article_cache_ttl_secs: Some(60),
        ..default_args()
    };
    let mut config = Config::default();
    args.apply_overrides_with_env(&mut config, &OldVars);
    let cache = config.cache.as_ref().unwrap();
    assert_eq!(cache.ttl, Duration::from_secs(60));
    assert_eq!(cache.max_capacity.get(), 128_000_000);
}

#[test]
fn older_variables_that_say_nothing_change_nothing() {
    let vars = LegacyVars {
        capacity: Some("much".to_string()),
        ttl: Some("long".to_string()),
        articles: Some("maybe".to_string()),
        pipelining: Some("perhaps".to_string()),
    };
    let mut config = Config::default();
    default_args().apply_overrides(&mut config, &vars);
    assert!(config.cache.is_none());
}

#[test]
fn only_one_mode_shows_the_dashboard() {
    assert!(UiMode::Tui.uses_tui());
    assert!(!UiMode::Headless.uses_tui());
    assert_eq!(UiMode::DEFAULT, UiMode::Headless);
    let args = CommonArgs { ui: UiMode::Tui, no_tui: true, ..default_args() };
    assert_eq!(args.effective_ui_mode(), UiMode::Headless);
}
