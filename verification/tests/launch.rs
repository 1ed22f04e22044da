//! How a proxy is started and how its life goes.
use nntp_proxy::args::{CommonArgs, IpAddress, SocketAddress, UiMode};
use nntp_proxy::config::types::{Cache, Config, RoutingMode, Server};
use nntp_proxy::launch::{
    prepare_proxy_launch, report_period, resolve_cache_config, startup_mode, worker_threads,
    LaunchAction, LaunchEvent, LaunchState, StartupMode,
};
use nntp_proxy::types::{CacheCapacity, ConfigPath, Duration, Port, ThreadCount};

fn test_common_args() -> CommonArgs {
    CommonArgs {
        config: ConfigPath::new("config.toml".to_string()).unwrap(),
        ui: UiMode::Headless,
        no_tui: false,
        tui_listen: None,
        tui_attach: None,
        port: None,
        host: None,
        routing_mode: None,
        backend_selection: None,
        article_cache_capacity: None,
        article_cache_ttl_secs: None,
        store_article_bodies: None,
        threads: None,
        backend_pipelining: None,
    }
}

#[test]
fn prepare_proxy_launch_prefers_cli_routing_mode_and_host_port() {
    let args = CommonArgs {
        routing_mode: Some(RoutingMode::Stateful),
        host: Some("127.0.0.1".to_string()),
        port: Some(Port::try_new(9120).unwrap()),
        ..test_common_args()
    };
    let mut config = Config::default();
    config.servers = vec![Server::builder("server.example.com", 119)
        .name("Primary")
        .build()
        .unwrap()];

    let launch = prepare_proxy_launch(&args, &config);

    assert_eq!(launch.routing_mode, RoutingMode::Stateful);
    assert_eq!(launch.host, "127.0.0.1");
    assert_eq!(launch.port.get(), 9120);
    assert_eq!(launch.server_names, vec!["Primary".to_string()]);
}

#[test]
fn a_launch_without_arguments_follows_the_configuration() {
    let config = Config::default();
    let launch = prepare_proxy_launch(&test_common_args(), &config);
    assert_eq!(launch.routing_mode, RoutingMode::Hybrid);
    assert_eq!(launch.host, config.proxy.host);
    assert_eq!(launch.port, config.proxy.port);
    assert!(launch.server_names.is_empty());
}

#[test]
fn the_startup_mode_follows_the_arguments() {
    let addr = SocketAddress { ip: IpAddress::v4(127, 0, 0, 1), port: 8120 };
    assert_eq!(
        startup_mode(&test_common_args()),
        StartupMode::Headless { keep_log: false }
    );
    let args = CommonArgs { tui_listen: Some(addr), ..test_common_args() };
    assert_eq!(startup_mode(&args), StartupMode::Headless { keep_log: true });
    let args = CommonArgs { ui: UiMode::Tui, ..test_common_args() };
    assert_eq!(startup_mode(&args), StartupMode::Dashboard);
    let args = CommonArgs { ui: UiMode::Tui, tui_attach: Some(addr), ..test_common_args() };
    assert_eq!(startup_mode(&args), StartupMode::Attach(addr));
}

#[test]
fn threads_and_periods() {
    let config = Config::default();
    let args = CommonArgs { threads: ThreadCount::new(3), ..test_common_args() };
    assert_eq!(worker_threads(&args, &config).get(), 3);
    assert_eq!(worker_threads(&test_common_args(), &config), config.proxy.threads);
    assert_eq!(report_period(Some(30)), Some(Duration::from_secs(30)));
    assert_eq!(report_period(Some(0)), None);
    assert_eq!(report_period(None), None);
}

#[test]
fn the_cache_section_goes_before_the_arguments() {
    let capacity = CacheCapacity::new(5).unwrap();
    let mut config = Config::default();
    let made = resolve_cache_config(&config, capacity, Duration::from_secs(9), false);
    assert_eq!(made.max_capacity.get(), 5);
    assert_eq!(made.ttl, Duration::from_secs(9));
    assert!(!made.store_article_bodies);
    config.cache = Some(Cache {
        max_capacity: CacheCapacity::new(7).unwrap(),
        ttl: Duration::from_secs(1),
        store_article_bodies: true,
    });
    let kept = resolve_cache_config(&config, capacity, Duration::from_secs(9), false);
    assert_eq!(kept.max_capacity.get(), 7);
}

/// The actions of a life whose events are given; everything else is done.
fn life(events: &[(LaunchAction, LaunchEvent)]) -> Vec<LaunchAction> {
    let mut state = LaunchState::start();
    let mut actions = vec![state.action];
    while !matches!(state.action, LaunchAction::Exit { .. }) {
        let event = events
            .iter()
            .find(|(action, _)| *action == state.action)
            .map_or(LaunchEvent::Done, |(_, event)| *event);
        state = state.next(event);
        actions.push(state.action);
    }
    actions
}

#[test]
fn a_good_life() {
    assert_eq!(
        life(&[]),
        vec![
            LaunchAction::CheckDashboard,
            LaunchAction::Build,
            LaunchAction::LoadAvailability,
            LaunchAction::Bind,
            LaunchAction::StartTasks,
            LaunchAction::PublishDashboard,
            LaunchAction::StartUi,
            LaunchAction::Prewarm,
            LaunchAction::Accept,
            LaunchAction::StopUi,
            LaunchAction::Persist,
            LaunchAction::Exit { success: true },
        ]
    );
}

#[test]
fn a_proxy_that_cannot_start_fails_at_once() {
    for action in [
        LaunchAction::CheckDashboard,
        LaunchAction::Build,
        LaunchAction::Bind,
        LaunchAction::PublishDashboard,
    ] {
        let actions = life(&[(action, LaunchEvent::Failed)]);
        assert_eq!(actions[actions.len() - 2], action);
        assert_eq!(actions[actions.len() - 1], LaunchAction::Exit { success: false });
    }
}

#[test]
fn what_is_known_of_articles_is_no_condition() {
    let actions = life(&[(LaunchAction::LoadAvailability, LaunchEvent::Failed)]);
    assert_eq!(actions.last(), Some(&LaunchAction::Exit { success: true }));
}

#[test]
fn without_backends_nobody_is_served() {
    let actions = life(&[(LaunchAction::Prewarm, LaunchEvent::Failed)]);
    assert!(actions.contains(&LaunchAction::AwaitUi));
    assert!(!actions.contains(&LaunchAction::Accept));
    assert!(!actions.contains(&LaunchAction::Persist));
    assert_eq!(actions.last(), Some(&LaunchAction::Exit { success: false }));
}

#[test]
fn an_early_shutdown_is_a_success() {
    let actions = life(&[(LaunchAction::Prewarm, LaunchEvent::Interrupted)]);
    assert!(!actions.contains(&LaunchAction::Accept));
    assert!(!actions.contains(&LaunchAction::Persist));
    assert_eq!(actions.last(), Some(&LaunchAction::Exit { success: true }));
}

#[test]
fn a_failed_service_keeps_what_is_known() {
    let actions = life(&[(LaunchAction::Accept, LaunchEvent::Failed)]);
    assert!(actions.contains(&LaunchAction::Persist));
    assert_eq!(actions.last(), Some(&LaunchAction::Exit { success: false }));
}
