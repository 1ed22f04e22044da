//! How the program starts and stops: what to do next, given how the last thing
//! went.
use crate::args::{CommonArgs, SocketAddress, UiMode};
use crate::config::types::{Cache, Config, RoutingMode};
use crate::text::string_of;
use crate::types::{CacheCapacity, Duration, Port, ThreadCount};
use vstd::prelude::*;
use vstd::string::*;

verus! {

// ---------------------------------------------------------------------------
// What the arguments and the configuration come to
// ---------------------------------------------------------------------------

/// What the program is to be.
#[derive(Clone, Copy, Debug, PartialEq, Eq, Structural)]
pub enum StartupMode {
    /// Shows the dashboard of another process, and serves nobody.
    Attach(SocketAddress),
    /// Serves, with a dashboard of its own.
    Dashboard,
    /// Serves. Log lines are kept where a dashboard is published.
    Headless { keep_log: bool },
}

/// What the arguments ask the program to be.
pub open spec fn mode_of(args: CommonArgs) -> StartupMode {
    match args.ui_mode() {
        UiMode::Headless => StartupMode::Headless { keep_log: args.tui_listen is Some },
        UiMode::Tui => match args.tui_attach {
            Some(addr) => StartupMode::Attach(addr),
            None => StartupMode::Dashboard,
        },
    }
}

/// What the arguments ask the program to be.
pub fn startup_mode(args: &CommonArgs) -> (r: StartupMode)
    ensures
        r == mode_of(*args),
{
    match args.effective_ui_mode() {
        UiMode::Headless => StartupMode::Headless { keep_log: args.tui_listen.is_some() },
        UiMode::Tui => match args.tui_attach {
            Some(addr) => StartupMode::Attach(addr),
            None => StartupMode::Dashboard,
        },
    }
}

/// The number of worker threads: that of the arguments, else that of the
/// configuration.
pub fn worker_threads(args: &CommonArgs, config: &Config) -> (r: ThreadCount)
    ensures
        r == (match args.threads {
            Some(n) => n,
            None => config.proxy.threads,
        }),
{
    match args.threads {
        Some(n) => n,
        None => config.proxy.threads,
    }
}

/// Every how many seconds something is reported; zero turns it off.
pub fn report_period(secs: Option<u64>) -> (r: Option<Duration>)
    ensures
        match r {
            Some(d) => secs is Some && secs->0 > 0 && d@ == secs->0 * 1_000_000_000,
            None => secs is None || secs->0 == 0,
        },
{
    match secs {
        Some(n) => if n > 0 {
            Some(Duration::from_secs(n))
        } else {
            None
        },
        None => None,
    }
}

/// The cache section: that of the configuration, else one from the arguments.
pub fn resolve_cache_config(
    config: &Config,
    capacity: CacheCapacity,
    ttl: Duration,
    store_article_bodies: bool,
) -> (r: Cache)
    ensures
        r == (match config.cache {
            Some(c) => c,
            None => Cache { max_capacity: capacity, ttl, store_article_bodies },
        }),
{
    match config.cache {
        Some(c) => c,
        None => Cache { max_capacity: capacity, ttl, store_article_bodies },
    }
}

/// What a proxy is started with.
#[derive(Debug)]
pub struct ProxyLaunch {
    pub routing_mode: RoutingMode,
    pub host: String,
    pub port: Port,
    pub server_names: Vec<String>,
}

/// What a proxy is started with. Arguments go before the configuration.
pub fn prepare_proxy_launch(args: &CommonArgs, config: &Config) -> (r: ProxyLaunch)
    ensures
        r.routing_mode == (match args.routing_mode {
            Some(m) => m,
            None => config.routing.routing_mode,
        }),
        r.host@ == (match args.host {
            Some(h) => h@,
            None => config.proxy.host@,
        }),
        r.port == (match args.port {
            Some(p) => p,
            None => config.proxy.port,
        }),
        r.server_names@.len() == config.servers@.len(),
        forall|i: int|
            0 <= i < config.servers@.len() ==> (#[trigger] r.server_names@[i])@
                == config.servers@[i].name@,
{
    let routing_mode = match args.routing_mode {
        Some(m) => m,
        None => config.routing.routing_mode,
    };
    let host = match &args.host {
        Some(h) => string_of(h.as_str()),
        None => string_of(config.proxy.host.as_str()),
    };
    let port = match args.port {
        Some(p) => p,
        None => config.proxy.port,
    };
    let mut server_names: Vec<String> = Vec::new();
    let mut i: usize = 0;
    while i < config.servers.len()
        invariant
            i <= config.servers@.len(),
            server_names@.len() == i,
            forall|j: int|
                0 <= j < i ==> (#[trigger] server_names@[j])@ == config.servers@[j].name@,
        decreases config.servers.len() - i,
    {
        server_names.push(string_of(config.servers[i].name.as_str()));
        i += 1;
    }
    ProxyLaunch { routing_mode, host, port, server_names }
}

// ---------------------------------------------------------------------------
// One step after another
// ---------------------------------------------------------------------------

/// A thing to do in the life of a proxy.
#[derive(Clone, Copy, Debug, PartialEq, Eq, Structural)]
pub enum LaunchAction {
    /// Check that the dashboard does not take the socket of the proxy.
    CheckDashboard,
    /// Make the proxy of its configuration.
    Build,
    /// Read what is known of articles from disk, where there is a file for it.
    LoadAvailability,
    /// Listen for clients.
    Bind,
    /// Start the background tasks.
    StartTasks,
    /// Publish the dashboard, where it is asked for.
    PublishDashboard,
    /// Show the dashboard, where it is asked for, and watch for signals.
    StartUi,
    /// Fill the connection pools.
    Prewarm,
    /// Serve clients until a shutdown is asked for.
    Accept,
    /// Tell the dashboards to stop and wait for them as long as they take.
    AwaitUi,
    /// Tell the dashboards to stop and give them a little time.
    StopUi,
    /// Write what is known to disk.
    Persist,
    /// Leave, as a success or as a failure.
    Exit { success: bool },
}

/// How a thing went.
#[derive(Clone, Copy, Debug, PartialEq, Eq, Structural)]
pub enum LaunchEvent {
    Done,
    Failed,
    /// A shutdown was asked for before it was done.
    Interrupted,
}

/// How the part of the life that counts went: nothing yet, or an outcome.
#[derive(Clone, Copy, Debug, PartialEq, Eq, Structural)]
pub enum Verdict {
    Open,
    /// Stopped before it served anyone.
    Early,
    /// Could not fill its pools.
    NoBackends,
    /// Served clients, and ended so or so.
    Served { success: bool },
}

/// Where a proxy is in its life: what is being done, and how it went so far.
#[derive(Clone, Copy, Debug, PartialEq, Eq, Structural)]
pub struct LaunchState {
    pub action: LaunchAction,
    pub verdict: Verdict,
}

/// The start of the life of a proxy.
pub open spec fn launch_start() -> LaunchState {
    LaunchState { action: LaunchAction::CheckDashboard, verdict: Verdict::Open }
}

/// What comes after an action that went as `event` says.
pub open spec fn launch_next(state: LaunchState, event: LaunchEvent) -> LaunchState {
    let went_on = event == LaunchEvent::Done;
    let fail = LaunchState { action: LaunchAction::Exit { success: false }, ..state };
    match state.action {
        LaunchAction::CheckDashboard => if went_on {
            LaunchState { action: LaunchAction::Build, ..state }
        } else {
            fail
        },
        LaunchAction::Build => if went_on {
            LaunchState { action: LaunchAction::LoadAvailability, ..state }
        } else {
            fail
        },
        LaunchAction::LoadAvailability => LaunchState { action: LaunchAction::Bind, ..state },
        LaunchAction::Bind => if went_on {
            LaunchState { action: LaunchAction::StartTasks, ..state }
        } else {
            fail
        },
        LaunchAction::StartTasks => LaunchState { action: LaunchAction::PublishDashboard, ..state },
        LaunchAction::PublishDashboard => if went_on {
            LaunchState { action: LaunchAction::StartUi, ..state }
        } else {
            fail
        },
        LaunchAction::StartUi => LaunchState { action: LaunchAction::Prewarm, ..state },
        LaunchAction::Prewarm => match event {
            LaunchEvent::Done => LaunchState { action: LaunchAction::Accept, ..state },
            LaunchEvent::Failed => LaunchState {
                action: LaunchAction::AwaitUi,
                verdict: Verdict::NoBackends,
            },
            LaunchEvent::Interrupted => LaunchState {
                action: LaunchAction::StopUi,
                verdict: Verdict::Early,
            },
        },
        LaunchAction::Accept => LaunchState {
            action: LaunchAction::StopUi,
            verdict: Verdict::Served { success: went_on },
        },
        LaunchAction::AwaitUi => fail,
        LaunchAction::StopUi => if !went_on {
            fail
        } else {
            match state.verdict {
                Verdict::Served { .. } => LaunchState { action: LaunchAction::Persist, ..state },
                _ => LaunchState { action: LaunchAction::Exit { success: true }, ..state },
            }
        },
        LaunchAction::Persist => LaunchState {
            action: LaunchAction::Exit {
                success: state.verdict == (Verdict::Served { success: true }),
            },
            ..state
        },
        LaunchAction::Exit { .. } => state,
    }
}

impl LaunchState {
    /// The start of the life of a proxy.
    pub fn start() -> (r: Self)
        ensures
            r == launch_start(),
    {
        LaunchState { action: LaunchAction::CheckDashboard, verdict: Verdict::Open }
    }

    /// What comes after the action, which went as `event` says.
    pub fn next(self, event: LaunchEvent) -> (r: Self)
        ensures
            r == launch_next(self, event),
    {
        let went_on = event == LaunchEvent::Done;
        let verdict = self.verdict;
        let fail = LaunchAction::Exit { success: false };
        match self.action {
            LaunchAction::CheckDashboard => LaunchState {
                action: if went_on {
                    LaunchAction::Build
                } else {
                    fail
                },
                verdict,
            },
            LaunchAction::Build => LaunchState {
                action: if went_on {
                    LaunchAction::LoadAvailability
                } else {
                    fail
                },
                verdict,
            },
            LaunchAction::LoadAvailability => LaunchState { action: LaunchAction::Bind, verdict },
            LaunchAction::Bind => LaunchState {
                action: if went_on {
                    LaunchAction::StartTasks
                } else {
                    fail
                },
                verdict,
            },
            LaunchAction::StartTasks => LaunchState {
                action: LaunchAction::PublishDashboard,
                verdict,
            },
            LaunchAction::PublishDashboard => LaunchState {
                action: if went_on {
                    LaunchAction::StartUi
                } else {
                    fail
                },
                verdict,
            },
            LaunchAction::StartUi => LaunchState { action: LaunchAction::Prewarm, verdict },
            LaunchAction::Prewarm => match event {
                LaunchEvent::Done => LaunchState { action: LaunchAction::Accept, verdict },
                LaunchEvent::Failed => LaunchState {
                    action: LaunchAction::AwaitUi,
                    verdict: Verdict::NoBackends,
                },
                LaunchEvent::Interrupted => LaunchState {
                    action: LaunchAction::StopUi,
                    verdict: Verdict::Early,
                },
            },
            LaunchAction::Accept => LaunchState {
                action: LaunchAction::StopUi,
                verdict: Verdict::Served { success: went_on },
            },
            LaunchAction::AwaitUi => LaunchState { action: fail, verdict },
            LaunchAction::StopUi => LaunchState {
                action: if !went_on {
                    fail
                } else {
                    match verdict {
                        Verdict::Served { .. } => LaunchAction::Persist,
                        _ => LaunchAction::Exit { success: true },
                    }
                },
                verdict,
            },
            LaunchAction::Persist => LaunchState {
                action: LaunchAction::Exit {
                    success: match verdict {
                        Verdict::Served { success } => success,
                        _ => false,
                    },
                },
                verdict,
            },
            LaunchAction::Exit { .. } => self,
        }
    }
}

/// Where a proxy is after each of the events.
pub open spec fn launch_after(events: Seq<LaunchEvent>) -> LaunchState
    decreases events.len(),
{
    if events.len() == 0 {
        launch_start()
    } else {
        launch_next(launch_after(events.drop_last()), events.last())
    }
}

/// How far a proxy can still go.
pub open spec fn steps_left(action: LaunchAction) -> nat {
    match action {
        LaunchAction::CheckDashboard => 11,
        LaunchAction::Build => 10,
        LaunchAction::LoadAvailability => 9,
        LaunchAction::Bind => 8,
        LaunchAction::StartTasks => 7,
        LaunchAction::PublishDashboard => 6,
        LaunchAction::StartUi => 5,
        LaunchAction::Prewarm => 4,
        LaunchAction::Accept => 3,
        LaunchAction::AwaitUi => 1,
        LaunchAction::StopUi => 2,
        LaunchAction::Persist => 1,
        LaunchAction::Exit { .. } => 0,
    }
}

/// What every state that is reached has in common.
pub open spec fn launch_sound(state: LaunchState) -> bool {
    match state.action {
        LaunchAction::AwaitUi => state.verdict == Verdict::NoBackends,
        LaunchAction::StopUi => state.verdict == Verdict::Early || state.verdict is Served,
        LaunchAction::Persist => state.verdict is Served,
        LaunchAction::Exit { success } => success ==> (state.verdict == Verdict::Early
            || state.verdict == (Verdict::Served { success: true })),
        _ => state.verdict == Verdict::Open,
    }
}

proof fn lemma_launch_sound(events: Seq<LaunchEvent>)
    ensures
        launch_sound(launch_after(events)),
    decreases events.len(),
{
    if events.len() > 0 {
        lemma_launch_sound(events.drop_last());
    }
}

/// Clients are served only once the connection pools are full: the step before
/// is a prewarming that was done.
pub proof fn law_clients_wait_for_the_pools(events: Seq<LaunchEvent>)
    requires
        launch_after(events).action == LaunchAction::Accept,
    ensures
        events.len() > 0,
        launch_after(events.drop_last()).action == LaunchAction::Prewarm,
        events.last() == LaunchEvent::Done,
{
}

/// A proxy that reports success either served its clients to a good end or was
/// stopped before it served any.
pub proof fn law_success_is_earned(events: Seq<LaunchEvent>)
    requires
        launch_after(events).action == (LaunchAction::Exit { success: true }),
    ensures
        launch_after(events).verdict == Verdict::Early || launch_after(events).verdict == (
        Verdict::Served { success: true }),
{
    lemma_launch_sound(events);
}

/// What is known goes to disk only after clients were served.
pub proof fn law_state_is_kept_after_service(events: Seq<LaunchEvent>)
    requires
        launch_after(events).action == LaunchAction::Persist,
    ensures
        launch_after(events).verdict is Served,
        launch_after(events.drop_last()).action == LaunchAction::StopUi,
{
    lemma_launch_sound(events);
}

proof fn lemma_launch_descends(state: LaunchState, event: LaunchEvent)
    ensures
        steps_left(state.action) > 0 ==> steps_left(launch_next(state, event).action) < steps_left(
            state.action,
        ),
        steps_left(state.action) == 0 ==> launch_next(state, event) == state,
{
}

/// A proxy ends, however things go: after so many events it leaves, and stays
/// away.
pub proof fn law_every_life_ends(events: Seq<LaunchEvent>)
    requires
        events.len() >= 11,
    ensures
        launch_after(events).action is Exit,
{
    lemma_launch_bound(events);
}

proof fn lemma_launch_bound(events: Seq<LaunchEvent>)
    ensures
        steps_left(launch_after(events).action) == 0 || steps_left(launch_after(events).action)
            + events.len() <= 11,
    decreases events.len(),
{
    if events.len() > 0 {
        lemma_launch_bound(events.drop_last());
        lemma_launch_descends(launch_after(events.drop_last()), events.last());
    }
}

/// What a proxy does, one after the other, while all goes well.
pub open spec fn usual_course(k: int) -> LaunchAction {
    if k == 0 {
        LaunchAction::CheckDashboard
    } else if k == 1 {
        LaunchAction::Build
    } else if k == 2 {
        LaunchAction::LoadAvailability
    } else if k == 3 {
        LaunchAction::Bind
    } else if k == 4 {
        LaunchAction::StartTasks
    } else if k == 5 {
        LaunchAction::PublishDashboard
    } else if k == 6 {
        LaunchAction::StartUi
    } else if k == 7 {
        LaunchAction::Prewarm
    } else if k == 8 {
        LaunchAction::Accept
    } else if k == 9 {
        LaunchAction::StopUi
    } else if k == 10 {
        LaunchAction::Persist
    } else {
        LaunchAction::Exit { success: true }
    }
}

/// While all goes well a proxy takes every step of the usual course in turn, and
/// leaves as a success.
pub proof fn law_usual_course(events: Seq<LaunchEvent>)
    requires
        forall|i: int| 0 <= i < events.len() ==> #[trigger] events[i] == LaunchEvent::Done,
    ensures
        launch_after(events).action == usual_course(events.len() as int),
        events.len() >= 9 ==> launch_after(events).verdict == (Verdict::Served { success: true }),
        events.len() < 9 ==> launch_after(events).verdict == Verdict::Open,
    decreases events.len(),
{
    if events.len() > 0 {
        let front = events.drop_last();
        assert forall|i: int| 0 <= i < front.len() implies #[trigger] front[i]
            == LaunchEvent::Done by {
            assert(front[i] == events[i]);
        }
        law_usual_course(front);
        assert(events.last() == LaunchEvent::Done);
    }
}

/// A proxy that cannot check its dashboard, be built, listen or publish its
/// dashboard leaves as a failure at once. What is known of articles, the background
/// tasks and the screen do not stop it.
pub proof fn law_failed_starts(state: LaunchState, event: LaunchEvent)
    ensures
        event != LaunchEvent::Done && (state.action == LaunchAction::CheckDashboard || state.action
            == LaunchAction::Build || state.action == LaunchAction::Bind || state.action
            == LaunchAction::PublishDashboard) ==> launch_next(state, event).action == (
        LaunchAction::Exit { success: false }),
        state.action == LaunchAction::LoadAvailability ==> launch_next(state, event).action
            == LaunchAction::Bind,
        state.action == LaunchAction::StartTasks ==> launch_next(state, event).action
            == LaunchAction::PublishDashboard,
        state.action == LaunchAction::StartUi ==> launch_next(state, event).action
            == LaunchAction::Prewarm,
{
}

/// A proxy that cannot fill its pools waits for its dashboards and leaves as a
/// failure. One that is stopped while it fills them leaves as a success once they
/// have stopped, and writes nothing to disk.
pub proof fn law_stopped_before_service(state: LaunchState, event: LaunchEvent)
    requires
        state.action == LaunchAction::Prewarm,
    ensures
        ({
            let failed = launch_next(state, LaunchEvent::Failed);
            &&& failed.action == LaunchAction::AwaitUi
            &&& launch_next(failed, event).action == (LaunchAction::Exit { success: false })
        }),
        ({
            let stopped = launch_next(state, LaunchEvent::Interrupted);
            &&& stopped.action == LaunchAction::StopUi
            &&& launch_next(stopped, event).action == (LaunchAction::Exit {
                success: event == LaunchEvent::Done,
            })
        }),
{
}

/// However service ends, the dashboards are stopped and what is known is written
/// to disk; the proxy leaves as a success exactly where service ended well.
pub proof fn law_after_service(state: LaunchState, ended: LaunchEvent, written: LaunchEvent)
    requires
        state.action == LaunchAction::Accept,
    ensures
        ({
            let stopping = launch_next(state, ended);
            let keeping = launch_next(stopping, LaunchEvent::Done);
            &&& stopping.action == LaunchAction::StopUi
            &&& keeping.action == LaunchAction::Persist
            &&& launch_next(keeping, written).action == (LaunchAction::Exit {
                success: ended == LaunchEvent::Done,
            })
        }),
{
}

/// What the program is to be follows from the arguments: without a dashboard it
/// serves, and keeps its log where one is published; with a dashboard it shows
/// that of another process where an address is given, else its own.
pub proof fn law_startup_modes(args: CommonArgs)
    ensures
        args.no_tui || args.ui == UiMode::Headless ==> mode_of(args) == (StartupMode::Headless {
            keep_log: args.tui_listen is Some,
        }),
        !args.no_tui && args.ui == UiMode::Tui && args.tui_attach is None ==> mode_of(args)
            == StartupMode::Dashboard,
        !args.no_tui && args.ui == UiMode::Tui && args.tui_attach is Some ==> mode_of(args)
            == StartupMode::Attach(args.tui_attach->0),
{
}

} // verus!
