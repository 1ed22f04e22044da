//! Command-line arguments, and what they make of a configuration.
use crate::bytes::{
    all_digits, decimal, decimal_value, eq_ignore_case, is_digit, lower_bytes, parse_decimal,
    parse_decimal_spec,
};
use crate::config::loading::{answered, EnvProvider};
use crate::config::types::{BackendSelectionStrategy, Cache, Config, RoutingMode, Server};
use crate::text::{
    ascii_chars, concat3, decimal_text, law_letter_case, lemma_encode_ascii_front, number_string,
    same_letter, same_letters, str_eq, string_of,
};
use crate::types::{CacheCapacity, ConfigPath, Duration, Port, ThreadCount};
use vstd::prelude::*;
use vstd::string::*;
use vstd::utf8::*;

verus! {

// ---------------------------------------------------------------------------
// Addresses
// ---------------------------------------------------------------------------

/// An IP address, its bits read as a number in network order.
#[derive(Clone, Copy, Debug, PartialEq, Eq, Structural)]
pub enum IpAddress {
    V4(u32),
    V6(u128),
}

impl IpAddress {
    /// The IPv4 address `a.b.c.d`.
    pub fn v4(a: u8, b: u8, c: u8, d: u8) -> (r: Self)
        ensures
            r == IpAddress::V4((a * 0x100_0000 + b * 0x1_0000 + c * 0x100 + d) as u32),
    {
        IpAddress::V4(a as u32 * 0x100_0000 + b as u32 * 0x1_0000 + c as u32 * 0x100 + d as u32)
    }

    /// `127.0.0.0/8` and `::1`.
    pub open spec fn loopback(self) -> bool {
        match self {
            IpAddress::V4(bits) => bits / 0x100_0000 == 127,
            IpAddress::V6(bits) => bits == 1,
        }
    }

    /// `0.0.0.0` and `::`.
    pub open spec fn unspecified(self) -> bool {
        match self {
            IpAddress::V4(bits) => bits == 0,
            IpAddress::V6(bits) => bits == 0,
        }
    }

    pub fn is_loopback(self) -> (r: bool)
        ensures
            r == self.loopback(),
    {
        match self {
            IpAddress::V4(bits) => bits / 0x100_0000 == 127,
            IpAddress::V6(bits) => bits == 1,
        }
    }

    pub fn is_unspecified(self) -> (r: bool)
        ensures
            r == self.unspecified(),
    {
        match self {
            IpAddress::V4(bits) => bits == 0,
            IpAddress::V6(bits) => bits == 0,
        }
    }
}

/// An address and a port.
#[derive(Clone, Copy, Debug, PartialEq, Eq, Structural)]
pub struct SocketAddress {
    pub ip: IpAddress,
    pub port: u16,
}

/// Two listeners on one port get in each other's way at these addresses.
pub open spec fn ips_conflict(a: IpAddress, b: IpAddress) -> bool {
    a.unspecified() || b.unspecified() || a == b
}

/// Do two listeners on one port get in each other's way at these addresses?
pub fn listener_ips_conflict(proxy_ip: IpAddress, dashboard_ip: IpAddress) -> (r: bool)
    ensures
        r == ips_conflict(proxy_ip, dashboard_ip),
{
    proxy_ip.is_unspecified() || dashboard_ip.is_unspecified() || proxy_ip == dashboard_ip
}

/// A listener at any of the addresses gets in the way of the dashboard. Where
/// the addresses are not known, only a dashboard at every address is in the way.
pub open spec fn listener_conflict(
    proxy_ips: Option<Seq<IpAddress>>,
    dashboard_ip: IpAddress,
) -> bool {
    match proxy_ips {
        None => dashboard_ip.unspecified(),
        Some(ips) => some_conflict(ips, dashboard_ip),
    }
}

/// A listener at one of the addresses gets in the way of the dashboard.
pub open spec fn some_conflict(ips: Seq<IpAddress>, dashboard_ip: IpAddress) -> bool {
    exists|i: int| 0 <= i < ips.len() && ips_conflict(#[trigger] ips[i], dashboard_ip)
}

/// Does a listener at the addresses of a host get in the way of the dashboard?
/// `proxy_ips` is what the host resolves to, if it does.
pub fn proxy_listener_conflicts(
    proxy_ips: &Option<Vec<IpAddress>>,
    dashboard_ip: IpAddress,
) -> (r: bool)
    ensures
        r == listener_conflict(
            match proxy_ips {
                Some(v) => Some(v@),
                None => None,
            },
            dashboard_ip,
        ),
{
    match proxy_ips {
        None => dashboard_ip.is_unspecified(),
        Some(ips) => {
            let mut i: usize = 0;
            while i < ips.len()
                invariant
                    i <= ips@.len(),
                    *proxy_ips == Some(*ips),
                    forall|j: int| 0 <= j < i ==> !ips_conflict(#[trigger] ips@[j], dashboard_ip),
                decreases ips.len() - i,
            {
                if listener_ips_conflict(ips[i], dashboard_ip) {
                    assert(ips_conflict(ips@[i as int], dashboard_ip));
                    assert(some_conflict(ips@, dashboard_ip));
                    return true;
                }
                i += 1;
            }
            false
        },
    }
}

// ---------------------------------------------------------------------------
// Texts
// ---------------------------------------------------------------------------

/// Why a text is no port.
#[derive(Clone, Copy, Debug, PartialEq, Eq, Structural)]
pub enum PortTextError {
    /// It is no number of 16 bits.
    Number,
    /// It is zero.
    Zero,
}

/// Reads a port.
pub fn parse_port(s: &str) -> (r: Result<Port, PortTextError>)
    ensures
        match parse_decimal_spec(s.spec_bytes()) {
            Some(n) => if n > 65535 {
                r == Err::<Port, PortTextError>(PortTextError::Number)
            } else if n == 0 {
                r == Err::<Port, PortTextError>(PortTextError::Zero)
            } else {
                r is Ok && r->Ok_0@ == n
            },
            None => r == Err::<Port, PortTextError>(PortTextError::Number),
        },
{
    match parse_decimal(s.as_bytes(), 65535) {
        Some(n) => match Port::new(n as u16) {
            Some(p) => Ok(p),
            None => Err(PortTextError::Zero),
        },
        None => Err(PortTextError::Number),
    }
}

/// The number of digits that a text starts with.
pub open spec fn digit_run(s: Seq<u8>) -> nat
    decreases s.len(),
{
    if s.len() > 0 && is_digit(s[0]) {
        1 + digit_run(s.subrange(1, s.len() as int))
    } else {
        0
    }
}

/// The text is this unit, in any letter case.
pub open spec fn unit_is(unit: Seq<u8>, name: &str) -> bool {
    lower_bytes(unit) == lower_bytes(name.spec_bytes())
}

/// The bytes in a unit: decimal multiples, or binary ones where there is an
/// `i`.
pub open spec fn unit_size(unit: Seq<u8>) -> Option<nat> {
    if unit.len() == 0 || unit_is(unit, "b") {
        Some(1)
    } else if unit_is(unit, "k") || unit_is(unit, "kb") {
        Some(1_000)
    } else if unit_is(unit, "ki") || unit_is(unit, "kib") {
        Some(1_024)
    } else if unit_is(unit, "m") || unit_is(unit, "mb") {
        Some(1_000_000)
    } else if unit_is(unit, "mi") || unit_is(unit, "mib") {
        Some(1_048_576)
    } else if unit_is(unit, "g") || unit_is(unit, "gb") {
        Some(1_000_000_000)
    } else if unit_is(unit, "gi") || unit_is(unit, "gib") {
        Some(1_073_741_824)
    } else if unit_is(unit, "t") || unit_is(unit, "tb") {
        Some(1_000_000_000_000)
    } else if unit_is(unit, "ti") || unit_is(unit, "tib") {
        Some(1_099_511_627_776)
    } else {
        None
    }
}

fn size_of_unit(unit: &[u8]) -> (r: Option<u64>)
    ensures
        match r {
            Some(n) => n > 0 && unit_size(unit@) == Some(n as nat),
            None => unit_size(unit@) is None,
        },
{
    if unit.len() == 0 || eq_ignore_case(unit, "b".as_bytes()) {
        Some(1)
    } else if eq_ignore_case(unit, "k".as_bytes()) || eq_ignore_case(unit, "kb".as_bytes()) {
        Some(1_000)
    } else if eq_ignore_case(unit, "ki".as_bytes()) || eq_ignore_case(unit, "kib".as_bytes()) {
        Some(1_024)
    } else if eq_ignore_case(unit, "m".as_bytes()) || eq_ignore_case(unit, "mb".as_bytes()) {
        Some(1_000_000)
    } else if eq_ignore_case(unit, "mi".as_bytes()) || eq_ignore_case(unit, "mib".as_bytes()) {
        Some(1_048_576)
    } else if eq_ignore_case(unit, "g".as_bytes()) || eq_ignore_case(unit, "gb".as_bytes()) {
        Some(1_000_000_000)
    } else if eq_ignore_case(unit, "gi".as_bytes()) || eq_ignore_case(unit, "gib".as_bytes()) {
        Some(1_073_741_824)
    } else if eq_ignore_case(unit, "t".as_bytes()) || eq_ignore_case(unit, "tb".as_bytes()) {
        Some(1_000_000_000_000)
    } else if eq_ignore_case(unit, "ti".as_bytes()) || eq_ignore_case(unit, "tib".as_bytes()) {
        Some(1_099_511_627_776)
    } else {
        None
    }
}

/// The capacity that a text names: a whole number and a unit, such as `64mb`.
pub open spec fn capacity_of(s: Seq<u8>) -> Option<nat> {
    let n = digit_run(s) as int;
    if n == 0 {
        None
    } else {
        match unit_size(s.subrange(n, s.len() as int)) {
            None => None,
            Some(size) => {
                let value = decimal_value(s.subrange(0, n)) * size;
                if 0 < value <= u64::MAX {
                    Some(value)
                } else {
                    None
                }
            },
        }
    }
}

proof fn lemma_digit_run(s: Seq<u8>, n: int)
    requires
        0 <= n <= s.len(),
        forall|i: int| 0 <= i < n ==> is_digit(#[trigger] s[i]),
        n < s.len() ==> !is_digit(s[n]),
    ensures
        digit_run(s) == n,
    decreases n,
{
    if n > 0 {
        assert(is_digit(s[0]));
        let rest = s.subrange(1, s.len() as int);
        assert forall|i: int| 0 <= i < n - 1 implies is_digit(#[trigger] rest[i]) by {
            assert(rest[i] == s[i + 1]);
        }
        lemma_digit_run(rest, n - 1);
    }
}

/// Reads a capacity: a whole number and a unit, such as `64mb`.
pub fn parse_capacity(text: &str) -> (r: Option<CacheCapacity>)
    ensures
        match r {
            Some(c) => capacity_of(text.spec_bytes()) == Some(c@),
            None => capacity_of(text.spec_bytes()) is None,
        },
{
    let s = text.as_bytes();
    let mut n: usize = 0;
    while n < s.len() && 0x30 <= s[n] && s[n] <= 0x39
        invariant
            n <= s@.len(),
            forall|i: int| 0 <= i < n ==> is_digit(#[trigger] s@[i]),
        decreases s.len() - n,
    {
        n += 1;
    }
    proof {
        lemma_digit_run(s@, n as int);
    }
    if n == 0 {
        return None;
    }
    let digits = &s[0..n];
    let unit = &s[n..s.len()];
    let size = match size_of_unit(unit) {
        Some(size) => size,
        None => {
            return None;
        },
    };
    assert(is_digit(s@[0]) && digits@[0] == s@[0]);
    assert(all_digits(digits@));
    let ghost value = decimal_value(digits@);
    match parse_decimal(digits, u64::MAX) {
        Some(number) => match number.checked_mul(size) {
            Some(total) => CacheCapacity::new(total),
            None => None,
        },
        None => {
            assert(value * size > u64::MAX) by (nonlinear_arith)
                requires
                    value > u64::MAX,
                    size >= 1,
            ;
            None
        },
    }
}

// ---------------------------------------------------------------------------
// Arguments
// ---------------------------------------------------------------------------

/// How the program shows itself.
#[derive(Clone, Copy, Debug, PartialEq, Eq, Structural)]
pub enum UiMode {
    /// A server that logs to standard output.
    Headless,
    /// A server with the terminal dashboard.
    Tui,
}

impl UiMode {
    pub const DEFAULT: UiMode = UiMode::Headless;

    /// Is the terminal dashboard shown?
    pub fn uses_tui(self) -> (r: bool)
        ensures
            r == (self == UiMode::Tui),
    {
        matches!(self, UiMode::Tui)
    }
}

/// The port of the proxy where none is given.
pub const DEFAULT_PORT: u16 = 8119;

/// The arguments of the program.
#[derive(Clone, Debug)]
pub struct CommonArgs {
    pub config: ConfigPath,
    pub ui: UiMode,
    /// An older way to ask for no dashboard.
    pub no_tui: bool,
    /// Where the dashboard is published.
    pub tui_listen: Option<SocketAddress>,
    /// The published dashboard to show.
    pub tui_attach: Option<SocketAddress>,
    pub port: Option<Port>,
    pub host: Option<String>,
    pub routing_mode: Option<RoutingMode>,
    pub backend_selection: Option<BackendSelectionStrategy>,
    pub article_cache_capacity: Option<CacheCapacity>,
    pub article_cache_ttl_secs: Option<u64>,
    pub store_article_bodies: Option<bool>,
    pub threads: Option<ThreadCount>,
    pub backend_pipelining: Option<bool>,
}

/// Arguments that do not go together.
#[derive(Clone, Copy, Debug, PartialEq, Eq, Structural)]
pub enum ArgsError {
    AttachWithoutTui,
    ListenWithTui,
    AttachWithListen,
    /// The dashboard to show is on another machine.
    AttachNotLoopback,
    /// The dashboard would be published to other machines.
    ListenNotLoopback,
    /// The dashboard and the proxy would use one socket.
    ListenConflict,
}

impl ArgsError {
    /// What the error says. `addr` is the dashboard address that it is about,
    /// `proxy` the address of the proxy.
    pub open spec fn text(self, addr: Seq<char>, proxy: Seq<char>) -> Seq<char> {
        match self {
            ArgsError::AttachWithoutTui => "--tui-attach requires --ui tui"@,
            ArgsError::ListenWithTui =>
                "--tui-listen requires headless mode; use --ui headless"@,
            ArgsError::AttachWithListen => "--tui-attach cannot be combined with --tui-listen"@,
            ArgsError::AttachNotLoopback => "--tui-attach "@ + addr
                + " must connect to a loopback address; use 127.0.0.1 or ::1"@,
            ArgsError::ListenNotLoopback => "--tui-listen "@ + addr
                + " must bind to a loopback address; use 127.0.0.1 or ::1"@,
            ArgsError::ListenConflict => ("--tui-listen "@ + addr
                + " conflicts with the proxy listener "@) + proxy + "; use a different port"@,
        }
    }

    /// What the error says. `addr` is the dashboard address that it is about,
    /// `proxy` the address of the proxy.
    pub fn message(&self, addr: &str, proxy: &str) -> (r: String)
        ensures
            r@ == self.text(addr@, proxy@),
    {
        match self {
            ArgsError::AttachWithoutTui => string_of("--tui-attach requires --ui tui"),
            ArgsError::ListenWithTui => string_of(
                "--tui-listen requires headless mode; use --ui headless",
            ),
            ArgsError::AttachWithListen => string_of(
                "--tui-attach cannot be combined with --tui-listen",
            ),
            ArgsError::AttachNotLoopback => concat3(
                "--tui-attach ",
                addr,
                " must connect to a loopback address; use 127.0.0.1 or ::1",
            ),
            ArgsError::ListenNotLoopback => concat3(
                "--tui-listen ",
                addr,
                " must bind to a loopback address; use 127.0.0.1 or ::1",
            ),
            ArgsError::ListenConflict => {
                let head = concat3("--tui-listen ", addr, " conflicts with the proxy listener ");
                concat3(head.as_str(), proxy, "; use a different port")
            },
        }
    }
}

impl CommonArgs {
    /// The port: that of the arguments, else that of the configuration.
    pub open spec fn port_or(&self, config_port: Option<Port>) -> Option<Port> {
        match self.port {
            Some(p) => Some(p),
            None => config_port,
        }
    }

    /// The host: that of the arguments, else every interface.
    pub open spec fn host_text(&self) -> Seq<char> {
        match self.host {
            Some(h) => h@,
            None => "0.0.0.0"@,
        }
    }

    /// The mode: headless wherever the older switch asks for it.
    pub open spec fn ui_mode(&self) -> UiMode {
        if self.no_tui {
            UiMode::Headless
        } else {
            self.ui
        }
    }

    /// Where the proxy listens, such as `0.0.0.0:8119`.
    pub fn listen_addr(&self, config_port: Option<Port>) -> (r: String)
        ensures
            r@ == self.host_text() + ":"@ + decimal_text(
                match self.port_or(config_port) {
                    Some(p) => p@,
                    None => 8119,
                },
            ),
    {
        let port: u16 = match self.effective_port(config_port) {
            Some(p) => p.get(),
            None => DEFAULT_PORT,
        };
        let number = number_string(port as u64);
        concat3(self.effective_host(), ":", number.as_str())
    }

    /// The port: that of the arguments, else that of the configuration.
    pub fn effective_port(&self, config_port: Option<Port>) -> (r: Option<Port>)
        ensures
            r == self.port_or(config_port),
    {
        match self.port {
            Some(p) => Some(p),
            None => config_port,
        }
    }

    /// The host: that of the arguments, else every interface.
    pub fn effective_host(&self) -> (r: &str)
        ensures
            r@ == self.host_text(),
    {
        match &self.host {
            Some(h) => h.as_str(),
            None => "0.0.0.0",
        }
    }

    /// The mode: headless wherever the older switch asks for it.
    pub fn effective_ui_mode(&self) -> (r: UiMode)
        ensures
            r == self.ui_mode(),
    {
        if self.no_tui {
            UiMode::Headless
        } else {
            self.ui
        }
    }

    /// Why the arguments on the dashboard do not go together, if they do not.
    pub open spec fn runtime_refusal(&self) -> Option<ArgsError> {
        if self.tui_attach is Some && self.ui_mode() != UiMode::Tui {
            Some(ArgsError::AttachWithoutTui)
        } else if self.tui_listen is Some && self.ui_mode() != UiMode::Headless {
            Some(ArgsError::ListenWithTui)
        } else if self.tui_attach is Some && !self.tui_attach->0.ip.loopback() {
            Some(ArgsError::AttachNotLoopback)
        } else {
            None
        }
    }

    /// Checks that the arguments on the dashboard go together.
    pub fn validate_runtime_mode(&self) -> (r: Result<(), ArgsError>)
        ensures
            r == (match self.runtime_refusal() {
                Some(e) => Err::<(), ArgsError>(e),
                None => Ok::<(), ArgsError>(()),
            }),
    {
        let ui_mode = self.effective_ui_mode();
        if self.tui_attach.is_some() && ui_mode != UiMode::Tui {
            return Err(ArgsError::AttachWithoutTui);
        }
        if self.tui_listen.is_some() && ui_mode != UiMode::Headless {
            return Err(ArgsError::ListenWithTui);
        }
        if self.tui_attach.is_some() && self.tui_listen.is_some() {
            return Err(ArgsError::AttachWithListen);
        }
        if let Some(addr) = self.tui_attach {
            if !addr.ip.is_loopback() {
                return Err(ArgsError::AttachNotLoopback);
            }
        }
        Ok(())
    }

    /// Why the dashboard cannot be published beside the proxy, if it cannot.
    pub open spec fn dashboard_refusal(
        &self,
        proxy_port: nat,
        proxy_ips: Option<Seq<IpAddress>>,
    ) -> Option<ArgsError> {
        match self.tui_listen {
            None => None,
            Some(addr) => if !addr.ip.loopback() {
                Some(ArgsError::ListenNotLoopback)
            } else if addr.port == proxy_port && listener_conflict(proxy_ips, addr.ip) {
                Some(ArgsError::ListenConflict)
            } else {
                None
            },
        }
    }

    /// Checks that the dashboard does not take the socket of the proxy.
    /// `proxy_ips` is what the host of the proxy resolves to, if it does.
    pub fn validate_dashboard_listen(
        &self,
        proxy_port: Port,
        proxy_ips: &Option<Vec<IpAddress>>,
    ) -> (r: Result<(), ArgsError>)
        ensures
            r == (match self.dashboard_refusal(
                proxy_port@,
                match proxy_ips {
                    Some(v) => Some(v@),
                    None => None,
                },
            ) {
                Some(e) => Err::<(), ArgsError>(e),
                None => Ok::<(), ArgsError>(()),
            }),
    {
        let addr = match self.tui_listen {
            None => {
                return Ok(());
            },
            Some(addr) => addr,
        };
        if !addr.ip.is_loopback() {
            return Err(ArgsError::ListenNotLoopback);
        }
        if addr.port != proxy_port.get() {
            return Ok(());
        }
        if proxy_listener_conflicts(proxy_ips, addr.ip) {
            return Err(ArgsError::ListenConflict);
        }
        Ok(())
    }

    // -----------------------------------------------------------------------
    // Overrides
    // -----------------------------------------------------------------------

    /// The older variables, each looked up only where its argument is not
    /// given.
    fn legacy_vars<E: EnvProvider>(&self, env: &E) -> (r: LegacyVars)
        ensures
            self.looked_up(env, r),
    {
        let capacity = if self.article_cache_capacity.is_none() {
            look_up(env, "NNTP_PROXY_CACHE_CAPACITY")
        } else {
            None
        };
        let ttl = if self.article_cache_ttl_secs.is_none() {
            look_up(env, "NNTP_PROXY_CACHE_TTL")
        } else {
            None
        };
        let articles = if self.store_article_bodies.is_none() {
            look_up(env, "NNTP_PROXY_CACHE_ARTICLES")
        } else {
            None
        };
        let pipelining = if self.backend_pipelining.is_none() {
            look_up(env, "NNTP_PROXY_ENABLE_PIPELINING")
        } else {
            None
        };
        LegacyVars { capacity, ttl, articles, pipelining }
    }

    /// The variables are what the environment says where the argument is not
    /// given.
    pub open spec fn looked_up<E: EnvProvider>(&self, env: &E, vars: LegacyVars) -> bool {
        &&& if self.article_cache_capacity is None {
            answered(env, "NNTP_PROXY_CACHE_CAPACITY"@, vars.capacity)
        } else {
            vars.capacity is None
        }
        &&& if self.article_cache_ttl_secs is None {
            answered(env, "NNTP_PROXY_CACHE_TTL"@, vars.ttl)
        } else {
            vars.ttl is None
        }
        &&& if self.store_article_bodies is None {
            answered(env, "NNTP_PROXY_CACHE_ARTICLES"@, vars.articles)
        } else {
            vars.articles is None
        }
        &&& if self.backend_pipelining is None {
            answered(env, "NNTP_PROXY_ENABLE_PIPELINING"@, vars.pipelining)
        } else {
            vars.pipelining is None
        }
    }

    /// The capacity that is asked for.
    pub open spec fn wanted_capacity(&self, vars: LegacyVars) -> Option<nat> {
        match self.article_cache_capacity {
            Some(c) => Some(c@),
            None => match vars.capacity {
                Some(s) => capacity_of(encode_utf8(s@)),
                None => None,
            },
        }
    }

    /// The lifetime that is asked for, in seconds.
    pub open spec fn wanted_ttl(&self, vars: LegacyVars) -> Option<nat> {
        match self.article_cache_ttl_secs {
            Some(n) => Some(n as nat),
            None => match vars.ttl {
                Some(s) => match parse_decimal_spec(encode_utf8(s@)) {
                    Some(n) => if n <= u64::MAX {
                        Some(n)
                    } else {
                        None
                    },
                    None => None,
                },
                None => None,
            },
        }
    }

    /// Whether bodies are asked to be stored.
    pub open spec fn wanted_bodies(&self, vars: LegacyVars) -> Option<bool> {
        match self.store_article_bodies {
            Some(b) => Some(b),
            None => truth_var(vars.articles),
        }
    }

    /// Whether pipelining is asked for.
    pub open spec fn wanted_pipelining(&self, vars: LegacyVars) -> Option<bool> {
        match self.backend_pipelining {
            Some(b) => Some(b),
            None => truth_var(vars.pipelining),
        }
    }

    /// What the arguments and the older variables make of a configuration.
    /// What is not asked for stays; a cache section appears once anything in it
    /// is asked for.
    pub open spec fn overrides(&self, vars: LegacyVars, before: Config, after: Config) -> bool {
        let capacity = self.wanted_capacity(vars);
        let ttl = self.wanted_ttl(vars);
        let bodies = self.wanted_bodies(vars);
        &&& after.proxy == before.proxy
        &&& after.health_check == before.health_check
        &&& after.client_auth == before.client_auth
        &&& after.routing.strategy == before.routing.strategy
        &&& after.routing.adaptive_precheck == before.routing.adaptive_precheck
        &&& after.routing.precheck_cache_size == before.routing.precheck_cache_size
        &&& after.routing.backend_selection == (match self.backend_selection {
            Some(s) => s,
            None => before.routing.backend_selection,
        })
        &&& after.routing.routing_mode == (match self.routing_mode {
            Some(m) => m,
            None => before.routing.routing_mode,
        })
        &&& if capacity is None && ttl is None && bodies is None {
            after.cache == before.cache
        } else {
            after.cache is Some && cache_override(before.cache, capacity, ttl, bodies, after.cache->0)
        }
        &&& match self.wanted_pipelining(vars) {
            None => after.servers == before.servers,
            Some(on) => after.servers@ =~= before.servers@.map_values(
                |s: Server| Server { backend_pipelining: on, ..s },
            ),
        }
    }

    /// Puts the arguments and the older variables over a configuration.
    pub fn apply_overrides(&self, config: &mut Config, vars: &LegacyVars)
        ensures
            self.overrides(*vars, *old(config), *final(config)),
    {
        if let Some(strategy) = self.backend_selection {
            config.routing.backend_selection = strategy;
        }
        if let Some(mode) = self.routing_mode {
            config.routing.routing_mode = mode;
        }
        let capacity = match self.article_cache_capacity {
            Some(c) => Some(c),
            None => match &vars.capacity {
                Some(s) => parse_capacity(s.as_str()),
                None => None,
            },
        };
        let ttl = match self.article_cache_ttl_secs {
            Some(n) => Some(n),
            None => match &vars.ttl {
                Some(s) => parse_decimal(s.as_str().as_bytes(), u64::MAX),
                None => None,
            },
        };
        let bodies = match self.store_article_bodies {
            Some(b) => Some(b),
            None => truth_of(&vars.articles),
        };
        if capacity.is_some() || ttl.is_some() || bodies.is_some() {
            let mut cache = match config.cache {
                Some(c) => c,
                None => Cache::default(),
            };
            if let Some(c) = capacity {
                cache.max_capacity = c;
            }
            if let Some(n) = ttl {
                cache.ttl = Duration::from_secs(n);
            }
            if let Some(b) = bodies {
                cache.store_article_bodies = b;
            }
            config.cache = Some(cache);
        }
        let pipelining = match self.backend_pipelining {
            Some(b) => Some(b),
            None => truth_of(&vars.pipelining),
        };
        if let Some(on) = pipelining {
            set_pipelining(&mut config.servers, on);
        }
    }

    /// Puts the arguments, and what the environment says where they are silent,
    /// over a configuration.
    pub fn apply_overrides_with_env<E: EnvProvider>(&self, config: &mut Config, env: &E)
        ensures
            exists|vars: LegacyVars| #[trigger]
                self.looked_up(env, vars) && self.overrides(vars, *old(config), *final(config)),
    {
        let vars = self.legacy_vars(env);
        self.apply_overrides(config, &vars);
        assert(self.looked_up(env, vars) && self.overrides(vars, *old(config), *config));
    }
}

/// The older variables, as they were found.
#[derive(Debug)]
pub struct LegacyVars {
    pub capacity: Option<String>,
    pub ttl: Option<String>,
    pub articles: Option<String>,
    pub pipelining: Option<String>,
}

fn look_up<E: EnvProvider>(env: &E, key: &str) -> (r: Option<String>)
    ensures
        answered(env, key@, r),
{
    let value = env.get(key);
    assert(call_ensures(E::get, (env, key), value));
    value
}

/// A variable read as a truth value; only `true` and `false` are.
pub open spec fn truth_var(value: Option<String>) -> Option<bool> {
    match value {
        Some(s) => if s@ == "true"@ {
            Some(true)
        } else if s@ == "false"@ {
            Some(false)
        } else {
            None
        },
        None => None,
    }
}

fn truth_of(value: &Option<String>) -> (r: Option<bool>)
    ensures
        r == truth_var(*value),
{
    match value {
        Some(s) => {
            if str_eq(s.as_str(), "true") {
                Some(true)
            } else if str_eq(s.as_str(), "false") {
                Some(false)
            } else {
                None
            }
        },
        None => None,
    }
}

/// The cache section with what is asked for in it, over the one that was there
/// or the default one.
pub open spec fn cache_override(
    before: Option<Cache>,
    capacity: Option<nat>,
    ttl: Option<nat>,
    bodies: Option<bool>,
    after: Cache,
) -> bool {
    &&& after.max_capacity@ == (match (capacity, before) {
        (Some(n), _) => n,
        (None, Some(c)) => c.max_capacity@,
        (None, None) => 10_000,
    })
    &&& after.ttl@ == (match (ttl, before) {
        (Some(n), _) => n * 1_000_000_000,
        (None, Some(c)) => c.ttl@,
        (None, None) => 3600 * 1_000_000_000,
    })
    &&& after.store_article_bodies == (match (bodies, before) {
        (Some(b), _) => b,
        (None, Some(c)) => c.store_article_bodies,
        (None, None) => true,
    })
}

fn set_pipelining(servers: &mut Vec<Server>, on: bool)
    ensures
        final(servers)@ =~= old(servers)@.map_values(
            |s: Server| Server { backend_pipelining: on, ..s },
        ),
{
    let mut i: usize = 0;
    while i < servers.len()
        invariant
            i <= servers@.len(),
            servers@.len() == old(servers)@.len(),
            forall|j: int|
                0 <= j < i ==> #[trigger] servers@[j] == (Server {
                    backend_pipelining: on,
                    ..old(servers)@[j]
                }),
            forall|j: int| i <= j < servers@.len() ==> #[trigger] servers@[j] == old(servers)@[j],
        decreases servers.len() - i,
    {
        servers[i].backend_pipelining = on;
        i += 1;
    }
}

/// `base` to the power of `k`.
pub open spec fn power(base: nat, k: nat) -> nat
    decreases k,
{
    if k == 0 {
        1
    } else {
        base * power(base, (k - 1) as nat)
    }
}

/// The letter of a unit: the first four powers of a thousand, from `k` on.
pub open spec fn unit_letter(k: nat) -> Seq<char> {
    if k == 1 {
        "k"@
    } else if k == 2 {
        "m"@
    } else if k == 3 {
        "g"@
    } else {
        "t"@
    }
}

/// The unit of a power of a thousand: bytes, or a letter with or without `b`.
pub open spec fn decimal_unit(unit: Seq<char>, k: nat) -> bool {
    if k == 0 {
        unit.len() == 0 || same_letters(unit, "b"@)
    } else {
        same_letters(unit, unit_letter(k)) || same_letters(unit, unit_letter(k) + "b"@)
    }
}

/// The unit of a power of 1024: a letter and `i`, with or without `b`.
pub open spec fn binary_unit(unit: Seq<char>, k: nat) -> bool {
    same_letters(unit, unit_letter(k) + "i"@) || same_letters(unit, unit_letter(k) + "ib"@)
}

proof fn lemma_powers()
    ensures
        power(1000, 0) == 1,
        power(1000, 1) == 1_000,
        power(1000, 2) == 1_000_000,
        power(1000, 3) == 1_000_000_000,
        power(1000, 4) == 1_000_000_000_000,
        power(1024, 1) == 1_024,
        power(1024, 2) == 1_048_576,
        power(1024, 3) == 1_073_741_824,
        power(1024, 4) == 1_099_511_627_776,
{
    reveal_with_fuel(power, 6);
}

proof fn lemma_unit_names()
    ensures
        "b"@ == seq!['b'],
        "k"@ == seq!['k'],
        "kb"@ == seq!['k', 'b'],
        "ki"@ == seq!['k', 'i'],
        "kib"@ == seq!['k', 'i', 'b'],
        "m"@ == seq!['m'],
        "mb"@ == seq!['m', 'b'],
        "mi"@ == seq!['m', 'i'],
        "mib"@ == seq!['m', 'i', 'b'],
        "g"@ == seq!['g'],
        "gb"@ == seq!['g', 'b'],
        "gi"@ == seq!['g', 'i'],
        "gib"@ == seq!['g', 'i', 'b'],
        "t"@ == seq!['t'],
        "tb"@ == seq!['t', 'b'],
        "ti"@ == seq!['t', 'i'],
        "tib"@ == seq!['t', 'i', 'b'],
        "i"@ == seq!['i'],
        "ib"@ == seq!['i', 'b'],
{
    reveal_strlit("b");
    reveal_strlit("k");
    reveal_strlit("kb");
    reveal_strlit("ki");
    reveal_strlit("kib");
    reveal_strlit("m");
    reveal_strlit("mb");
    reveal_strlit("mi");
    reveal_strlit("mib");
    reveal_strlit("g");
    reveal_strlit("gb");
    reveal_strlit("gi");
    reveal_strlit("gib");
    reveal_strlit("t");
    reveal_strlit("tb");
    reveal_strlit("ti");
    reveal_strlit("tib");
    reveal_strlit("i");
    reveal_strlit("ib");
}

/// A unit is read by its letters in any case.
proof fn lemma_unit_is(unit: Seq<char>, name: &str)
    requires
        is_ascii_chars(name@),
    ensures
        unit_is(encode_utf8(unit), name) == same_letters(unit, name@),
{
    law_letter_case(unit, name@);
}

/// A unit starts with no digit.
proof fn lemma_no_digit(unit: Seq<char>, name: Seq<char>)
    requires
        same_letters(unit, name),
        name.len() > 0,
        'a' <= name[0] <= 'z',
    ensures
        encode_utf8(unit).len() > 0,
        !is_digit(encode_utf8(unit)[0]),
{
    assert(same_letter(unit[0], name[0]));
    let c = unit[0];
    let first = seq![c as u8];
    assert(ascii_chars(first) =~= seq![c]);
    assert(ascii_chars(first) + unit.drop_first() =~= unit);
    lemma_encode_ascii_front(first, unit.drop_first());
}

/// A number and a unit are read apart.
proof fn lemma_number_and_unit(n: nat, unit: Seq<char>, size: nat)
    requires
        encode_utf8(unit).len() > 0 ==> !is_digit(encode_utf8(unit)[0]),
        unit_size(encode_utf8(unit)) == Some(size),
    ensures
        capacity_of(encode_utf8(decimal_text(n) + unit)) == (if 0 < n * size <= u64::MAX {
            Some(n * size)
        } else {
            None
        }),
{
    let d = decimal(n);
    let u = encode_utf8(unit);
    assert(d.len() > 0 && is_digit(d[0]) && all_digits(d) && decimal_value(d) == n) by {
        crate::bytes::lemma_decimal_parts(n);
    }
    assert forall|i: int| 0 <= i < d.len() implies #[trigger] d[i] < 0x80 by {
        assert(is_digit(d[i]));
    }
    lemma_encode_ascii_front(d, unit);
    let s = d + u;
    assert(encode_utf8(decimal_text(n) + unit) == s);
    assert forall|i: int| 0 <= i < d.len() implies is_digit(#[trigger] s[i]) by {
        assert(s[i] == d[i]);
    }
    if u.len() > 0 {
        assert(s[d.len() as int] == u[0]);
    }
    lemma_digit_run(s, d.len() as int);
    assert(s.subrange(0, d.len() as int) =~= d);
    assert(s.subrange(d.len() as int, s.len() as int) =~= u);
}

/// A whole number and a unit name so many bytes: `b`, `kb`, `mb`, `gb` and `tb`
/// in powers of a thousand, `kib`, `mib`, `gib` and `tib` in powers of 1024, with
/// the `b` or without it and in any letter case. Nothing, and more than 64 bits
/// hold, are no capacity.
pub proof fn law_capacity_in_units(n: nat, unit: Seq<char>, k: nat)
    requires
        k <= 4,
    ensures
        decimal_unit(unit, k) ==> capacity_of(encode_utf8(decimal_text(n) + unit)) == (if 0 < n
            * power(1000, k) <= u64::MAX {
            Some(n * power(1000, k))
        } else {
            None
        }),
        k > 0 && binary_unit(unit, k) ==> capacity_of(encode_utf8(decimal_text(n) + unit)) == (
        if 0 < n * power(1024, k) <= u64::MAX {
            Some(n * power(1024, k))
        } else {
            None
        }),
{
    lemma_powers();
    if decimal_unit(unit, k) {
        lemma_decimal_unit(unit, k);
        lemma_number_and_unit(n, unit, power(1000, k));
    }
    if k > 0 && binary_unit(unit, k) {
        lemma_binary_unit(unit, k);
        lemma_number_and_unit(n, unit, power(1024, k));
    }
}

/// A number with any other unit is no capacity, and neither is a text that does
/// not start with a digit.
pub proof fn law_other_units_are_refused(n: nat, unit: Seq<char>)
    requires
        unit.len() > 0,
        !('0' <= unit[0] <= '9'),
        forall|k: nat| k <= 4 ==> !#[trigger] decimal_unit(unit, k),
        forall|k: nat| 1 <= k <= 4 ==> !#[trigger] binary_unit(unit, k),
    ensures
        capacity_of(encode_utf8(decimal_text(n) + unit)) is None,
        capacity_of(encode_utf8(unit)) is None,
{
    lemma_unit_names();
    lemma_units(unit);
    assert(!decimal_unit(unit, 0) && !decimal_unit(unit, 1) && !decimal_unit(unit, 2));
    assert(!decimal_unit(unit, 3) && !decimal_unit(unit, 4));
    assert(!binary_unit(unit, 1) && !binary_unit(unit, 2));
    assert(!binary_unit(unit, 3) && !binary_unit(unit, 4));
    assert("k"@ + "b"@ =~= seq!['k', 'b'] && "m"@ + "b"@ =~= seq!['m', 'b']);
    assert("g"@ + "b"@ =~= seq!['g', 'b'] && "t"@ + "b"@ =~= seq!['t', 'b']);
    assert("k"@ + "i"@ =~= seq!['k', 'i'] && "m"@ + "i"@ =~= seq!['m', 'i']);
    assert("g"@ + "i"@ =~= seq!['g', 'i'] && "t"@ + "i"@ =~= seq!['t', 'i']);
    assert("k"@ + "ib"@ =~= seq!['k', 'i', 'b'] && "m"@ + "ib"@ =~= seq!['m', 'i', 'b']);
    assert("g"@ + "ib"@ =~= seq!['g', 'i', 'b'] && "t"@ + "ib"@ =~= seq!['t', 'i', 'b']);
    crate::text::lemma_first_of_text(unit);
    let u = encode_utf8(unit);
    assert(u.len() > 0 && !is_digit(u[0]));
    let d = decimal(n);
    crate::bytes::lemma_decimal_parts(n);
    assert forall|i: int| 0 <= i < d.len() implies #[trigger] d[i] < 0x80 by {
        assert(is_digit(d[i]));
    }
    lemma_encode_ascii_front(d, unit);
    let all = d + u;
    assert forall|i: int| 0 <= i < d.len() implies is_digit(#[trigger] all[i]) by {
        assert(all[i] == d[i]);
    }
    assert(all[d.len() as int] == u[0]);
    lemma_digit_run(all, d.len() as int);
    assert(all.subrange(d.len() as int, all.len() as int) =~= u);
}

/// Which unit a text is, by its letters.
proof fn lemma_units(unit: Seq<char>)
    ensures
        unit_is(encode_utf8(unit), "b") == same_letters(unit, seq!['b']),
        unit_is(encode_utf8(unit), "k") == same_letters(unit, seq!['k']),
        unit_is(encode_utf8(unit), "kb") == same_letters(unit, seq!['k', 'b']),
        unit_is(encode_utf8(unit), "ki") == same_letters(unit, seq!['k', 'i']),
        unit_is(encode_utf8(unit), "kib") == same_letters(unit, seq!['k', 'i', 'b']),
        unit_is(encode_utf8(unit), "m") == same_letters(unit, seq!['m']),
        unit_is(encode_utf8(unit), "mb") == same_letters(unit, seq!['m', 'b']),
        unit_is(encode_utf8(unit), "mi") == same_letters(unit, seq!['m', 'i']),
        unit_is(encode_utf8(unit), "mib") == same_letters(unit, seq!['m', 'i', 'b']),
        unit_is(encode_utf8(unit), "g") == same_letters(unit, seq!['g']),
        unit_is(encode_utf8(unit), "gb") == same_letters(unit, seq!['g', 'b']),
        unit_is(encode_utf8(unit), "gi") == same_letters(unit, seq!['g', 'i']),
        unit_is(encode_utf8(unit), "gib") == same_letters(unit, seq!['g', 'i', 'b']),
        unit_is(encode_utf8(unit), "t") == same_letters(unit, seq!['t']),
        unit_is(encode_utf8(unit), "tb") == same_letters(unit, seq!['t', 'b']),
        unit_is(encode_utf8(unit), "ti") == same_letters(unit, seq!['t', 'i']),
        unit_is(encode_utf8(unit), "tib") == same_letters(unit, seq!['t', 'i', 'b']),
{
    lemma_unit_names();
    lemma_unit_is(unit, "b");
    lemma_unit_is(unit, "k");
    lemma_unit_is(unit, "kb");
    lemma_unit_is(unit, "ki");
    lemma_unit_is(unit, "kib");
    lemma_unit_is(unit, "m");
    lemma_unit_is(unit, "mb");
    lemma_unit_is(unit, "mi");
    lemma_unit_is(unit, "mib");
    lemma_unit_is(unit, "g");
    lemma_unit_is(unit, "gb");
    lemma_unit_is(unit, "gi");
    lemma_unit_is(unit, "gib");
    lemma_unit_is(unit, "t");
    lemma_unit_is(unit, "tb");
    lemma_unit_is(unit, "ti");
    lemma_unit_is(unit, "tib");
}

/// A text is one unit at most.
proof fn lemma_one_unit(unit: Seq<char>, name: Seq<char>)
    requires
        same_letters(unit, name),
        0 < name.len() <= 3,
        forall|i: int| 0 <= i < name.len() ==> 'a' <= #[trigger] name[i] <= 'z',
    ensures
        forall|other: Seq<char>|
            other != name && (forall|i: int|
                0 <= i < other.len() ==> 'a' <= #[trigger] other[i] <= 'z')
                ==> !#[trigger] same_letters(unit, other),
{
    assert forall|other: Seq<char>|
        other != name && (forall|i: int|
            0 <= i < other.len() ==> 'a' <= #[trigger] other[i] <= 'z') implies
        !#[trigger] same_letters(unit, other) by {
        if same_letters(unit, other) {
            assert forall|i: int| 0 <= i < name.len() implies name[i] == other[i] by {
                assert(same_letter(unit[i], name[i]) && same_letter(unit[i], other[i]));
                assert('a' <= name[i] <= 'z' && 'a' <= other[i] <= 'z');
            }
            assert(name =~= other);
        }
    }
}

/// A text is a unit exactly where its letters are those of the unit.
proof fn lemma_differ(name: Seq<char>)
    ensures
        (name == seq!['b']) == (name.len() == 1 && name[0] == 'b'),
        (name == seq!['k']) == (name.len() == 1 && name[0] == 'k'),
        (name == seq!['k', 'b']) == (name.len() == 2 && name[0] == 'k' && name[1] == 'b'),
        (name == seq!['k', 'i']) == (name.len() == 2 && name[0] == 'k' && name[1] == 'i'),
        (name == seq!['k', 'i', 'b']) == (name.len() == 3 && name[0] == 'k' && name[1] == 'i' && name[2] == 'b'),
        (name == seq!['m']) == (name.len() == 1 && name[0] == 'm'),
        (name == seq!['m', 'b']) == (name.len() == 2 && name[0] == 'm' && name[1] == 'b'),
        (name == seq!['m', 'i']) == (name.len() == 2 && name[0] == 'm' && name[1] == 'i'),
        (name == seq!['m', 'i', 'b']) == (name.len() == 3 && name[0] == 'm' && name[1] == 'i' && name[2] == 'b'),
        (name == seq!['g']) == (name.len() == 1 && name[0] == 'g'),
        (name == seq!['g', 'b']) == (name.len() == 2 && name[0] == 'g' && name[1] == 'b'),
        (name == seq!['g', 'i']) == (name.len() == 2 && name[0] == 'g' && name[1] == 'i'),
        (name == seq!['g', 'i', 'b']) == (name.len() == 3 && name[0] == 'g' && name[1] == 'i' && name[2] == 'b'),
        (name == seq!['t']) == (name.len() == 1 && name[0] == 't'),
        (name == seq!['t', 'b']) == (name.len() == 2 && name[0] == 't' && name[1] == 'b'),
        (name == seq!['t', 'i']) == (name.len() == 2 && name[0] == 't' && name[1] == 'i'),
        (name == seq!['t', 'i', 'b']) == (name.len() == 3 && name[0] == 't' && name[1] == 'i' && name[2] == 'b'),
{
    if name.len() == 1 && name[0] == 'b' {
        assert(name =~= seq!['b']);
    }
    if name.len() == 1 && name[0] == 'k' {
        assert(name =~= seq!['k']);
    }
    if name.len() == 2 && name[0] == 'k' && name[1] == 'b' {
        assert(name =~= seq!['k', 'b']);
    }
    if name.len() == 2 && name[0] == 'k' && name[1] == 'i' {
        assert(name =~= seq!['k', 'i']);
    }
    if name.len() == 3 && name[0] == 'k' && name[1] == 'i' && name[2] == 'b' {
        assert(name =~= seq!['k', 'i', 'b']);
    }
    if name.len() == 1 && name[0] == 'm' {
        assert(name =~= seq!['m']);
    }
    if name.len() == 2 && name[0] == 'm' && name[1] == 'b' {
        assert(name =~= seq!['m', 'b']);
    }
    if name.len() == 2 && name[0] == 'm' && name[1] == 'i' {
        assert(name =~= seq!['m', 'i']);
    }
    if name.len() == 3 && name[0] == 'm' && name[1] == 'i' && name[2] == 'b' {
        assert(name =~= seq!['m', 'i', 'b']);
    }
    if name.len() == 1 && name[0] == 'g' {
        assert(name =~= seq!['g']);
    }
    if name.len() == 2 && name[0] == 'g' && name[1] == 'b' {
        assert(name =~= seq!['g', 'b']);
    }
    if name.len() == 2 && name[0] == 'g' && name[1] == 'i' {
        assert(name =~= seq!['g', 'i']);
    }
    if name.len() == 3 && name[0] == 'g' && name[1] == 'i' && name[2] == 'b' {
        assert(name =~= seq!['g', 'i', 'b']);
    }
    if name.len() == 1 && name[0] == 't' {
        assert(name =~= seq!['t']);
    }
    if name.len() == 2 && name[0] == 't' && name[1] == 'b' {
        assert(name =~= seq!['t', 'b']);
    }
    if name.len() == 2 && name[0] == 't' && name[1] == 'i' {
        assert(name =~= seq!['t', 'i']);
    }
    if name.len() == 3 && name[0] == 't' && name[1] == 'i' && name[2] == 'b' {
        assert(name =~= seq!['t', 'i', 'b']);
    }
}

proof fn lemma_decimal_unit(unit: Seq<char>, k: nat)
    requires
        k <= 4,
        decimal_unit(unit, k),
    ensures
        encode_utf8(unit).len() > 0 ==> !is_digit(encode_utf8(unit)[0]),
        unit_size(encode_utf8(unit)) == Some(power(1000, k)),
{
    lemma_powers();
    lemma_unit_names();
    lemma_units(unit);
    if unit.len() == 0 {
        assert(encode_utf8(unit) =~= Seq::<u8>::empty());
    } else if k == 0 {
        lemma_no_digit(unit, seq!['b']);
    } else {
        let c = unit_letter(k)[0];
        assert(unit_letter(k) =~= seq![c]);
        assert(unit_letter(k) + "b"@ =~= seq![c, 'b']);
        if same_letters(unit, seq![c]) {
            lemma_no_digit(unit, seq![c]);
            lemma_one_unit(unit, seq![c]);
            lemma_differ(seq![c]);
        } else {
            lemma_no_digit(unit, seq![c, 'b']);
            lemma_one_unit(unit, seq![c, 'b']);
            lemma_differ(seq![c, 'b']);
        }
    }
}

proof fn lemma_binary_unit(unit: Seq<char>, k: nat)
    requires
        1 <= k <= 4,
        binary_unit(unit, k),
    ensures
        encode_utf8(unit).len() > 0,
        !is_digit(encode_utf8(unit)[0]),
        unit_size(encode_utf8(unit)) == Some(power(1024, k)),
{
    lemma_powers();
    lemma_unit_names();
    lemma_units(unit);
    let c = unit_letter(k)[0];
    assert(unit_letter(k) =~= seq![c]);
    assert(unit_letter(k) + "i"@ =~= seq![c, 'i']);
    assert(unit_letter(k) + "ib"@ =~= seq![c, 'i', 'b']);
    if same_letters(unit, seq![c, 'i']) {
        lemma_no_digit(unit, seq![c, 'i']);
        lemma_one_unit(unit, seq![c, 'i']);
        lemma_differ(seq![c, 'i']);
    } else {
        lemma_no_digit(unit, seq![c, 'i', 'b']);
        lemma_one_unit(unit, seq![c, 'i', 'b']);
        lemma_differ(seq![c, 'i', 'b']);
    }
}

/// A dashboard stays on the machine: where the checks pass, it is shown and
/// published at loopback addresses alone, and never at a socket of the proxy.
pub proof fn law_dashboard_stays_local(
    args: CommonArgs,
    proxy_port: nat,
    proxy_ips: Seq<IpAddress>,
)
    requires
        args.runtime_refusal() is None,
        args.dashboard_refusal(proxy_port, Some(proxy_ips)) is None,
    ensures
        args.tui_attach is Some ==> args.tui_attach->0.ip.loopback(),
        args.tui_listen is Some ==> {
            &&& args.tui_listen->0.ip.loopback()
            &&& args.tui_listen->0.port == proxy_port ==> !proxy_ips.contains(
                args.tui_listen->0.ip,
            )
        },
        !(args.tui_attach is Some && args.tui_listen is Some),
{
}

/// An override leaves what nothing asks for as it was: without arguments and
/// variables the configuration stays.
pub proof fn law_no_override_no_change(
    args: CommonArgs,
    vars: LegacyVars,
    before: Config,
    after: Config,
)
    requires
        args.overrides(vars, before, after),
        args.backend_selection is None,
        args.routing_mode is None,
        args.wanted_capacity(vars) is None,
        args.wanted_ttl(vars) is None,
        args.wanted_bodies(vars) is None,
        args.wanted_pipelining(vars) is None,
    ensures
        after == before,
{
}

/// What is asked for on the command line is in the configuration afterwards, and
/// goes before the older variables; what a section had besides stays.
pub proof fn law_arguments_win(args: CommonArgs, vars: LegacyVars, before: Config, after: Config)
    requires
        args.overrides(vars, before, after),
    ensures
        args.routing_mode is Some ==> after.routing.routing_mode == args.routing_mode->0,
        args.routing_mode is None ==> after.routing.routing_mode == before.routing.routing_mode,
        args.backend_selection is Some ==> after.routing.backend_selection
            == args.backend_selection->0,
        args.article_cache_capacity is Some ==> after.cache is Some && after.cache->0.max_capacity@
            == args.article_cache_capacity->0@,
        args.article_cache_ttl_secs is Some ==> after.cache is Some && after.cache->0.ttl@
            == args.article_cache_ttl_secs->0 * 1_000_000_000,
        args.store_article_bodies is Some ==> after.cache is Some
            && after.cache->0.store_article_bodies == args.store_article_bodies->0,
        before.cache is Some ==> after.cache is Some,
        before.cache is Some && args.wanted_capacity(vars) is None
            ==> after.cache->0.max_capacity@ == before.cache->0.max_capacity@,
        before.cache is Some && args.wanted_ttl(vars) is None ==> after.cache->0.ttl@
            == before.cache->0.ttl@,
        before.cache is Some && args.wanted_bodies(vars) is None
            ==> after.cache->0.store_article_bodies == before.cache->0.store_article_bodies,
        after.servers@.len() == before.servers@.len(),
        args.backend_pipelining is Some ==> forall|i: int|
            0 <= i < after.servers@.len() ==> (#[trigger] after.servers@[i]).backend_pipelining
                == args.backend_pipelining->0,
        forall|i: int|
            0 <= i < after.servers@.len() ==> (#[trigger] after.servers@[i]).host
                == before.servers@[i].host && after.servers@[i].port == before.servers@[i].port
                && after.servers@[i].max_connections == before.servers@[i].max_connections,
        after.proxy == before.proxy,
        after.client_auth == before.client_auth,
        after.health_check == before.health_check,
        after.routing.strategy == before.routing.strategy,
{
}

/// An older variable counts where its argument is not given: a capacity with a
/// unit, a lifetime in seconds, and `true` or `false` for the switches. Anything
/// else in it is as good as nothing.
pub proof fn law_older_variables(
    args: CommonArgs,
    vars: LegacyVars,
    before: Config,
    after: Config,
    n: nat,
)
    requires
        args.overrides(vars, before, after),
    ensures
        args.article_cache_capacity is None && vars.capacity is Some && capacity_of(
            encode_utf8(vars.capacity->0@),
        ) == Some(n) ==> after.cache is Some && after.cache->0.max_capacity@ == n,
        args.article_cache_ttl_secs is None && vars.ttl is Some && vars.ttl->0@ == decimal_text(n)
            && n <= u64::MAX ==> after.cache is Some && after.cache->0.ttl@ == n * 1_000_000_000,
        args.store_article_bodies is None && vars.articles is Some && vars.articles->0@ == seq![
            't',
            'r',
            'u',
            'e',
        ] ==> after.cache is Some && after.cache->0.store_article_bodies,
        args.store_article_bodies is None && vars.articles is Some && vars.articles->0@ == seq![
            'f',
            'a',
            'l',
            's',
            'e',
        ] ==> after.cache is Some && !after.cache->0.store_article_bodies,
        args.backend_pipelining is None && vars.pipelining is Some && vars.pipelining->0@ == seq![
            't',
            'r',
            'u',
            'e',
        ] ==> forall|i: int|
            0 <= i < after.servers@.len() ==> (#[trigger] after.servers@[i]).backend_pipelining,
        args.backend_pipelining is None && vars.pipelining is Some && vars.pipelining->0@ == seq![
            'f',
            'a',
            'l',
            's',
            'e',
        ] ==> forall|i: int|
            0 <= i < after.servers@.len() ==> !(#[trigger] after.servers@[i]).backend_pipelining,
{
    reveal_strlit("true");
    reveal_strlit("false");
    assert("true"@ =~= seq!['t', 'r', 'u', 'e']);
    assert("false"@ =~= seq!['f', 'a', 'l', 's', 'e']);
    lemma_number_text(n);
}

proof fn lemma_number_text(n: nat)
    ensures
        parse_decimal_spec(encode_utf8(decimal_text(n))) == Some(n),
{
    let d = decimal(n);
    crate::bytes::lemma_decimal_parts(n);
    crate::bytes::law_decimal_round_trip(n);
    assert forall|i: int| 0 <= i < d.len() implies #[trigger] d[i] < 0x80 by {
        assert(is_digit(d[i]));
    }
    lemma_encode_ascii_front(d, Seq::empty());
    assert(decimal_text(n) + Seq::<char>::empty() =~= decimal_text(n));
    assert(encode_utf8(Seq::<char>::empty()) =~= Seq::<u8>::empty());
    assert(encode_utf8(decimal_text(n)) =~= d);
}

/// A variable is a truth value only as `true` or `false`.
pub proof fn law_truth_variables(text: String)
    ensures
        text@ == seq!['t', 'r', 'u', 'e'] ==> truth_var(Some(text)) == Some(true),
        text@ == seq!['f', 'a', 'l', 's', 'e'] ==> truth_var(Some(text)) == Some(false),
        text@ != seq!['t', 'r', 'u', 'e'] && text@ != seq!['f', 'a', 'l', 's', 'e'] ==> truth_var(
            Some(text),
        ) is None,
{
    reveal_strlit("true");
    reveal_strlit("false");
    assert("true"@ =~= seq!['t', 'r', 'u', 'e']);
    assert("false"@ =~= seq!['f', 'a', 'l', 's', 'e']);
}

/// An IPv4 address is a loopback address exactly where its first part is 127, and
/// unspecified exactly where all of its parts are zero.
pub proof fn law_ipv4_addresses(a: u8, b: u8, c: u8, d: u8)
    ensures
        ({
            let ip = IpAddress::V4((a * 0x100_0000 + b * 0x1_0000 + c * 0x100 + d) as u32);
            &&& ip.loopback() == (a == 127)
            &&& ip.unspecified() == (a == 0 && b == 0 && c == 0 && d == 0)
        }),
{
    let bits = a * 0x100_0000 + b * 0x1_0000 + c * 0x100 + d;
    assert(bits / 0x100_0000 == a);
}

/// Which arguments on the dashboard go together: one that is shown from elsewhere
/// needs the dashboard, one that is published needs it not to be shown here, and
/// the older switch for no dashboard goes before the newer one.
pub proof fn law_dashboard_arguments(args: CommonArgs)
    ensures
        ({
            let shown = args.ui == UiMode::Tui && !args.no_tui;
            &&& args.tui_attach is None && args.tui_listen is None ==> args.runtime_refusal() is None
            &&& args.tui_attach is Some && !shown ==> args.runtime_refusal() == Some(
                ArgsError::AttachWithoutTui,
            )
            &&& args.tui_attach is None && args.tui_listen is Some ==> args.runtime_refusal() == (
            if shown {
                Some(ArgsError::ListenWithTui)
            } else {
                None
            })
            &&& args.tui_attach is Some && args.tui_listen is None && shown
                ==> args.runtime_refusal() == (if args.tui_attach->0.ip.loopback() {
                None
            } else {
                Some(ArgsError::AttachNotLoopback)
            })
        }),
{
}

/// A dashboard may be published at a loopback address where its port is not that
/// of the proxy, or no address of the proxy is the same or every one.
pub proof fn law_dashboard_may_be_published(
    args: CommonArgs,
    proxy_port: nat,
    proxy_ips: Seq<IpAddress>,
)
    requires
        args.tui_listen is Some,
        args.tui_listen->0.ip.loopback(),
        args.tui_listen->0.port != proxy_port || forall|i: int|
            0 <= i < proxy_ips.len() ==> #[trigger] proxy_ips[i] != args.tui_listen->0.ip
                && !proxy_ips[i].unspecified(),
    ensures
        args.dashboard_refusal(proxy_port, Some(proxy_ips)) is None,
        args.dashboard_refusal(proxy_port, None) is None,
{
}

/// A dashboard at the port of the proxy is refused where one of the addresses of
/// the proxy is the same, or stands for every address; one at an address of other
/// machines is refused at any port.
pub proof fn law_dashboard_conflicts(
    args: CommonArgs,
    proxy_port: nat,
    proxy_ips: Seq<IpAddress>,
    i: int,
)
    requires
        args.tui_listen is Some,
        0 <= i < proxy_ips.len(),
    ensures
        !args.tui_listen->0.ip.loopback() ==> args.dashboard_refusal(proxy_port, Some(proxy_ips))
            == Some(ArgsError::ListenNotLoopback),
        args.tui_listen->0.ip.loopback() && args.tui_listen->0.port == proxy_port && (proxy_ips[i]
            == args.tui_listen->0.ip || proxy_ips[i].unspecified()) ==> args.dashboard_refusal(
            proxy_port,
            Some(proxy_ips),
        ) == Some(ArgsError::ListenConflict),
{
    assert(ips_conflict(proxy_ips[i], args.tui_listen->0.ip) ==> some_conflict(
        proxy_ips,
        args.tui_listen->0.ip,
    ));
}

/// The port and the host of the arguments go before those of the configuration;
/// without them the proxy listens on every interface.
pub proof fn law_where_to_listen(args: CommonArgs, config_port: Option<Port>)
    ensures
        args.port is Some ==> args.port_or(config_port) == args.port,
        args.port is None ==> args.port_or(config_port) == config_port,
        args.host is Some ==> args.host_text() == args.host->0@,
        args.host is None ==> args.host_text() == seq!['0', '.', '0', '.', '0', '.', '0'],
{
    reveal_strlit("0.0.0.0");
    assert("0.0.0.0"@ =~= seq!['0', '.', '0', '.', '0', '.', '0']);
}

/// The words for refused arguments name the argument, and where an address is at
/// fault the address.
pub proof fn law_words_for_arguments(e: ArgsError, addr: Seq<char>, proxy: Seq<char>)
    ensures
        e.text(addr, proxy) == (match e {
            ArgsError::AttachWithoutTui => "--tui-attach"@ + " requires --ui tui"@,
            ArgsError::ListenWithTui => "--tui-listen"@ + " requires headless mode"@
                + "; use --ui headless"@,
            ArgsError::AttachWithListen => "--tui-attach"@ + " cannot be combined with "@
                + "--tui-listen"@,
            ArgsError::AttachNotLoopback => "--tui-attach"@ + seq![' '] + addr
                + " must connect to a loopback address"@ + "; use 127.0.0.1 or ::1"@,
            ArgsError::ListenNotLoopback => "--tui-listen"@ + seq![' '] + addr
                + " must bind to a loopback address"@ + "; use 127.0.0.1 or ::1"@,
            ArgsError::ListenConflict => "--tui-listen"@ + seq![' '] + addr + " conflicts with"@
                + " the proxy listener "@ + proxy + "; use a different port"@,
        }),
{
    reveal_strlit("--tui-attach");
    reveal_strlit(" requires --ui tui");
    reveal_strlit("--tui-attach requires --ui tui");
    reveal_strlit("--tui-listen");
    reveal_strlit(" requires headless mode");
    reveal_strlit("; use --ui headless");
    reveal_strlit("--tui-listen requires headless mode; use --ui headless");
    reveal_strlit(" cannot be combined with ");
    reveal_strlit("--tui-attach cannot be combined with --tui-listen");
    reveal_strlit("--tui-attach ");
    reveal_strlit(" must connect to a loopback address");
    reveal_strlit("; use 127.0.0.1 or ::1");
    reveal_strlit(" must connect to a loopback address; use 127.0.0.1 or ::1");
    reveal_strlit("--tui-listen ");
    reveal_strlit(" must bind to a loopback address");
    reveal_strlit(" must bind to a loopback address; use 127.0.0.1 or ::1");
    reveal_strlit(" conflicts with");
    reveal_strlit(" the proxy listener ");
    reveal_strlit(" conflicts with the proxy listener ");
    reveal_strlit("; use a different port");
}

} // verus!
