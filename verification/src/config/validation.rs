//! Checks on a loaded configuration.
use crate::config::defaults::{MAX_RECOMMENDED_KEEPALIVE_SECS, MIN_RECOMMENDED_KEEPALIVE_SECS};
use crate::config::types::{Config, Server};
use crate::types::Duration;
use vstd::prelude::*;

verus! {

/// Why a configuration was refused.
#[derive(Clone, Copy, Debug, PartialEq, Eq, Structural)]
pub enum ConfigError {
    /// No server is configured.
    NoServers,
}

impl ConfigError {
    pub fn message(&self) -> (r: &'static str)
        ensures
            r@ == "Configuration must have at least one server"@,
    {
        "Configuration must have at least one server"
    }
}

/// A keep-alive interval outside the recommended range.
#[derive(Clone, Copy, Debug, PartialEq, Eq, Structural)]
pub enum KeepaliveWarning {
    /// Health checks would be too frequent.
    TooShort,
    /// Stale connections would be found too late.
    TooLong,
}

/// The remark that a keep-alive interval, in nanoseconds, calls for.
pub open spec fn keepalive_warning_spec(keepalive: Option<nat>) -> Option<KeepaliveWarning> {
    match keepalive {
        Some(k) => if k < MIN_RECOMMENDED_KEEPALIVE_SECS * 1_000_000_000 {
            Some(KeepaliveWarning::TooShort)
        } else if k > MAX_RECOMMENDED_KEEPALIVE_SECS * 1_000_000_000 {
            Some(KeepaliveWarning::TooLong)
        } else {
            None
        },
        None => None,
    }
}

pub fn min_recommended_keepalive() -> (r: Duration)
    ensures
        r@ == MIN_RECOMMENDED_KEEPALIVE_SECS * 1_000_000_000,
{
    Duration::from_secs(MIN_RECOMMENDED_KEEPALIVE_SECS)
}

pub fn max_recommended_keepalive() -> (r: Duration)
    ensures
        r@ == MAX_RECOMMENDED_KEEPALIVE_SECS * 1_000_000_000,
{
    Duration::from_secs(MAX_RECOMMENDED_KEEPALIVE_SECS)
}

/// The remark that the keep-alive interval of a server calls for.
pub fn keepalive_warning(server: &Server) -> (r: Option<KeepaliveWarning>)
    ensures
        r == keepalive_warning_spec(
            match server.connection_keepalive {
                Some(d) => Some(d@),
                None => None,
            },
        ),
{
    match server.connection_keepalive {
        Some(keepalive) => {
            if keepalive.shorter_than(min_recommended_keepalive()) {
                Some(KeepaliveWarning::TooShort)
            } else if max_recommended_keepalive().shorter_than(keepalive) {
                Some(KeepaliveWarning::TooLong)
            } else {
                None
            }
        },
        None => None,
    }
}

/// Checks one server. A keep-alive interval outside the recommended range is
/// worth a remark and no more, and the other fields cannot hold a bad value.
pub fn validate_server(server: &Server) -> (r: Result<Option<KeepaliveWarning>, ConfigError>)
    ensures
        r == Ok::<Option<KeepaliveWarning>, ConfigError>(
            keepalive_warning_spec(
                match server.connection_keepalive {
                    Some(d) => Some(d@),
                    None => None,
                },
            ),
        ),
{
    Ok(keepalive_warning(server))
}

impl Config {
    /// Checks the configuration: it must name at least one server.
    pub fn validate(&self) -> (r: Result<(), ConfigError>)
        ensures
            match r {
                Ok(_) => self.servers@.len() > 0,
                Err(e) => self.servers@.len() == 0 && e == ConfigError::NoServers,
            },
    {
        if self.servers.len() == 0 {
            return Err(ConfigError::NoServers);
        }
        for i in 0..self.servers.len() {
            match validate_server(&self.servers[i]) {
                Ok(_) => {},
                Err(e) => {
                    return Err(e);
                },
            }
        }
        Ok(())
    }
}

/// A keep-alive interval is remarked on exactly where it is under 30 seconds or
/// over 300.
pub proof fn law_recommended_keepalive(nanos: nat)
    ensures
        keepalive_warning_spec(Some(nanos)) == (if nanos < 30 * 1_000_000_000 {
            Some(KeepaliveWarning::TooShort)
        } else if nanos > 300 * 1_000_000_000 {
            Some(KeepaliveWarning::TooLong)
        } else {
            None
        }),
        keepalive_warning_spec(None) is None,
{
}

} // verus!
