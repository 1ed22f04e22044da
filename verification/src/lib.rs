use vstd::prelude::*;

pub mod args;
pub mod auth;
pub mod bits;
pub mod bytes;
pub mod cache;
pub mod client;
pub mod command;
pub mod compression;
pub mod config;
pub mod connection_error;
pub mod hash;
pub mod launch;
pub mod protocol;
pub mod text;
pub mod types;

verus! {

} // verus!
