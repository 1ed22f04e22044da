//! Article caching: availability facts, stored payloads, lifetimes and their
//! persistent forms.
pub mod article;
pub mod availability;
pub mod availability_identity;
pub mod availability_index;
pub mod availability_snapshot;
pub mod entry_helpers;
pub mod filter;
pub mod hybrid;
pub mod hybrid_codec;
pub mod ingest;
pub mod lasting;
pub mod location;
pub mod partitions;
pub mod payload;
pub mod restoring;
pub mod session;
pub mod ttl;
