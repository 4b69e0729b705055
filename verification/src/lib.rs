//! Resolves unlabelled TV show directories to canonical catalog records and
//! extracts episode identifiers from inconsistent file names.
//!
//! The library holds the verified logic: the per-directory fingerprint and
//! the persisted marker that make reprocessing idempotent ([`fingerprint`],
//! [`marker`]); the catalog resolver's pure parts — status classification and
//! retry policy, pagination, candidate disambiguation ([`retry`], [`search`]);
//! the rule-based filename parser ([`episode`]); and the metadata rendering
//! ([`nfo`]). Network and file I/O stay with the caller, which hands plain
//! values in and takes plain values back.
pub mod episode;
pub mod fingerprint;
pub mod marker;
pub mod media;
pub mod models;
pub mod nfo;
pub mod retry;
pub mod search;
pub mod text;
