//! Settings that the library reads.

use vstd::prelude::*;

verus! {

/// The directories into which files are linked.
#[derive(Debug)]
pub struct DirConfig {
    pub movies: String,
    pub shows: String,
    pub other: String,
}

/// How the TVDB service is used.
#[derive(Debug)]
pub struct TvdbConfig {
    pub tvdb_api_key: String,
    /// How often each request is tried at most; one means no retry.
    pub retry_attempts: u32,
}

/// How the Transmission daemon is used.
#[derive(Debug)]
pub struct TransmissionConfig {
    pub username: Option<String>,
    pub password: Option<String>,
    /// How often each request is tried at most; one means no retry.
    pub transmission_retry_attempts: u32,
}

} // verus!
