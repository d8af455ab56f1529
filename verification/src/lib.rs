//! The logic of the Zaphyl reverse proxy: routing, caching, access control,
//! rate limiting, configuration rules and the per-request decisions of the
//! HTTP/1, HTTP/2 and HTTP/3 front ends.
use vstd::prelude::*;

pub mod access;
pub mod acme;
pub mod cache;
pub mod challenge;
pub mod cli;
pub mod clock;
pub mod codec;
pub mod config;
pub mod consult;
pub mod encoding;
pub mod exchange;
pub mod filter;
pub mod front;
pub mod headers;
pub mod http3;
pub mod laws;
pub mod message;
pub mod metrics;
pub mod numeral;
pub mod order;
pub mod paths;
pub mod plugin;
pub mod proxy;
pub mod ratelimit;
pub mod relay;
pub mod router;
pub mod sample_filter;
pub mod setup;
pub mod sites;
pub mod static_files;
pub mod store;
pub mod text;
pub mod tls;
pub mod upstream;

verus! {

/// The version of this package.
pub fn version() -> (r: &'static str)
    ensures
        r@ == "1.0.2"@,
{
    "1.0.2"
}

/// The project name.
pub fn name() -> (r: &'static str)
    ensures
        r@ == "Zaphyl"@,
{
    "Zaphyl"
}

} // verus!
