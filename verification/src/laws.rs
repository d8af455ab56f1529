//! What the operations of the proxy do, stated over what goes in and what comes
//! out: which route and target a request gets, what is sent upstream and to the
//! client, what the cache keeps and serves, and what a configuration becomes.

pub mod caching;
pub mod certificates;
pub mod clients;
pub mod codings;
pub mod commands;
pub mod exchanges;
pub mod files;
pub mod filters;
pub mod formats;
pub mod forwarding;
pub mod headers;
pub mod plugins;
pub mod relaying;
pub mod requests;
pub mod routing;
pub mod settings;
pub mod sites;
pub mod storing;
pub mod texts;
pub mod validity;
