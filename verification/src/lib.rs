//! Verified core of a LAN mail relay.
pub mod config;
pub mod dispatcher;
pub mod env;
pub mod error;
pub mod http;
pub mod id;
pub mod ingress;
pub mod logging;
pub mod manifest;
pub mod message;
pub mod plugins;
pub mod queue;
pub mod retry;
pub mod routing;
pub mod script;
pub mod smtp;
pub mod startup;
pub mod storage;
pub mod table;
pub mod text;
pub mod time;
pub mod whitelist;
