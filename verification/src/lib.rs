//! Detection of changes of a host's routed IPv6 prefix, and the webhook
//! requests that follow from a change.
//!
//! The crate holds the decisions of the pipeline: which kernel address
//! records count, when a prefix has changed, which address each task gets,
//! and what is sent for it. Sockets, timers and HTTP are the caller's.

pub mod address;
pub mod text;
pub mod literal;
pub mod notation;
pub mod roundtrip;
pub mod combine;
pub mod frames;
pub mod kernel;
pub mod record;
pub mod detector;
pub mod monitor;
pub mod config;
pub mod template;
pub mod webhook;
pub mod dispatch;
pub mod trigger;
pub mod logging;
pub mod api;
pub mod interface;
pub mod assets;
