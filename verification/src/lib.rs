//! Core of a message-trigger runtime: subject routing, an in-process broker
//! with topic fan-out and queue-group round-robin, dispatch defaulting, and
//! the request/response correlator.

pub mod channel;
pub mod codec;
pub mod configs;
pub mod dispatch;
pub mod errors;
pub mod gateway;
pub mod http;
pub mod in_memory_broker;
pub mod matcher;
pub mod messages;
pub mod strutil;
pub mod subjects;
