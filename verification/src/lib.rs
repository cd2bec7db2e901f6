//! The logic of a serf cluster node, as a machine without any I/O.

pub mod action;
pub mod buffers;
pub mod clock;
pub mod coalesce;
pub mod endpoint;
pub mod entropy;
pub mod event;
pub mod filter;
pub mod id;
pub mod members;
pub mod octets;
pub mod options;
pub mod pattern;
pub mod query;
pub mod time;
pub mod typed;
pub mod vecmap;
