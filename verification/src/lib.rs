//! The core of a broadcast relay for timestamped numeric samples.
//!
//! One producer feeds records in; every connected viewer gets each accepted
//! sample, in order, over its own socket connection. The crate holds the
//! decisions and the data structures of that relay as plain state machines:
//! whoever runs them owns the sockets, the threads and the clock, performs
//! the actions the relay asks for and hands the events back.
//!
//! - [`record`], [`data`], [`ingest`]: from a line of input to a sample.
//! - [`distribution`]: the bounded queue behind the producer.
//! - [`frame`], [`worker`]: one connection and what it reads and writes.
//! - [`hub`], [`relay`]: all connections together, and the fan-out.
//! - [`fault`], [`config`]: failures and their reach; what a relay is
//!   started with.
//! - [`assets`]: the endpoint for the viewer's files.
//! - [`ws`], [`chart`], [`plotly`]: the viewer's side: its link to the
//!   relay, the chart that collects what the link brings, and what the chart
//!   asks of the plotting library.

pub mod assets;
pub mod chart;
pub mod config;
pub mod data;
pub mod distribution;
pub mod fault;
pub mod frame;
pub mod hub;
pub mod ingest;
pub mod plotly;
pub mod record;
pub mod relay;
pub mod text;
pub mod worker;
pub mod ws;
