//! Core of a hot-swappable dataflow runtime.
//!
//! Independent signal-processing blocks are wired into a directed flowgraph,
//! exchange fixed-type sample streams through bounded single-producer /
//! single-consumer buffers, and exchange dynamically typed message values
//! through named ports.  A flowgraph is built up mutably, frozen by `start`,
//! and driven by one cooperative task per block; a supervisor can replace the
//! whole running graph with a newly built one while the hosting process keeps
//! running.
//!
//! This crate holds the verified heart of that runtime: the message value
//! type and its wire format, the flowgraph construction and freeze-time
//! validation, the stream buffer, the bounded mailbox, the per-block task
//! model, the declarative loader, and the hot-swap supervisor.  Everything
//! that must touch the operating system (threads, sockets, timers) lives
//! outside and drives these components through their public functions.

pub mod pmt;
pub mod wire;
pub mod kernel;
pub mod flowgraph;
pub mod ring;
pub mod mailbox;
pub mod runtime;
pub mod textfmt;
pub mod loader;
pub mod supervisor;
