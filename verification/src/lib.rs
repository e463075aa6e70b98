//! Scheduling of uploads to remote object storage.
//!
//! A storage engine persists immutable layer files and a manifest that lists
//! them. The [`queue::UploadQueue`] accepts the pending changes, decides which
//! of them may be in flight together without the manifest ever naming a layer
//! that is absent, and tracks the dispatched work until it completes.
//!
//! - [`layer`], [`manifest`], [`operation`] and [`task`] hold the data: layers,
//!   manifest snapshots, the three kinds of operation with their conflicts,
//!   and tasks.
//! - [`model`] is the queue as a mathematical state machine, [`queue`] the
//!   executable queue that is specified by it.
//! - [`remote`] says what operations do to remote storage, and [`laws`] what
//!   holds of the queue whatever is asked of it.
//!
//! The other modules decide for the tools that stand around a server of such
//! timelines: the space on its filesystem ([`statvfs`]), the latencies of a
//! benchmark ([`request_stats`]), the timelines to work on ([`targets`]), the
//! statistics on a trace of page reads ([`page_trace`]), and the steps of
//! three benchmark commands ([`aux_files`], [`idle_streams`],
//! [`trigger_initial_size_calculation`]).

pub mod layer;
pub mod manifest;
pub mod operation;
pub mod task;
pub mod model;
pub mod queue;
pub mod remote;
pub mod laws;
pub mod statvfs;
pub mod request_stats;
pub mod targets;
pub mod aux_files;
pub mod idle_streams;
pub mod page_trace;
pub mod trigger_initial_size_calculation;
