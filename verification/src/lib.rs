//! Core of a pluggable data-pipeline host.
//!
//! Stages (sources, transformations, destinations, listeners) are wired into
//! one streaming pipeline inside one process, each stage with a worker of its
//! own. This library is what keeps that coherent:
//!
//! - [`record`]: the record that stages exchange, and [`wire`], the form in
//!   which it crosses a boundary;
//! - [`params`]: the string-to-string parameters of a stage;
//! - [`stage`] and [`registry`]: stage configurations and the table that
//!   stores them by handle;
//! - [`channel`]: one inbound queue for each stage that is fed by others;
//! - [`runner`]: the worker of one stage, as a state machine;
//! - [`pipeline`]: all of the above behind the operations of the host:
//!   configure, connect, start, deliver, process, terminate.
//!
//! Beside these stand the decisions of the stock stages: [`kafka`],
//! [`stdio`], [`destination_stdout`], [`http`], [`lua`], [`python`],
//! [`transform_python`] and [`metrics`]; [`script`], what the scripted ones
//! share; and [`text`], the string helpers of them all.
//!
//! Nothing here reads, sends, waits or runs a thread. Every value is owned
//! by who holds it; a pipeline that several workers share is put behind a
//! lock by whoever shares it, and the lock is held for one operation at a
//! time.

pub mod channel;
pub mod destination_stdout;
pub mod http;
pub mod kafka;
pub mod lua;
pub mod metrics;
pub mod params;
pub mod pipeline;
pub mod python;
pub mod record;
pub mod registry;
pub mod runner;
pub mod script;
pub mod stage;
pub mod stdio;
pub mod text;
pub mod transform_python;
pub mod wire;
