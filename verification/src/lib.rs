//! The core of a download server: a queue of jobs that runs a bounded number
//! of downloads at once, the reading of what a download run prints, an index
//! of the downloaded files, and the state of the sync that copies them away.
//!
//! The library decides and keeps state; it starts no process and touches no
//! file. Whoever drives it hands in what the store, the file system and the
//! processes have said, and carries out what the library hands back.
//!
//! - [`queue`] holds the pending and the running jobs.
//! - [`sync`] keeps the state of the cloud sync.
//! - [`guarantees`] states what holds of the queue over any course of events.
//! - [`runner`] reads the output of a download run and settles its outcome.
//! - [`storage`] indexes the files under the data root.
//! - [`db`] describes a job and the steps of its life.
//! - [`cleanup`], [`routes`] and [`config`] hold the rules of the periodic
//!   maintenance, of the HTTP interface and of the settings.
//! - [`text`], [`clock`] and [`registry`] are what the others stand on.

pub mod cleanup;
pub mod clock;
pub mod config;
pub mod db;
pub mod guarantees;
pub mod queue;
pub mod registry;
pub mod routes;
pub mod runner;
pub mod storage;
pub mod sync;
pub mod text;
