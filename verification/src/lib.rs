//! A directory watcher that restarts a supervised process when the watched
//! tree changes.
//!
//! The crate holds the decisions of the three workers (the snapshot poller,
//! the supervised-process loop and the change reactor) as verified functions
//! on plain values. Reading directories, spawning processes, signalling them
//! and moving messages between threads is left to the program around it.

pub mod command;
pub mod errors;
pub mod event;
pub mod fswatch;
pub mod handshake;
pub mod options;
pub mod signals;
pub mod snapshot;
pub mod text;
pub mod tree;
