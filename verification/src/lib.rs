//! Process classification and latency management for a Linux desktop.
//!
//! The decisions of the daemon live here: which rule a process falls under,
//! which cgroup tier it is put in, when a parent is forking too fast, which
//! process tree is in the foreground, and what has to be undone at shutdown.
//! Every function is a computation on plain values; reading `/proc`, writing
//! `/sys/fs/cgroup` and serving the control socket is left to the program
//! around the library.

pub mod text;
pub mod path;
pub mod cgroupv2;
pub mod info;
pub mod scan;
pub mod netlink;
pub mod rules;
pub mod pids;
pub mod process_table;
pub mod applier;
pub mod focus;
pub mod forkbomb;
pub mod psi;
pub mod sched;
pub mod init;
pub mod config;
pub mod control;
pub mod event;
pub mod dbus;
pub mod setup;
pub mod diag;
pub mod cli;
pub mod daemon;
