//! Automatically renice processes the moment they exec.
//!
//! Two kernel probes report every exec and fork over ring buffers; the daemon
//! matches each exec against a configuration and has the process's nice value
//! set. This crate holds what is decided along the way; the program around it
//! talks to the kernel, the file system and systemd.
//!
//! * [`probe`] — what the kernel probes read and submit;
//! * [`event`] — the records that they submit;
//! * [`daemon`] — which process gets which nice value;
//! * [`tree`] — which processes belong to a subtree;
//! * [`decisions`] — what one event calls for, in so many words;
//! * [`lineage`] — what those processes are, over a whole history;
//! * [`procfs`] — the parent of a process, from its `/proc` record;
//! * [`config`] — the rules, and which one decides for a path;
//! * [`schema`], [`document`] — the configuration file;
//! * [`install`], [`cli`] — the installation and the command line;
//! * [`text`] — searches in text.

pub mod cli;
pub mod config;
pub mod daemon;
pub mod decisions;
pub mod document;
pub mod event;
pub mod install;
pub mod lineage;
pub mod probe;
pub mod procfs;
pub mod schema;
pub mod text;
pub mod tree;
