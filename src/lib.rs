//! Persistent configuration store, service-list validation and global
//! hotkey planning for a screenshot translation tool.
//!
//! Everything here works on in-memory values: reading and writing the
//! backing file and talking to the OS shortcut facility happen around it.

pub mod cmd;
pub mod config;
pub mod hotkey;
pub mod service;
pub mod text;
