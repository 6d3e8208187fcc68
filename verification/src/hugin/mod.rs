//! The clipboard history: what is captured and stored, the protocol of the
//! daemon, the command line and the picker.

pub mod capture;
pub mod cli;
pub mod config;
pub mod digest;
pub mod format;
pub mod ipc;
pub mod laws;
pub mod picker;
pub mod proto;
pub mod search;
pub mod storage;
pub mod wayland;
