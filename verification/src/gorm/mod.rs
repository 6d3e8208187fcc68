//! A manager of Bluetooth devices: what is known of each, the picker over them,
//! and the decisions of the engine that talks to BlueZ.

pub mod config;
pub mod device;
pub mod engine;
pub mod laws;
pub mod picker;
pub mod scan;
