//! Verified core of a small family of desktop tools: pickers over the local
//! network, Bluetooth devices, the audio graph and the clipboard history.

pub mod base;
pub mod bragi;
pub mod gorm;
pub mod heimdall;
pub mod hugin;
pub mod laws;
pub mod net;
pub mod number;
pub mod oui;
pub mod ranking;
pub mod sorting;
pub mod table;
pub mod text;
pub mod ui;
pub mod utf8;
