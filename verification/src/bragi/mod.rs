//! Control of the audio graph: its nodes and links, the picker over them, and
//! the decisions of the engine that talks to PipeWire.

pub mod config;
pub mod dump;
pub mod engine;
pub mod graph;
pub mod laws;
pub mod picker;
pub mod state;
