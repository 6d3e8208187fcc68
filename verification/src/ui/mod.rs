//! What the pickers share: configuration primitives, the editing of the query
//! line, and the reading of highlight markers.

pub mod clock;
pub mod config;
pub mod editing;
pub mod highlight;
pub mod keys;
pub mod laws;
pub mod picker;
pub mod query;
