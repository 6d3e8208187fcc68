//! Configuration primitives: the palette, the layout, and what a tool makes of
//! its configuration file. Each tool has a configuration of its own.

use vstd::prelude::*;

verus! {

/// Where the prompt sits.
#[derive(Clone, Copy, Debug, PartialEq, Eq, Structural)]
pub enum Layout {
    Bottom,
    Top,
}

/// The named colours of a terminal.
#[derive(Clone, Copy, Debug, PartialEq, Eq, Structural)]
pub enum ColorName {
    Black,
    Red,
    Green,
    Yellow,
    Blue,
    Magenta,
    Cyan,
    White,
    Gray,
    DarkGray,
    LightRed,
    LightGreen,
    LightYellow,
    LightBlue,
    LightMagenta,
    LightCyan,
}

/// What became of a configuration file.
pub enum Loaded<T> {
    /// There is no place for one.
    NoPath,
    /// There is none.
    Missing,
    /// It could not be read.
    Unreadable,
    /// It is not understood.
    Malformed,
    Parsed(T),
}

/// The configuration that was read, or the default: a picker opens whatever
/// became of the file.
pub fn load_or_default<T: Default>(loaded: Loaded<T>) -> (c: T)
    ensures
        match loaded {
            Loaded::Parsed(t) => c == t,
            _ => call_ensures(T::default, (), c),
        },
{
    match loaded {
        Loaded::Parsed(t) => t,
        _ => T::default(),
    }
}

} // verus!
