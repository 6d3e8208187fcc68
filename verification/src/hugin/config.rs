//! The configuration of the picker. Everything in it is optional.

use vstd::prelude::*;
use crate::hugin::proto::SearchSort;
use crate::ui::config::{ColorName, Layout, Loaded};

verus! {

/// The configuration of the picker.
#[derive(Clone, Copy, Debug, PartialEq, Eq, Structural)]
pub struct Config {
    /// The order of the list at first.
    pub sort: SearchSort,
    /// How many rows are fetched at most.
    pub limit: usize,
    pub layout: Layout,
    /// Whether the content of the selected entry shows beside the list.
    pub preview: bool,
    pub colors: Colors,
}

/// The colours of the picker.
#[derive(Clone, Copy, Debug, PartialEq, Eq, Structural)]
pub struct Colors {
    pub selection_fg: ColorName,
    pub selection_bg: ColorName,
    pub match_fg: ColorName,
    pub prompt_fg: ColorName,
    pub status_fg: ColorName,
}

/// The colours where nothing else is configured.
pub open spec fn default_colors() -> Colors {
    Colors {
        selection_fg: ColorName::Black,
        selection_bg: ColorName::Cyan,
        match_fg: ColorName::Yellow,
        prompt_fg: ColorName::Green,
        status_fg: ColorName::Gray,
    }
}

/// The configuration where nothing else is configured.
pub open spec fn default_config() -> Config {
    Config {
        sort: SearchSort::Relevance,
        limit: 200,
        layout: Layout::Bottom,
        preview: true,
        colors: default_colors(),
    }
}

impl Default for Colors {
    fn default() -> (c: Colors)
        ensures
            c == default_colors(),
    {
        Colors {
            selection_fg: ColorName::Black,
            selection_bg: ColorName::Cyan,
            match_fg: ColorName::Yellow,
            prompt_fg: ColorName::Green,
            status_fg: ColorName::Gray,
        }
    }
}

impl Default for Config {
    fn default() -> (c: Config)
        ensures
            c == default_config(),
    {
        Config {
            sort: SearchSort::Relevance,
            limit: 200,
            layout: Layout::Bottom,
            preview: true,
            colors: Colors::default(),
        }
    }
}

/// The configuration that was read, or the default whatever became of the file.
pub fn load_or_default(loaded: Loaded<Config>) -> (c: Config)
    ensures
        c == match loaded {
            Loaded::Parsed(t) => t,
            _ => default_config(),
        },
{
    crate::ui::config::load_or_default(loaded)
}

} // verus!
