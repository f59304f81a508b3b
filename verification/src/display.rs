//! How sizes and entries are shown.
use vstd::prelude::*;

verus! {

/// Display switches for the filesystem listing.
#[derive(Clone, Copy, Debug, PartialEq, Eq, Structural)]
pub struct DisplayOptions {
    pub use_si: bool,
    pub prefer_disk: bool,
    pub show_hidden: bool,
    pub show_item_count: bool,
    pub show_mtime: bool,
    pub show_percent: bool,
    pub show_graph: bool,
}

/// The default display: binary units, apparent sizes, hidden entries hidden,
/// no item counts or times, percentages and bar graphs shown.
pub open spec fn default_display() -> DisplayOptions {
    DisplayOptions {
        use_si: false,
        prefer_disk: false,
        show_hidden: false,
        show_item_count: false,
        show_mtime: false,
        show_percent: true,
        show_graph: true,
    }
}

impl Default for DisplayOptions {
    fn default() -> (r: Self)
        ensures
            r == default_display(),
    {
        DisplayOptions {
            use_si: false,
            prefer_disk: false,
            show_hidden: false,
            show_item_count: false,
            show_mtime: false,
            show_percent: true,
            show_graph: true,
        }
    }
}

} // verus!
