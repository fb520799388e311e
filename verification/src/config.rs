//! The layout and key settings of the interface.

use vstd::prelude::*;

verus! {

/// How the panels are laid out.
#[derive(Debug, Clone, Copy, PartialEq, Eq, Structural)]
pub struct LayoutConfig {
    /// The width of the left column, in percent of the screen.
    pub left_panel_width: u16,
    /// The height of the file navigator, in percent of the left column.
    pub file_navigator_height: u16,
    pub show_line_numbers: bool,
    pub tab_size: usize,
}

impl Default for LayoutConfig {
    /// A left column of 35%, split in half, with line numbers and tabs of
    /// four columns.
    fn default() -> (r: Self)
        ensures
            r == (LayoutConfig { left_panel_width: 35, file_navigator_height: 50, show_line_numbers: true, tab_size: 4 }),
    {
        LayoutConfig { left_panel_width: 35, file_navigator_height: 50, show_line_numbers: true, tab_size: 4 }
    }
}

/// The keys of the main commands.
#[derive(Debug, Clone, Copy, PartialEq, Eq, Structural)]
pub struct KeybindingConfig {
    pub quit: char,
    pub next_panel: char,
    pub previous_change: char,
    pub next_change: char,
    pub toggle_diff: char,
    pub search: char,
    pub goto_top: char,
    pub goto_bottom: char,
}

impl Default for KeybindingConfig {
    /// `q` quits, Tab moves to the next panel, `p` and `n` go to the
    /// previous and next change, `d` toggles the diff, `/` searches, `g` and
    /// `G` go to the top and the bottom.
    fn default() -> (r: Self)
        ensures
            r == (KeybindingConfig {
                quit: 'q',
                next_panel: '\t',
                previous_change: 'p',
                next_change: 'n',
                toggle_diff: 'd',
                search: '/',
                goto_top: 'g',
                goto_bottom: 'G',
            }),
    {
        KeybindingConfig {
            quit: 'q',
            next_panel: '\t',
            previous_change: 'p',
            next_change: 'n',
            toggle_diff: 'd',
            search: '/',
            goto_top: 'g',
            goto_bottom: 'G',
        }
    }
}

} // verus!
