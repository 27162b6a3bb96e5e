use vstd::prelude::*;
use crate::stats::SystemStats;
use crate::topology::ZenTopology;

verus! {

/// Which grouping dimension the dashboard shows.
#[derive(Debug, Clone, Copy, PartialEq, Eq, Structural)]
pub enum ViewMode {
    Core,
    Ccd,
    Nps,
    Numa,
}

/// Rendering density.
#[derive(Debug, Clone, Copy, PartialEq, Eq, Structural)]
pub enum DisplayMode {
    /// One core per line, numeric bar and percentage.
    Full,
    /// Multi-column grid of short bars.
    Compact,
    /// Ultra-dense single-glyph cells.
    Heatmap,
}

impl Default for DisplayMode {
    fn default() -> (r: Self)
        ensures
            r == DisplayMode::Full,
    {
        DisplayMode::Full
    }
}

/// The dashboard's state: the topology (built once), the latest snapshot,
/// and the view settings the key handler mutates. Sampling itself happens
/// outside; a refresh hands the new snapshot in.
pub struct App {
    pub topology: ZenTopology,
    pub stats: SystemStats,
    pub view_mode: ViewMode,
    pub display_mode: DisplayMode,
    pub show_smt: bool,
    pub show_help: bool,
    pub should_quit: bool,
    pub scroll_offset: usize,
}

impl App {
    /// Fresh state over a topology and its first snapshot: core view, full
    /// density, SMT shown, no help, not quitting, unscrolled.
    pub fn new(topology: ZenTopology, stats: SystemStats) -> (r: App)
        ensures
            r.topology == topology,
            r.stats == stats,
            r.view_mode == ViewMode::Core,
            r.display_mode == DisplayMode::Full,
            r.show_smt,
            !r.show_help,
            !r.should_quit,
            r.scroll_offset == 0,
    {
        App {
            topology,
            stats,
            view_mode: ViewMode::Core,
            display_mode: DisplayMode::default(),
            show_smt: true,
            show_help: false,
            should_quit: false,
            scroll_offset: 0,
        }
    }

    /// Cycle the density: Full, Compact, Heatmap, and back. Resets scroll.
    pub fn cycle_display_mode(&mut self)
        ensures
            final(self).display_mode == match old(self).display_mode {
                DisplayMode::Full => DisplayMode::Compact,
                DisplayMode::Compact => DisplayMode::Heatmap,
                DisplayMode::Heatmap => DisplayMode::Full,
            },
            final(self).scroll_offset == 0,
            *final(self) == (App {
                display_mode: final(self).display_mode,
                scroll_offset: 0,
                ..*old(self)
            }),
    {
        self.display_mode = match self.display_mode {
            DisplayMode::Full => DisplayMode::Compact,
            DisplayMode::Compact => DisplayMode::Heatmap,
            DisplayMode::Heatmap => DisplayMode::Full,
        };
        self.scroll_offset = 0;
    }

    /// Replace the snapshot with a freshly sampled one, atomically.
    pub fn refresh_stats(&mut self, stats: SystemStats)
        ensures
            *final(self) == (App { stats, ..*old(self) }),
    {
        self.stats = stats;
    }

    /// Switch the view; scroll resets only on an actual change.
    pub fn set_view_mode(&mut self, mode: ViewMode)
        ensures
            old(self).view_mode == mode ==> *final(self) == *old(self),
            old(self).view_mode != mode ==> *final(self) == (App {
                view_mode: mode,
                scroll_offset: 0,
                ..*old(self)
            }),
    {
        if self.view_mode != mode {
            self.view_mode = mode;
            self.scroll_offset = 0;
        }
    }

    /// Toggle between all threads and physical cores only. Resets scroll.
    pub fn toggle_smt(&mut self)
        ensures
            *final(self) == (App {
                show_smt: !old(self).show_smt,
                scroll_offset: 0,
                ..*old(self)
            }),
    {
        self.show_smt = !self.show_smt;
        self.scroll_offset = 0;
    }

    /// Toggle the help overlay.
    pub fn toggle_help(&mut self)
        ensures
            *final(self) == (App { show_help: !old(self).show_help, ..*old(self) }),
    {
        self.show_help = !self.show_help;
    }

    /// Scroll one line up, stopping at the top.
    pub fn scroll_up(&mut self)
        ensures
            *final(self) == (App {
                scroll_offset: if old(self).scroll_offset > 0 {
                    (old(self).scroll_offset - 1) as usize
                } else {
                    0
                },
                ..*old(self)
            }),
    {
        self.scroll_offset = self.scroll_offset.saturating_sub(1);
    }

    /// Scroll one line down, saturating at the integer limit; the layout
    /// clamps the effective value to the content.
    pub fn scroll_down(&mut self)
        ensures
            *final(self) == (App {
                scroll_offset: if old(self).scroll_offset < usize::MAX {
                    (old(self).scroll_offset + 1) as usize
                } else {
                    usize::MAX
                },
                ..*old(self)
            }),
    {
        self.scroll_offset = self.scroll_offset.saturating_add(1);
    }

    /// Request quitting the control loop.
    pub fn quit(&mut self)
        ensures
            *final(self) == (App { should_quit: true, ..*old(self) }),
    {
        self.should_quit = true;
    }
}

/// The one configured scalar: the refresh interval in milliseconds.
#[derive(Debug, Clone, Copy, PartialEq, Eq, Structural)]
pub struct Config {
    pub refresh_rate: u64,
}

impl Config {
    /// Apply the default to an optionally given refresh rate, as argument
    /// parsing does for an absent flag.
    pub fn parse_args(refresh_rate: Option<u64>) -> (r: Config)
        ensures
            r.refresh_rate == match refresh_rate {
                Option::Some(ms) => ms,
                Option::None => 1000u64,
            },
    {
        match refresh_rate {
            Option::Some(ms) => Config { refresh_rate: ms },
            Option::None => Config::default(),
        }
    }
}

impl Default for Config {
    fn default() -> (r: Self)
        ensures
            r.refresh_rate == 1000,
    {
        Config { refresh_rate: 1000 }
    }
}

} // verus!
