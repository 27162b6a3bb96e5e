use vstd::prelude::*;

verus! {

/// A keyboard key, reduced to what the dashboard reacts to. The terminal
/// adapter translates its own key events into this shape.
#[derive(Debug, Clone, Copy, PartialEq, Eq, Structural)]
pub enum Key {
    Char(char),
    Esc,
    Up,
    Down,
    Other,
}

/// What a key press asks the dashboard to do.
#[derive(Debug, Clone, Copy, PartialEq, Eq, Structural)]
pub enum KeyAction {
    Quit,
    ViewCore,
    ViewCcd,
    ViewNps,
    ViewNuma,
    ToggleSmt,
    ToggleHelp,
    CycleDisplayMode,
    ScrollUp,
    ScrollDown,
    Noop,
}

/// The key binding table.
pub open spec fn action_of_key(key: Key, ctrl: bool) -> KeyAction {
    match key {
        Key::Esc => KeyAction::Quit,
        Key::Up => KeyAction::ScrollUp,
        Key::Down => KeyAction::ScrollDown,
        Key::Char(c) => if c == 'q' || (c == 'c' && ctrl) {
            KeyAction::Quit
        } else if c == 'c' {
            KeyAction::ViewCore
        } else if c == 'd' {
            KeyAction::ViewCcd
        } else if c == 'n' {
            KeyAction::ViewNps
        } else if c == 'u' {
            KeyAction::ViewNuma
        } else if c == 's' {
            KeyAction::ToggleSmt
        } else if c == 'm' {
            KeyAction::CycleDisplayMode
        } else if c == 'h' || c == '?' {
            KeyAction::ToggleHelp
        } else if c == 'k' {
            KeyAction::ScrollUp
        } else if c == 'j' {
            KeyAction::ScrollDown
        } else {
            KeyAction::Noop
        },
        Key::Other => KeyAction::Noop,
    }
}

/// Map a key press (with the control-modifier flag) to its action.
pub fn handle_key(key: Key, ctrl: bool) -> (r: KeyAction)
    ensures
        r == action_of_key(key, ctrl),
{
    match key {
        Key::Esc => KeyAction::Quit,
        Key::Up => KeyAction::ScrollUp,
        Key::Down => KeyAction::ScrollDown,
        Key::Char(c) => {
            if c == 'q' || (c == 'c' && ctrl) {
                KeyAction::Quit
            } else if c == 'c' {
                KeyAction::ViewCore
            } else if c == 'd' {
                KeyAction::ViewCcd
            } else if c == 'n' {
                KeyAction::ViewNps
            } else if c == 'u' {
                KeyAction::ViewNuma
            } else if c == 's' {
                KeyAction::ToggleSmt
            } else if c == 'm' {
                KeyAction::CycleDisplayMode
            } else if c == 'h' || c == '?' {
                KeyAction::ToggleHelp
            } else if c == 'k' {
                KeyAction::ScrollUp
            } else if c == 'j' {
                KeyAction::ScrollDown
            } else {
                KeyAction::Noop
            }
        },
        Key::Other => KeyAction::Noop,
    }
}

/// The poll timeout between refreshes. The terminal adapter does the
/// blocking wait; this only carries the configured interval.
#[derive(Debug, Clone, Copy, PartialEq, Eq, Structural)]
pub struct EventHandler {
    pub tick_rate_ms: u64,
}

impl EventHandler {
    pub fn new(tick_rate_ms: u64) -> (r: EventHandler)
        ensures
            r.tick_rate_ms == tick_rate_ms,
    {
        EventHandler { tick_rate_ms }
    }
}

} // verus!
