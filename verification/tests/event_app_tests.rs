use zentop::app::{App, Config, DisplayMode, ViewMode};
use zentop::event::{handle_key, EventHandler, Key, KeyAction};
use zentop::stats::SystemStats;
use zentop::topology::ZenTopology;

#[test]
fn key_bindings() {
    assert_eq!(handle_key(Key::Char('q'), false), KeyAction::Quit);
    assert_eq!(handle_key(Key::Esc, false), KeyAction::Quit);
    assert_eq!(handle_key(Key::Char('c'), true), KeyAction::Quit);
    assert_eq!(handle_key(Key::Char('c'), false), KeyAction::ViewCore);
    assert_eq!(handle_key(Key::Char('d'), false), KeyAction::ViewCcd);
    assert_eq!(handle_key(Key::Char('n'), false), KeyAction::ViewNps);
    assert_eq!(handle_key(Key::Char('u'), false), KeyAction::ViewNuma);
    assert_eq!(handle_key(Key::Char('s'), false), KeyAction::ToggleSmt);
    assert_eq!(handle_key(Key::Char('m'), false), KeyAction::CycleDisplayMode);
    assert_eq!(handle_key(Key::Char('h'), false), KeyAction::ToggleHelp);
    assert_eq!(handle_key(Key::Char('?'), false), KeyAction::ToggleHelp);
    assert_eq!(handle_key(Key::Up, false), KeyAction::ScrollUp);
    assert_eq!(handle_key(Key::Char('k'), false), KeyAction::ScrollUp);
    assert_eq!(handle_key(Key::Down, false), KeyAction::ScrollDown);
    assert_eq!(handle_key(Key::Char('j'), false), KeyAction::ScrollDown);
    assert_eq!(handle_key(Key::Char('x'), false), KeyAction::Noop);
    assert_eq!(handle_key(Key::Other, false), KeyAction::Noop);
}

fn fresh_app() -> App {
    App::new(ZenTopology::default(), SystemStats::default())
}

#[test]
fn app_initial_state() {
    let app = fresh_app();
    assert_eq!(app.view_mode, ViewMode::Core);
    assert_eq!(app.display_mode, DisplayMode::Full);
    assert!(app.show_smt);
    assert!(!app.show_help);
    assert!(!app.should_quit);
    assert_eq!(app.scroll_offset, 0);
}

#[test]
fn display_mode_cycles() {
    let mut app = fresh_app();
    app.scroll_down();
    app.cycle_display_mode();
    assert_eq!(app.display_mode, DisplayMode::Compact);
    assert_eq!(app.scroll_offset, 0);
    app.cycle_display_mode();
    assert_eq!(app.display_mode, DisplayMode::Heatmap);
    app.cycle_display_mode();
    assert_eq!(app.display_mode, DisplayMode::Full);
}

#[test]
fn view_change_resets_scroll_only_on_change() {
    let mut app = fresh_app();
    app.scroll_down();
    app.scroll_down();
    assert_eq!(app.scroll_offset, 2);
    app.set_view_mode(ViewMode::Core);
    assert_eq!(app.scroll_offset, 2);
    app.set_view_mode(ViewMode::Numa);
    assert_eq!(app.view_mode, ViewMode::Numa);
    assert_eq!(app.scroll_offset, 0);
}

#[test]
fn smt_toggle_resets_scroll() {
    let mut app = fresh_app();
    app.scroll_down();
    app.toggle_smt();
    assert!(!app.show_smt);
    assert_eq!(app.scroll_offset, 0);
    app.toggle_smt();
    assert!(app.show_smt);
}

#[test]
fn scrolling_saturates_at_zero() {
    let mut app = fresh_app();
    app.scroll_up();
    assert_eq!(app.scroll_offset, 0);
    app.scroll_down();
    app.scroll_up();
    app.scroll_up();
    assert_eq!(app.scroll_offset, 0);
}

#[test]
fn help_and_quit() {
    let mut app = fresh_app();
    app.toggle_help();
    assert!(app.show_help);
    app.toggle_help();
    assert!(!app.show_help);
    app.quit();
    assert!(app.should_quit);
}

#[test]
fn refresh_replaces_snapshot() {
    let mut app = fresh_app();
    let snap = SystemStats::from_samples(&vec![(5000, 3000)], 9);
    app.refresh_stats(snap);
    assert_eq!(app.stats.timestamp_ms, 9);
    assert_eq!(app.stats.core_usages.len(), 1);
}

#[test]
fn config_default_refresh() {
    assert_eq!(Config::parse_args(None).refresh_rate, 1000);
    assert_eq!(Config::parse_args(Some(250)).refresh_rate, 250);
    assert_eq!(Config::default().refresh_rate, 1000);
}

#[test]
fn event_handler_keeps_tick_rate() {
    let h = EventHandler::new(500);
    assert_eq!(h.tick_rate_ms, 500);
}
