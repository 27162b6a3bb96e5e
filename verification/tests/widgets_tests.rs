use zentop::widgets::{bar_filled, heatmap_glyph, usage_level, UsageLevel};

#[test]
fn bar_fill_exact() {
    assert_eq!(bar_filled(0, 20), 0);
    assert_eq!(bar_filled(10000, 20), 20);
    assert_eq!(bar_filled(5000, 10), 5);
    // 65.2% of 20 cells is 13.04, rounding to 13.
    assert_eq!(bar_filled(6520, 20), 13);
    // Half a cell rounds up: 2.5% of 20 cells is 0.5.
    assert_eq!(bar_filled(250, 20), 1);
    // Just below half a cell rounds down.
    assert_eq!(bar_filled(249, 20), 0);
    assert_eq!(bar_filled(10000, 3), 3);
    assert_eq!(bar_filled(3333, 3), 1);
}

#[test]
fn heatmap_glyph_staircase() {
    assert_eq!(heatmap_glyph(0), ' ');
    assert_eq!(heatmap_glyph(1249), ' ');
    assert_eq!(heatmap_glyph(1250), '\u{2581}');
    assert_eq!(heatmap_glyph(2499), '\u{2581}');
    assert_eq!(heatmap_glyph(2500), '\u{2582}');
    assert_eq!(heatmap_glyph(3750), '\u{2583}');
    assert_eq!(heatmap_glyph(5000), '\u{2584}');
    assert_eq!(heatmap_glyph(6250), '\u{2585}');
    assert_eq!(heatmap_glyph(7500), '\u{2586}');
    assert_eq!(heatmap_glyph(8749), '\u{2586}');
    assert_eq!(heatmap_glyph(8750), '\u{2588}');
    assert_eq!(heatmap_glyph(10000), '\u{2588}');
}

#[test]
fn usage_level_bands() {
    assert_eq!(usage_level(0), UsageLevel::Low);
    assert_eq!(usage_level(2499), UsageLevel::Low);
    assert_eq!(usage_level(2500), UsageLevel::Medium);
    assert_eq!(usage_level(4999), UsageLevel::Medium);
    assert_eq!(usage_level(5000), UsageLevel::High);
    assert_eq!(usage_level(7499), UsageLevel::High);
    assert_eq!(usage_level(7500), UsageLevel::Critical);
    assert_eq!(usage_level(10000), UsageLevel::Critical);
}
