use vstd::prelude::*;

verus! {

/// The numeric cell contents of the bar widgets: how many cells of a bar
/// are filled, which block glyph a heatmap cell shows, and which intensity
/// band a usage value falls in. Drawing itself happens outside.

/// Filled cells of a bar of `width` cells at `usage_centi` hundredths of a
/// percent: the exact fraction rounded half-up, clamped to the width.
pub open spec fn bar_fill_of(usage_centi: int, width: int) -> int {
    let rounded = (usage_centi * width + 5000) / 10000;
    if rounded > width {
        width
    } else {
        rounded
    }
}

/// How many cells of a `width`-cell bar are filled at `usage_centi`.
pub fn bar_filled(usage_centi: u32, width: usize) -> (r: usize)
    requires
        usage_centi <= 10000,
        width <= 65535,
    ensures
        r == bar_fill_of(usage_centi as int, width as int),
        r <= width,
{
    proof {
        assert(usage_centi as int * width as int <= 10000 * 65535) by (nonlinear_arith)
            requires
                usage_centi <= 10000,
                0 <= width <= 65535,
        ;
        assert(usage_centi as int * width as int <= 10000 * width as int) by (nonlinear_arith)
            requires
                usage_centi <= 10000,
                width >= 0,
        ;
        vstd::arithmetic::div_mod::lemma_div_is_ordered(
            usage_centi as int * width as int + 5000,
            10000 * width as int + 5000,
            10000,
        );
        vstd::arithmetic::div_mod::lemma_fundamental_div_mod_converse(
            10000 * width as int + 5000,
            10000,
            width as int,
            5000,
        );
        vstd::arithmetic::div_mod::lemma_div_pos_is_pos(
            usage_centi as int * width as int + 5000,
            10000,
        );
    }
    let exact = (usage_centi as u64) * (width as u64);
    let rounded = ((exact + 5000) / 10000) as usize;
    if rounded > width {
        width
    } else {
        rounded
    }
}

/// The eight-step heatmap staircase on eighths of the glyph height: below
/// 12.5% an empty cell, then one lower-block glyph per 12.5% band, full
/// from 87.5% up.
pub open spec fn heat_glyph_of(usage_centi: int) -> char {
    if usage_centi < 1250 {
        ' '
    } else if usage_centi < 2500 {
        '\u{2581}'
    } else if usage_centi < 3750 {
        '\u{2582}'
    } else if usage_centi < 5000 {
        '\u{2583}'
    } else if usage_centi < 6250 {
        '\u{2584}'
    } else if usage_centi < 7500 {
        '\u{2585}'
    } else if usage_centi < 8750 {
        '\u{2586}'
    } else {
        '\u{2588}'
    }
}

/// The block glyph of a heatmap cell at `usage_centi`.
pub fn heatmap_glyph(usage_centi: u32) -> (c: char)
    ensures
        c == heat_glyph_of(usage_centi as int),
{
    if usage_centi < 1250 {
        ' '
    } else if usage_centi < 2500 {
        '\u{2581}'
    } else if usage_centi < 3750 {
        '\u{2582}'
    } else if usage_centi < 5000 {
        '\u{2583}'
    } else if usage_centi < 6250 {
        '\u{2584}'
    } else if usage_centi < 7500 {
        '\u{2585}'
    } else if usage_centi < 8750 {
        '\u{2586}'
    } else {
        '\u{2588}'
    }
}

/// The intensity band a usage value falls in, at quarters of the range.
#[derive(Debug, Clone, Copy, PartialEq, Eq, Structural)]
pub enum UsageLevel {
    Low,
    Medium,
    High,
    Critical,
}

pub open spec fn usage_level_of(usage_centi: int) -> UsageLevel {
    if usage_centi < 2500 {
        UsageLevel::Low
    } else if usage_centi < 5000 {
        UsageLevel::Medium
    } else if usage_centi < 7500 {
        UsageLevel::High
    } else {
        UsageLevel::Critical
    }
}

/// The intensity band of `usage_centi`: below 25% low, below 50% medium,
/// below 75% high, critical from there. The theme maps bands to colors.
pub fn usage_level(usage_centi: u32) -> (r: UsageLevel)
    ensures
        r == usage_level_of(usage_centi as int),
{
    if usage_centi < 2500 {
        UsageLevel::Low
    } else if usage_centi < 5000 {
        UsageLevel::Medium
    } else if usage_centi < 7500 {
        UsageLevel::High
    } else {
        UsageLevel::Critical
    }
}

} // verus!
