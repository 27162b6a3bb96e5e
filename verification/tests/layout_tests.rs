use zentop::app::DisplayMode;
use zentop::layout::{
    clamp_scroll, centered_rect, layout_rows, row_cells, ruler_marks, socket_areas, GridLayout,
    LineContent, Rect,
};
use zentop::stats::{CoreUsage, GroupUsage};

fn area(x: u16, y: u16, width: u16, height: u16) -> Rect {
    Rect { x, y, width, height }
}

fn group(id: usize, members: usize) -> GroupUsage {
    let usages: Vec<CoreUsage> = (0..members)
        .map(|i| CoreUsage { core_id: i, usage_centi: 0, frequency_mhz: None })
        .collect();
    GroupUsage::from_cores(String::from("g"), id, &usages)
}

#[test]
fn compact_grid_geometry() {
    let g = GridLayout::compact(area(0, 0, 100, 20), 20);
    // 100 / 12 = 8 columns, 20 items over 8 columns is 3 rows, cells
    // stretched to 100 / 8 = 12 wide.
    assert_eq!(g.cols, 8);
    assert_eq!(g.rows, 3);
    assert_eq!(g.cell_width, 12);
}

#[test]
fn compact_grid_minimum_one_column() {
    let g = GridLayout::compact(area(0, 0, 5, 20), 3);
    assert_eq!(g.cols, 1);
    assert_eq!(g.rows, 3);
    assert_eq!(g.cell_width, 5);
}

#[test]
fn compact_grid_caps_at_sixteen() {
    let g = GridLayout::compact(area(0, 0, 400, 20), 32);
    assert_eq!(g.cols, 16);
    assert_eq!(g.rows, 2);
    assert_eq!(g.cell_width, 25);
}

/// Wide screen, many items: the heatmap column count is a multiple of 16
/// and never exceeds 80.
#[test]
fn heatmap_grid_wide() {
    let g = GridLayout::heatmap(area(0, 0, 200, 20), 100);
    // Screen capacity: 200/2 = 100 cells, rounded down to 96; items round
    // up to 104; capped at 80.
    assert_eq!(g.cols, 80);
    assert_eq!(g.rows, 2);
    assert_eq!(g.cell_width, 2);
    assert_eq!(g.cols % 16, 0);
}

/// Few items: the item count rounded up to a multiple of 8 caps the count.
#[test]
fn heatmap_grid_capped_by_items() {
    let g = GridLayout::heatmap(area(0, 0, 200, 20), 4);
    assert_eq!(g.cols, 8);
    assert_eq!(g.rows, 1);
}

/// Narrow screen: at least 16 columns are kept.
#[test]
fn heatmap_grid_minimum_sixteen() {
    let g = GridLayout::heatmap(area(0, 0, 10, 20), 100);
    assert_eq!(g.cols, 16);
    assert_eq!(g.rows, 7);
}

#[test]
fn cell_rect_positions() {
    let g = GridLayout { cols: 4, rows: 3, cell_width: 10 };
    let a = area(5, 2, 60, 3);
    let r = g.cell_rect(a, 6).expect("row 1 is inside");
    assert_eq!(r, Rect { x: 5 + 2 * 10, y: 3, width: 10, height: 1 });
    // Row 3 of a 3-line area is out.
    assert!(g.cell_rect(a, 12).is_none());
}

#[test]
fn fits_checks_rows() {
    let g = GridLayout { cols: 4, rows: 3, cell_width: 10 };
    assert!(g.fits(area(0, 0, 60, 3)));
    assert!(!g.fits(area(0, 0, 60, 2)));
}

/// The effective scroll never exceeds the scrollable range and never
/// raises a request.
#[test]
fn scroll_clamp() {
    assert_eq!(clamp_scroll(100, 50, 10), 40);
    assert_eq!(clamp_scroll(3, 50, 10), 3);
    assert_eq!(clamp_scroll(7, 5, 10), 0);
    assert_eq!(clamp_scroll(0, 0, 0), 0);
    assert_eq!(clamp_scroll(usize::MAX, 12, 2), 10);
}

/// Two full-mode groups of three members: line accounting, window
/// placement and the clamped scroll.
#[test]
fn layout_rows_window() {
    let groups = vec![group(0, 3), group(1, 3)];
    // Full mode: each group takes 1 header + 3 member rows + 1 spacer = 5
    // lines; 10 lines total, 4 visible, scroll request 3.
    let a = area(2, 7, 40, 4);
    let (rows, scroll) = layout_rows(&groups, DisplayMode::Full, 1, a, 3);
    assert_eq!(scroll, 3);
    assert_eq!(rows.len(), 4);
    for (k, row) in rows.iter().enumerate() {
        assert_eq!(row.y as usize, 7 + k);
    }
    assert_eq!(rows[0].content, LineContent::MemberRow { group: 0, row: 2 });
    assert_eq!(rows[1].content, LineContent::Spacer);
    assert_eq!(rows[2].content, LineContent::GroupHeader { group: 1 });
    assert_eq!(rows[3].content, LineContent::MemberRow { group: 1, row: 0 });
}

/// An overlarge request clamps to the bottom of the content.
#[test]
fn layout_rows_clamps_scroll() {
    let groups = vec![group(0, 3), group(1, 3)];
    let a = area(0, 0, 40, 4);
    let (rows, scroll) = layout_rows(&groups, DisplayMode::Full, 1, a, 1000);
    assert_eq!(scroll, 6);
    assert_eq!(rows.len(), 4);
    assert_eq!(rows[0].content, LineContent::MemberRow { group: 1, row: 0 });
    assert_eq!(rows[3].content, LineContent::Spacer);
}

/// Heatmap mode adds one column-ruler line per group.
#[test]
fn layout_rows_heatmap_ruler() {
    let groups = vec![group(0, 20)];
    // 16 columns: 20 members over 16 columns is 2 rows; 1 header + 1 ruler
    // + 2 rows + 1 spacer = 5 lines.
    let a = area(0, 0, 80, 10);
    let (rows, scroll) = layout_rows(&groups, DisplayMode::Heatmap, 16, a, 0);
    assert_eq!(scroll, 0);
    assert_eq!(rows.len(), 5);
    assert_eq!(rows[0].content, LineContent::GroupHeader { group: 0 });
    assert_eq!(rows[1].content, LineContent::ColumnRuler { group: 0 });
    assert_eq!(rows[2].content, LineContent::MemberRow { group: 0, row: 0 });
    assert_eq!(rows[3].content, LineContent::MemberRow { group: 0, row: 1 });
    assert_eq!(rows[4].content, LineContent::Spacer);
}

/// Content shorter than the window is shown whole and unscrolled.
#[test]
fn layout_rows_short_content() {
    let groups = vec![group(0, 1)];
    let a = area(0, 0, 40, 10);
    let (rows, scroll) = layout_rows(&groups, DisplayMode::Compact, 4, a, 5);
    assert_eq!(scroll, 0);
    assert_eq!(rows.len(), 3);
}

#[test]
fn row_cells_positions() {
    let g = group(0, 5);
    // Row 1 of a 2-column grid: members 2 and 3.
    let cells = row_cells(&g, 1, 2, 12, 10, 4);
    assert_eq!(cells.len(), 2);
    assert_eq!(cells[0].member, 2);
    assert_eq!(cells[0].x, 10);
    assert_eq!(cells[0].y, 4);
    assert_eq!(cells[1].member, 3);
    assert_eq!(cells[1].x, 22);
    // The last, partial row.
    let cells = row_cells(&g, 2, 2, 12, 10, 5);
    assert_eq!(cells.len(), 1);
    assert_eq!(cells[0].member, 4);
}

#[test]
fn ruler_marks_every_sixteen_columns() {
    let marks = ruler_marks(32, 2, 5, 60);
    assert_eq!(marks.len(), 3);
    assert_eq!(marks[0].value, 0);
    assert_eq!(marks[0].x, 5);
    assert!(marks[0].fits);
    assert_eq!(marks[1].value, 16);
    assert_eq!(marks[1].x, 5 + 32);
    assert!(marks[1].fits);
    assert_eq!(marks[2].value, 32);
    assert_eq!(marks[2].x, 5 + 64);
    // 69 + "+32" needs to end by column 60: it does not fit.
    assert!(!marks[2].fits);
}

/// The dual-socket split halves the width, the first half taking the
/// remainder of an odd width.
#[test]
fn socket_areas_split() {
    let (left, right) = socket_areas(area(3, 1, 7, 5));
    assert_eq!(left, Rect { x: 3, y: 1, width: 4, height: 5 });
    assert_eq!(right, Rect { x: 7, y: 1, width: 3, height: 5 });
    let (left, right) = socket_areas(area(0, 0, 8, 2));
    assert_eq!(left.width, 4);
    assert_eq!(right.width, 4);
}

#[test]
fn centered_rect_half() {
    let c = centered_rect(50, 50, area(0, 0, 100, 40));
    assert_eq!(c, Rect { x: 25, y: 10, width: 50, height: 20 });
}
