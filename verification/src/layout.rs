use vstd::prelude::*;
use vstd::arithmetic::mul::lemma_mul_inequality;
use crate::app::DisplayMode;
use crate::stats::GroupUsage;

verus! {

/// Grid and pagination math: how many columns a density mode gets, which
/// lines of the grouped content are visible at a scroll offset, and where
/// each visible member lands on the screen.

/// A rectangle of character cells, in absolute screen coordinates.
#[derive(Debug, Clone, Copy, PartialEq, Eq, Structural)]
pub struct Rect {
    pub x: u16,
    pub y: u16,
    pub width: u16,
    pub height: u16,
}

impl Rect {
    /// The rectangle stays within the addressable cell space.
    pub open spec fn wf(self) -> bool {
        &&& self.x + self.width <= u16::MAX
        &&& self.y + self.height <= u16::MAX
    }

    pub fn new(x: u16, y: u16, width: u16, height: u16) -> (r: Rect)
        requires
            x + width <= u16::MAX,
            y + height <= u16::MAX,
        ensures
            r == (Rect { x, y, width, height }),
            r.wf(),
    {
        Rect { x, y, width, height }
    }
}

/// Ceiling division for grid rows: members over columns, rounded up.
pub open spec fn rows_for(members: int, cols: int) -> int {
    members / cols + if members % cols != 0 {
        1int
    } else {
        0int
    }
}

/// The compact-mode column count: up to 16, capped by how many 12-wide
/// cells fit, and at least 1.
pub open spec fn compact_cols(width: int) -> int {
    let fit = width / 12;
    if fit == 0 {
        1
    } else if fit < 16 {
        fit
    } else {
        16
    }
}

/// The heatmap-mode column count: the screen capacity in 2-wide cells
/// rounded down to a multiple of 16 (at least 16), capped at 80, and capped
/// by the item count rounded up to a multiple of 8 (at least 8).
pub open spec fn heatmap_cols(width: int, item_count: int) -> int {
    let screen = (width / 2) / 16 * 16;
    let screen = if screen < 16 {
        16int
    } else {
        screen
    };
    let items8 = item_count / 8 * 8 + if item_count % 8 != 0 {
        8int
    } else {
        0int
    };
    let items8 = if items8 < 8 {
        8int
    } else {
        items8
    };
    let capped = if screen < 80 {
        screen
    } else {
        80int
    };
    if capped < items8 {
        capped
    } else {
        items8
    }
}

/// One grid geometry, computed once for a whole view and reused across
/// groups.
#[derive(Debug, Clone, Copy, PartialEq, Eq, Structural)]
pub struct GridLayout {
    pub cols: usize,
    pub rows: usize,
    pub cell_width: u16,
}

impl GridLayout {
    /// Compact mode: up to 16 columns of 12-character cells, the cell width
    /// stretched to use the full row.
    pub fn compact(area: Rect, item_count: usize) -> (r: GridLayout)
        requires
            item_count <= usize::MAX - 16,
        ensures
            r.cols == compact_cols(area.width as int),
            1 <= r.cols <= 16,
            r.rows == rows_for(item_count as int, r.cols as int),
            r.cell_width == area.width as int / r.cols as int,
    {
        let fit = (area.width / 12) as usize;
        let cols: usize = if fit == 0 {
            1
        } else if fit < 16 {
            fit
        } else {
            16
        };
        let rows = item_count / cols + if item_count % cols != 0 {
            1
        } else {
            0
        };
        let cell_width = area.width / (cols as u16);
        GridLayout { cols, rows, cell_width }
    }

    /// Heatmap mode: 2-character cells, in a column count that is a
    /// multiple of 16 unless the item count (rounded up to a multiple of 8)
    /// caps it, and never more than 80.
    pub fn heatmap(area: Rect, item_count: usize) -> (r: GridLayout)
        requires
            item_count <= usize::MAX - 16,
        ensures
            r.cols == heatmap_cols(area.width as int, item_count as int),
            1 <= r.cols <= 80,
            r.rows == rows_for(item_count as int, r.cols as int),
            r.cell_width == 2,
    {
        let screen_raw = ((area.width / 2) as usize / 16) * 16;
        let screen: usize = if screen_raw < 16 {
            16
        } else {
            screen_raw
        };
        let items_raw = (item_count / 8) * 8 + if item_count % 8 != 0 {
            8
        } else {
            0
        };
        let items8: usize = if items_raw < 8 {
            8
        } else {
            items_raw
        };
        let capped: usize = if screen < 80 {
            screen
        } else {
            80
        };
        let cols: usize = if capped < items8 {
            capped
        } else {
            items8
        };
        let rows = item_count / cols + if item_count % cols != 0 {
            1
        } else {
            0
        };
        GridLayout { cols, rows, cell_width: 2 }
    }

    /// The screen cell of the item at `index`, row-major within `area`, or
    /// none when its row falls below the area.
    pub fn cell_rect(&self, area: Rect, index: usize) -> (r: Option<Rect>)
        requires
            self.cols >= 1,
            self.cols <= 65536,
            area.x + self.cols * self.cell_width <= u16::MAX,
            area.y + area.height <= u16::MAX,
        ensures
            ({
                let row = index as int / self.cols as int;
                let col = index as int % self.cols as int;
                if row < area.height {
                    r == Some(
                        Rect {
                            x: (area.x + col * self.cell_width) as u16,
                            y: (area.y + row) as u16,
                            width: self.cell_width,
                            height: 1u16,
                        },
                    )
                } else {
                    r is None
                }
            }),
    {
        let row = index / self.cols;
        let col = index % self.cols;
        if row >= area.height as usize {
            return None;
        }
        proof {
            assert(col < self.cols);
            lemma_mul_inequality(col as int, self.cols as int, self.cell_width as int);
        }
        let x = area.x + (col as u16) * self.cell_width;
        let y = area.y + (row as u16);
        Some(Rect { x, y, width: self.cell_width, height: 1 })
    }

    /// Whether every row fits in the area without scrolling.
    pub fn fits(&self, area: Rect) -> (r: bool)
        ensures
            r == (self.rows <= area.height as usize),
    {
        self.rows <= area.height as usize
    }
}

/// The heatmap column count is a multiple of 16, except when the item
/// count (rounded up to a multiple of 8) caps it below the next multiple;
/// and it never exceeds 80.
pub proof fn lemma_heatmap_cols_shape(width: int, item_count: int)
    requires
        width >= 0,
        item_count >= 0,
    ensures
        heatmap_cols(width, item_count) <= 80,
        heatmap_cols(width, item_count) % 16 == 0 || heatmap_cols(width, item_count)
            == item_count / 8 * 8 + if item_count % 8 != 0 {
            8int
        } else {
            0int
        } || (item_count / 8 * 8 + if item_count % 8 != 0 {
            8int
        } else {
            0int
        } < 8 && heatmap_cols(width, item_count) == 8),
{
    let screen0 = (width / 2) / 16 * 16;
    assert(screen0 % 16 == 0) by {
        let q = (width / 2) / 16;
        assert((q * 16) % 16 == 0) by (nonlinear_arith);
    }
    assert(80int % 16 == 0);
    assert(16int % 16 == 0);
}

/// Clamp a requested scroll to the scrollable range: the effective scroll
/// never exceeds `total_lines - visible_height` (saturating at zero) and
/// lowers the request only when it must.
pub fn clamp_scroll(requested: usize, total_lines: usize, visible_height: usize) -> (r: usize)
    ensures
        r == if requested as int <= max_scroll(total_lines as int, visible_height as int) {
            requested as int
        } else {
            max_scroll(total_lines as int, visible_height as int)
        },
        r <= max_scroll(total_lines as int, visible_height as int),
        r <= requested,
{
    let max_scroll = if total_lines > visible_height {
        total_lines - visible_height
    } else {
        0
    };
    if requested < max_scroll {
        requested
    } else {
        max_scroll
    }
}

/// The greatest useful scroll: content lines beyond the visible height.
pub open spec fn max_scroll(total_lines: int, visible_height: int) -> int {
    if total_lines > visible_height {
        total_lines - visible_height
    } else {
        0
    }
}

/// Split an area into the two per-socket halves of a dual-socket view: two
/// equal halves, the first taking the remainder of an odd width.
pub fn socket_areas(area: Rect) -> (r: (Rect, Rect))
    requires
        area.x + area.width <= u16::MAX,
    ensures
        r.0.width as int + r.1.width as int == area.width as int,
        r.0.width as int == area.width as int - area.width as int / 2,
        r.1.width as int == area.width as int / 2,
        r.0.x == area.x,
        r.1.x as int == area.x as int + r.0.width as int,
        r.0.y == area.y && r.1.y == area.y,
        r.0.height == area.height && r.1.height == area.height,
{
    let half = area.width / 2;
    let left_width = area.width - half;
    let left = Rect { x: area.x, y: area.y, width: left_width, height: area.height };
    let right = Rect { x: area.x + left_width, y: area.y, width: half, height: area.height };
    (left, right)
}

/// Center a rectangle of the given percentage size inside `r`.
pub fn centered_rect(percent_x: u16, percent_y: u16, r: Rect) -> (c: Rect)
    requires
        percent_x <= 100,
        percent_y <= 100,
        r.wf(),
    ensures
        c.width as int == r.width as int * percent_x as int / 100,
        c.height as int == r.height as int * percent_y as int / 100,
        c.x as int == r.x as int + (r.width as int - c.width as int) / 2,
        c.y as int == r.y as int + (r.height as int - c.height as int) / 2,
        c.wf(),
{
    proof {
        lemma_mul_inequality(percent_x as int, 100, r.width as int);
        lemma_mul_inequality(percent_y as int, 100, r.height as int);
        assert(r.width as int * percent_x as int <= r.width as int * 100) by (nonlinear_arith)
            requires percent_x <= 100, r.width >= 0;
        assert(r.height as int * percent_y as int <= r.height as int * 100) by (nonlinear_arith)
            requires percent_y <= 100, r.height >= 0;
        assert(r.width as int * 100 / 100 == r.width as int) by (nonlinear_arith);
        assert(r.height as int * 100 / 100 == r.height as int) by (nonlinear_arith);
        lemma_div_ordered_pair(
            r.width as int * percent_x as int,
            r.width as int * 100,
            100,
        );
        lemma_div_ordered_pair(
            r.height as int * percent_y as int,
            r.height as int * 100,
            100,
        );
    }
    let popup_width = ((r.width as u32) * (percent_x as u32) / 100) as u16;
    let popup_height = ((r.height as u32) * (percent_y as u32) / 100) as u16;
    let popup_x = r.x + (r.width - popup_width) / 2;
    let popup_y = r.y + (r.height - popup_height) / 2;
    Rect { x: popup_x, y: popup_y, width: popup_width, height: popup_height }
}

proof fn lemma_div_ordered_pair(x: int, y: int, d: int)
    requires
        x <= y,
        0 <= x,
        d > 0,
    ensures
        x / d <= y / d,
        x / d >= 0,
{
    vstd::arithmetic::div_mod::lemma_div_is_ordered(x, y, d);
    vstd::arithmetic::div_mod::lemma_div_pos_is_pos(x, d);
}

/// What one content line of the grouped view holds.
#[derive(Debug, Clone, Copy, PartialEq, Eq, Structural)]
pub enum LineContent {
    /// The title line of group `group`.
    GroupHeader { group: usize },
    /// The heatmap column-ruler line of group `group`.
    ColumnRuler { group: usize },
    /// Row `row` of group `group`'s member grid.
    MemberRow { group: usize, row: usize },
    /// The trailing spacer of a group; nothing is drawn on it.
    Spacer,
}

/// One visible line, with the screen row it lands on.
#[derive(Debug, Clone, Copy, PartialEq, Eq, Structural)]
pub struct VisibleRow {
    pub y: u16,
    pub content: LineContent,
}

/// Header lines a group contributes: its title, plus a column ruler in
/// heatmap mode.
pub open spec fn header_lines(mode: DisplayMode) -> int {
    match mode {
        DisplayMode::Heatmap => 2,
        _ => 1,
    }
}

/// Content lines of one group: headers, member rows, one trailing spacer.
pub open spec fn group_lines(members: int, mode: DisplayMode, cols: int) -> int {
    header_lines(mode) + rows_for(members, cols) + 1
}

/// The line number where group `g` starts.
pub open spec fn line_offset(groups: Seq<GroupUsage>, mode: DisplayMode, cols: int, g: int) -> int
    decreases g,
    when 0 <= g <= groups.len()
{
    if g <= 0 {
        0
    } else {
        group_lines(groups[0].member_usages@.len() as int, mode, cols) + line_offset(
            groups.drop_first(),
            mode,
            cols,
            g - 1,
        )
    }
}

/// Total content height of the whole view.
pub open spec fn total_lines(groups: Seq<GroupUsage>, mode: DisplayMode, cols: int) -> int {
    line_offset(groups, mode, cols, groups.len() as int)
}

/// The content of line `l` within one group of `members` members.
pub open spec fn line_in_group(l: int, members: int, mode: DisplayMode, cols: int, g: int) -> LineContent {
    if l == 0 {
        LineContent::GroupHeader { group: g as usize }
    } else if mode is Heatmap && l == 1 {
        LineContent::ColumnRuler { group: g as usize }
    } else if l < header_lines(mode) + rows_for(members, cols) {
        LineContent::MemberRow { group: g as usize, row: (l - header_lines(mode)) as usize }
    } else {
        LineContent::Spacer
    }
}

/// The content of line `l` of the whole view, with group indices offset by
/// `goff`; `Spacer` past the end.
pub open spec fn line_at_from(
    groups: Seq<GroupUsage>,
    mode: DisplayMode,
    cols: int,
    l: int,
    goff: int,
) -> LineContent
    decreases groups.len(),
{
    if groups.len() == 0 {
        LineContent::Spacer
    } else {
        let gl = group_lines(groups[0].member_usages@.len() as int, mode, cols);
        if l < gl {
            line_in_group(l, groups[0].member_usages@.len() as int, mode, cols, goff)
        } else {
            line_at_from(groups.drop_first(), mode, cols, l - gl, goff + 1)
        }
    }
}

/// The content of line `l` of the whole view.
pub open spec fn line_at(groups: Seq<GroupUsage>, mode: DisplayMode, cols: int, l: int) -> LineContent {
    line_at_from(groups, mode, cols, l, 0)
}

proof fn lemma_group_lines_pos(members: int, mode: DisplayMode, cols: int)
    requires
        members >= 0,
        cols >= 1,
    ensures
        group_lines(members, mode, cols) >= 2,
        rows_for(members, cols) >= 0,
{
    vstd::arithmetic::div_mod::lemma_div_pos_is_pos(members, cols);
}

proof fn lemma_line_offset_step(groups: Seq<GroupUsage>, mode: DisplayMode, cols: int, g: int)
    requires
        0 <= g < groups.len(),
    ensures
        line_offset(groups, mode, cols, g + 1) == line_offset(groups, mode, cols, g) + group_lines(
            groups[g].member_usages@.len() as int,
            mode,
            cols,
        ),
    decreases g,
{
    let df = groups.drop_first();
    let gl0 = group_lines(groups[0].member_usages@.len() as int, mode, cols);
    if g > 0 {
        lemma_line_offset_step(df, mode, cols, g - 1);
        assert(df[g - 1] == groups[g]);
        assert(line_offset(groups, mode, cols, g + 1) == gl0 + line_offset(df, mode, cols, g));
        assert(line_offset(groups, mode, cols, g) == gl0 + line_offset(df, mode, cols, g - 1));
    } else {
        assert(line_offset(groups, mode, cols, 1) == gl0 + line_offset(df, mode, cols, 0));
        assert(line_offset(df, mode, cols, 0) == 0);
        assert(line_offset(groups, mode, cols, 0) == 0);
    }
}

proof fn lemma_line_offset_nonneg(groups: Seq<GroupUsage>, mode: DisplayMode, cols: int, g: int)
    requires
        0 <= g <= groups.len(),
        cols >= 1,
    ensures
        line_offset(groups, mode, cols, g) >= 0,
    decreases g,
{
    if g > 0 {
        lemma_line_offset_nonneg(groups.drop_first(), mode, cols, g - 1);
        lemma_group_lines_pos(groups[0].member_usages@.len() as int, mode, cols);
    }
}

proof fn lemma_line_offset_le_total(groups: Seq<GroupUsage>, mode: DisplayMode, cols: int, g: int)
    requires
        0 <= g <= groups.len(),
        cols >= 1,
    ensures
        line_offset(groups, mode, cols, g) <= total_lines(groups, mode, cols),
    decreases groups.len() - g,
{
    if g < groups.len() {
        lemma_line_offset_step(groups, mode, cols, g);
        lemma_group_lines_pos(groups[g].member_usages@.len() as int, mode, cols);
        lemma_line_offset_le_total(groups, mode, cols, g + 1);
    }
}

/// Within group `g`, global line `line_offset(g) + lg` shows that group's
/// line `lg`.
proof fn lemma_line_at_group(
    groups: Seq<GroupUsage>,
    mode: DisplayMode,
    cols: int,
    g: int,
    lg: int,
    goff: int,
)
    requires
        0 <= g < groups.len(),
        cols >= 1,
        0 <= lg < group_lines(groups[g].member_usages@.len() as int, mode, cols),
    ensures
        line_at_from(groups, mode, cols, line_offset(groups, mode, cols, g) + lg, goff)
            == line_in_group(lg, groups[g].member_usages@.len() as int, mode, cols, g + goff),
    decreases g,
{
    if g == 0 {
    } else {
        let rest = groups.drop_first();
        let gl0 = group_lines(groups[0].member_usages@.len() as int, mode, cols);
        lemma_line_offset_nonneg(rest, mode, cols, g - 1);
        lemma_group_lines_pos(groups[0].member_usages@.len() as int, mode, cols);
        assert(rest[g - 1] == groups[g]);
        lemma_line_at_group(rest, mode, cols, g - 1, lg, goff + 1);
    }
}

/// Compute the total content height, exactly `total_lines`.
pub fn view_total_lines(groups: &Vec<GroupUsage>, mode: DisplayMode, cols: usize) -> (r: usize)
    requires
        cols >= 1,
        total_lines(groups@, mode, cols as int) <= usize::MAX,
    ensures
        r == total_lines(groups@, mode, cols as int),
{
    let n = groups.len();
    let mut acc: usize = 0;
    let mut g: usize = 0;
    while g < n
        invariant
            n == groups@.len(),
            0 <= g <= n,
            cols >= 1,
            total_lines(groups@, mode, cols as int) <= usize::MAX,
            acc == line_offset(groups@, mode, cols as int, g as int),
        decreases n - g,
    {
        proof {
            lemma_line_offset_step(groups@, mode, cols as int, g as int);
            lemma_group_lines_pos(groups@[g as int].member_usages@.len() as int, mode, cols as int);
            lemma_line_offset_nonneg(groups@, mode, cols as int, g as int);
            lemma_line_offset_le_total(groups@, mode, cols as int, g as int + 1);
        }
        let members = groups[g].member_usages.len();
        let header: usize = match mode {
            DisplayMode::Heatmap => 2,
            _ => 1,
        };
        let rows = members / cols + if members % cols != 0 {
            1
        } else {
            0
        };
        acc = acc + header + rows + 1;
        g = g + 1;
    }
    acc
}

/// Lay out the grouped view: every content line that falls inside the
/// visible window, in order, one `VisibleRow` per line (spacers included,
/// with nothing to draw), together with the effective scroll.
///
/// Line `scroll + k` of the content lands on screen row `area.y + k`.
pub fn layout_rows(
    groups: &Vec<GroupUsage>,
    mode: DisplayMode,
    cols: usize,
    area: Rect,
    requested_scroll: usize,
) -> (r: (Vec<VisibleRow>, usize))
    requires
        cols >= 1,
        total_lines(groups@, mode, cols as int) <= usize::MAX,
        area.y + area.height <= u16::MAX,
    ensures
        ({
            let total = total_lines(groups@, mode, cols as int);
            let height = area.height as int;
            let scroll = r.1 as int;
            &&& scroll == if requested_scroll as int <= max_scroll(total, height) {
                requested_scroll as int
            } else {
                max_scroll(total, height)
            }
            &&& r.0@.len() == if total - scroll <= height {
                total - scroll
            } else {
                height
            }
            &&& forall|k: int|
                0 <= k < r.0@.len() ==> (#[trigger] r.0@[k]).y == area.y as int + k
            &&& forall|k: int|
                0 <= k < r.0@.len() ==> (#[trigger] r.0@[k]).content == line_at(
                    groups@,
                    mode,
                    cols as int,
                    scroll + k,
                )
        }),
{
    let total = view_total_lines(groups, mode, cols);
    let scroll = clamp_scroll(requested_scroll, total, area.height as usize);
    let height = area.height as usize;
    let n = groups.len();
    let mut out: Vec<VisibleRow> = Vec::new();
    let mut current_line: usize = 0;
    let mut g: usize = 0;
    while g < n
        invariant
            n == groups@.len(),
            0 <= g <= n,
            cols >= 1,
            height == area.height as usize,
            area.y + area.height <= u16::MAX,
            total == total_lines(groups@, mode, cols as int),
            scroll as int <= max_scroll(total as int, height as int),
            scroll <= total,
            current_line == line_offset(groups@, mode, cols as int, g as int),
            current_line <= total,
            out@.len() == if current_line <= scroll {
                0int
            } else if current_line - scroll <= height {
                current_line - scroll
            } else {
                height as int
            },
            forall|k: int| 0 <= k < out@.len() ==> (#[trigger] out@[k]).y == area.y as int + k,
            forall|k: int|
                0 <= k < out@.len() ==> (#[trigger] out@[k]).content == line_at(
                    groups@,
                    mode,
                    cols as int,
                    scroll as int + k,
                ),
        decreases n - g,
    {
        proof {
            lemma_line_offset_step(groups@, mode, cols as int, g as int);
            lemma_group_lines_pos(groups@[g as int].member_usages@.len() as int, mode, cols as int);
            lemma_line_offset_le_total(groups@, mode, cols as int, g as int + 1);
        }
        let members = groups[g].member_usages.len();
        let header: usize = match mode {
            DisplayMode::Heatmap => 2,
            _ => 1,
        };
        let rows = members / cols + if members % cols != 0 {
            1
        } else {
            0
        };
        let gl = header + rows + 1;
        let ghost base = current_line as int;
        let mut lg: usize = 0;
        while lg < gl
            invariant
                n == groups@.len(),
                g < n,
                cols >= 1,
                height == area.height as usize,
                area.y + area.height <= u16::MAX,
                total == total_lines(groups@, mode, cols as int),
                scroll as int <= max_scroll(total as int, height as int),
                scroll <= total,
                members == groups@[g as int].member_usages@.len(),
                header == header_lines(mode),
                rows == rows_for(members as int, cols as int),
                gl == group_lines(members as int, mode, cols as int),
                0 <= lg <= gl,
                base == line_offset(groups@, mode, cols as int, g as int),
                base + gl <= total,
                current_line == base + lg,
                out@.len() == if current_line <= scroll {
                    0int
                } else if current_line - scroll <= height {
                    current_line - scroll
                } else {
                    height as int
                },
                forall|k: int| 0 <= k < out@.len() ==> (#[trigger] out@[k]).y == area.y as int + k,
                forall|k: int|
                    0 <= k < out@.len() ==> (#[trigger] out@[k]).content == line_at(
                        groups@,
                        mode,
                        cols as int,
                        scroll as int + k,
                    ),
            decreases gl - lg,
        {
            if current_line >= scroll && current_line - scroll < height {
                let content = if lg == 0 {
                    LineContent::GroupHeader { group: g }
                } else if header == 2 && lg == 1 {
                    LineContent::ColumnRuler { group: g }
                } else if lg < header + rows {
                    LineContent::MemberRow { group: g, row: lg - header }
                } else {
                    LineContent::Spacer
                };
                proof {
                    lemma_line_at_group(groups@, mode, cols as int, g as int, lg as int, 0);
                    assert(content == line_at(
                        groups@,
                        mode,
                        cols as int,
                        scroll as int + (current_line - scroll),
                    ));
                }
                let y = area.y + ((current_line - scroll) as u16);
                out.push(VisibleRow { y, content });
            }
            current_line = current_line + 1;
            lg = lg + 1;
        }
        g = g + 1;
    }
    proof {
        if total > scroll {
            assert(out@.len() == if total - scroll <= height as int {
                total - scroll
            } else {
                height as int
            });
        }
    }
    (out, scroll)
}

/// The screen cell of one visible member: its index within the group's
/// member list and its top-left cell.
#[derive(Debug, Clone, Copy, PartialEq, Eq, Structural)]
pub struct MemberCell {
    pub member: usize,
    pub x: u16,
    pub y: u16,
}

/// Expand one member row of a group into its cells: member `row * cols + j`
/// in column `j`, at `x0 + j * cell_width`.
pub fn row_cells(
    group: &GroupUsage,
    row: usize,
    cols: usize,
    cell_width: u16,
    x0: u16,
    y: u16,
) -> (r: Vec<MemberCell>)
    requires
        cols >= 1,
        row * cols < group.member_usages@.len(),
        x0 + cols * cell_width <= u16::MAX,
        cols <= 65536,
    ensures
        r@.len() == if group.member_usages@.len() - row * cols <= cols as int {
            group.member_usages@.len() - row * cols
        } else {
            cols as int
        },
        forall|j: int|
            0 <= j < r@.len() ==> #[trigger] r@[j] == (MemberCell {
                member: (row * cols + j) as usize,
                x: (x0 + j * cell_width) as u16,
                y,
            }),
{
    let members = group.member_usages.len();
    let start = row * cols;
    let count = if members - start < cols {
        members - start
    } else {
        cols
    };
    let mut r: Vec<MemberCell> = Vec::new();
    let mut j: usize = 0;
    while j < count
        invariant
            members == group.member_usages@.len(),
            start == row * cols,
            start < members,
            count == if members - start <= cols {
                members - start
            } else {
                cols as int
            },
            count <= cols <= 65536,
            x0 + cols * cell_width <= u16::MAX,
            0 <= j <= count,
            r@.len() == j,
            forall|t: int|
                0 <= t < j ==> #[trigger] r@[t] == (MemberCell {
                    member: (start + t) as usize,
                    x: (x0 + t * cell_width) as u16,
                    y,
                }),
        decreases count - j,
    {
        proof {
            lemma_mul_inequality(j as int, cols as int, cell_width as int);
        }
        let x = x0 + (j as u16) * cell_width;
        r.push(MemberCell { member: start + j, x, y });
        j = j + 1;
    }
    r
}

/// The number of decimal digits of `n`.
pub open spec fn dec_len(n: int) -> int
    decreases n,
{
    if n < 10 {
        1
    } else {
        1 + dec_len(n / 10)
    }
}

/// Powers of ten.
pub open spec fn pow10(d: int) -> int
    decreases d,
{
    if d <= 0 {
        1
    } else {
        10 * pow10(d - 1)
    }
}

proof fn lemma_pow10_pos(d: int)
    ensures
        pow10(d) >= 1,
    decreases d,
{
    if d > 0 {
        lemma_pow10_pos(d - 1);
    }
}

proof fn lemma_dec_len_pos(n: int)
    ensures
        dec_len(n) >= 1,
    decreases n,
{
    if n >= 10 {
        lemma_dec_len_pos(n / 10);
    }
}

/// A number below `10^d` has at most `d` decimal digits.
proof fn lemma_dec_len_le_pow(n: int, d: int)
    requires
        0 <= n < pow10(d),
        d >= 1,
    ensures
        dec_len(n) <= d,
    decreases d,
{
    if n >= 10 {
        let p = pow10(d - 1);
        lemma_pow10_pos(d - 1);
        if d == 1 {
            assert(pow10(1) == 10 * pow10(0));
            assert(pow10(0) == 1);
            assert(false);
        }
        vstd::arithmetic::div_mod::lemma_div_is_ordered(n, 10 * p - 1, 10);
        vstd::arithmetic::div_mod::lemma_fundamental_div_mod_converse(10 * p - 1, 10, p - 1, 9);
        lemma_dec_len_le_pow(n / 10, d - 1);
    }
}

proof fn lemma_dec_len_usize(n: usize)
    ensures
        1 <= dec_len(n as int) <= 20,
{
    lemma_dec_len_pos(n as int);
    assert(pow10(0) == 1);
    assert(pow10(1) == 10);
    assert(pow10(2) == 100);
    assert(pow10(3) == 1000);
    assert(pow10(4) == 10000);
    assert(pow10(5) == 100000);
    assert(pow10(6) == 1000000);
    assert(pow10(7) == 10000000);
    assert(pow10(8) == 100000000);
    assert(pow10(9) == 1000000000);
    assert(pow10(10) == 10000000000);
    assert(pow10(11) == 100000000000);
    assert(pow10(12) == 1000000000000);
    assert(pow10(13) == 10000000000000);
    assert(pow10(14) == 100000000000000);
    assert(pow10(15) == 1000000000000000);
    assert(pow10(16) == 10000000000000000);
    assert(pow10(17) == 100000000000000000);
    assert(pow10(18) == 1000000000000000000);
    assert(pow10(19) == 10000000000000000000);
    assert(pow10(20) == 100000000000000000000);
    lemma_dec_len_le_pow(n as int, 20);
}

/// Count the decimal digits of `n`.
pub fn decimal_len(n: usize) -> (r: usize)
    ensures
        r == dec_len(n as int),
        1 <= r <= 20,
{
    proof {
        lemma_dec_len_usize(n);
    }
    let mut r: usize = 1;
    let mut m: usize = n;
    while m >= 10
        invariant
            1 <= r,
            dec_len(n as int) == dec_len(m as int) + r - 1,
            dec_len(n as int) <= 20,
            m <= n,
        decreases m,
    {
        proof {
            lemma_dec_len_pos(m as int / 10);
        }
        m = m / 10;
        r = r + 1;
    }
    r
}

/// One heatmap column-ruler mark: its screen column, its value (a multiple
/// of 16 up to the column count), and whether its label, one `+` and the
/// value's digits, fits before `limit_x`.
#[derive(Debug, Clone, Copy, PartialEq, Eq, Structural)]
pub struct RulerMark {
    pub x: u16,
    pub value: usize,
    pub fits: bool,
}

/// The ruler marks of a heatmap view: one per multiple of 16 from 0 through
/// `cols` inclusive.
pub fn ruler_marks(cols: usize, cell_width: u16, x0: u16, limit_x: u16) -> (r: Vec<RulerMark>)
    requires
        cols <= 65520,
        x0 + cols * cell_width <= u16::MAX,
    ensures
        r@.len() == cols as int / 16 + 1,
        forall|k: int|
            0 <= k < r@.len() ==> #[trigger] r@[k] == (RulerMark {
                x: (x0 + k * 16 * cell_width) as u16,
                value: (k * 16) as usize,
                fits: x0 + k * 16 * cell_width + 1 + dec_len(k * 16) <= limit_x,
            }),
{
    let count = cols / 16 + 1;
    let mut r: Vec<RulerMark> = Vec::new();
    let mut k: usize = 0;
    while k < count
        invariant
            count == cols as int / 16 + 1,
            cols <= 65520,
            x0 + cols * cell_width <= u16::MAX,
            0 <= k <= count,
            r@.len() == k,
            forall|t: int|
                0 <= t < k ==> #[trigger] r@[t] == (RulerMark {
                    x: (x0 + t * 16 * cell_width) as u16,
                    value: (t * 16) as usize,
                    fits: x0 + t * 16 * cell_width + 1 + dec_len(t * 16) <= limit_x,
                }),
        decreases count - k,
    {
        proof {
            vstd::arithmetic::div_mod::lemma_fundamental_div_mod(cols as int, 16);
            vstd::arithmetic::div_mod::lemma_mod_division_less_than_divisor(cols as int, 16);
            assert(k as int * 16 <= cols as int / 16 * 16 <= cols as int) by {
                lemma_mul_inequality(k as int, cols as int / 16, 16);
            }
            lemma_mul_inequality(k as int * 16, cols as int, cell_width as int);
        }
        let value = k * 16;
        let x = x0 + (value as u16) * cell_width;
        let digits = decimal_len(value);
        let fits = (x as usize) + 1 + digits <= limit_x as usize;
        r.push(RulerMark { x, value, fits });
        k = k + 1;
    }
    r
}


} // verus!
