//! Where the panels of the monitor stand on the screen.

use super::App;
use vstd::prelude::*;

verus! {

/// A panel, from top to bottom.
#[derive(Debug, Clone, Copy, PartialEq, Eq, Structural)]
pub enum Panel {
    Header,
    Devices,
    Matrix,
    Diagnostics,
    Sparklines,
    Footer,
}

/// How high a panel is: so many lines, or at least so many.
#[derive(Debug, Clone, Copy, PartialEq, Eq, Structural)]
pub enum Height {
    Length(u16),
    Min(u16),
}

/// The panels and their heights.
pub open spec fn panel_list(show_diag: bool) -> Seq<(Panel, Height)> {
    let top = seq![
        (Panel::Header, Height::Length(3)),
        (Panel::Devices, Height::Min(4)),
        (Panel::Matrix, Height::Min(4)),
    ];
    let bottom = seq![(Panel::Sparklines, Height::Length(5)), (Panel::Footer, Height::Length(1))];
    if show_diag {
        top.push((Panel::Diagnostics, Height::Length(6))) + bottom
    } else {
        top + bottom
    }
}

/// A part of the screen.
#[derive(Debug, Clone, Copy, PartialEq, Eq, Structural)]
pub struct Area {
    pub x: u16,
    pub y: u16,
    pub width: u16,
    pub height: u16,
}

/// The width of the sparkline in a panel: what the label leaves of it.
pub open spec fn spark_width(inner: Area) -> int {
    if inner.width < 24 {
        0
    } else {
        inner.width - 24
    }
}

/// `a + b`, as far as the screen goes.
pub open spec fn clamped_sum(a: u16, b: u16) -> u16 {
    if a + b <= u16::MAX {
        (a + b) as u16
    } else {
        u16::MAX
    }
}

/// `n` without the two lines of a border.
pub open spec fn without_border(n: u16) -> u16 {
    if n < 2 {
        0
    } else {
        (n - 2) as u16
    }
}

/// Where the inside of a bordered panel begins that begins at `start`: one further on,
/// but not behind the panel.
pub open spec fn inside_start(start: u16, size: u16) -> u16 {
    if size == 0 {
        start
    } else {
        clamped_sum(start, 1)
    }
}

/// The inside of a panel with a border on all sides.
pub open spec fn inside(area: Area) -> Area {
    Area {
        x: inside_start(area.x, area.width),
        y: inside_start(area.y, area.height),
        width: without_border(area.width),
        height: without_border(area.height),
    }
}

/// Calls ratatui's `Block::inner` on a block with borders on all sides. The contract
/// says that one line is taken away on each side, as far as there are any, and that
/// neither edge leaves the screen.
#[verifier::external_body]
fn block_inner(area: Area) -> (r: Area)
    ensures
        r == inside(area),
{
    let block = ratatui::widgets::Block::default().borders(ratatui::widgets::Borders::ALL);
    let r = block.inner(ratatui::layout::Rect {
        x: area.x,
        y: area.y,
        width: area.width,
        height: area.height,
    });
    Area { x: r.x, y: r.y, width: r.width, height: r.height }
}

/// `row` takes the whole width of `area`, and some of its lines.
pub open spec fn is_row_of(row: Area, area: Area) -> bool {
    &&& row.x == area.x
    &&& row.width == area.width
    &&& area.y <= row.y
    &&& row.y + row.height <= clamped_sum(area.y, area.height)
}

/// The number of lines that a height asks for, at least.
pub open spec fn lines_of(h: Height) -> nat {
    match h {
        Height::Length(n) => n as nat,
        Height::Min(n) => n as nat,
    }
}

/// The number of lines that some heights ask for together.
pub open spec fn total_lines(heights: Seq<Height>) -> nat
    decreases heights.len(),
{
    if heights.len() == 0 {
        0
    } else {
        total_lines(heights.drop_last()) + lines_of(heights.last())
    }
}

/// A few rows of such heights all have room in `area`, which lies on the screen.
pub open spec fn fits_in(heights: Seq<Height>, area: Area) -> bool {
    &&& heights.len() <= 6
    &&& forall|i: int| 0 <= i < heights.len() ==> lines_of(#[trigger] heights[i]) <= 0x7FFF
    &&& total_lines(heights) <= area.height
    &&& area.y + area.height <= u16::MAX
}

/// `row` has the lines that `h` asks for: so many, or at least so many.
pub open spec fn is_as_high(row: Area, h: Height) -> bool {
    match h {
        Height::Length(n) => row.height == n,
        Height::Min(n) => row.height >= n,
    }
}

/// The rows stand on top of each other from the top of `area` on, each as high as is
/// asked for.
pub open spec fn is_stack(rows: Seq<Area>, heights: Seq<Height>, area: Area) -> bool {
    &&& rows.len() == heights.len()
    &&& forall|i: int| 0 <= i < rows.len() ==> is_as_high(#[trigger] rows[i], heights[i])
    &&& rows.len() > 0 ==> rows[0].y == area.y
    &&& forall|i: int, j: int|
        0 <= i < j < rows.len() && j == i + 1 ==> (#[trigger] rows[i]).y + rows[i].height == (
        #[trigger] rows[j]).y
}

/// Rows with a minimum take all the lines that the others leave. Those with the same
/// minimum share them evenly but for one line, and where there are just two such rows,
/// an odd line goes to the upper one.
pub open spec fn is_shared_out(rows: Seq<Area>, heights: Seq<Height>, area: Area) -> bool {
    &&& forall|i: int|
        0 <= i < heights.len() && (#[trigger] heights[i]) is Min ==> rows.last().y
            + rows.last().height == area.y + area.height
    &&& forall|i: int, j: int|
        0 <= i < j < rows.len() && heights[i] is Min && heights[j] == heights[i] ==> -1 <= (
        #[trigger] rows[i]).height - (#[trigger] rows[j]).height <= 1
    &&& forall|i: int, j: int|
        0 <= i < j < rows.len() && heights[i] is Min && heights[j] == heights[i]
            && only_minimums(heights, i, j) ==> (#[trigger] rows[i]).height >= (
        #[trigger] rows[j]).height
}

/// No row but `i` and `j` has a minimum.
pub open spec fn only_minimums(heights: Seq<Height>, i: int, j: int) -> bool {
    forall|k: int| 0 <= k < heights.len() && (#[trigger] heights[k]) is Min ==> k == i || k == j
}

/// Calls ratatui's `Layout::split` on a vertical layout. The contract says that there
/// is an area for each height, that each has the horizontal extent of the whole and
/// that none leaves it at the top or at the bottom. Where all heights have room, it
/// also says that the rows follow each other from the top on, that each is as high as
/// its height asks for, and that rows with a minimum share out all the lines that
/// remain. They want to grow ten times as strongly as the blank space below the last
/// row does, and are held equal far more strongly than neighbours are pulled together.
/// Where a row begins and ends is rounded to whole lines, and a half counts as one
/// line further down, so that of two rows the upper one takes an odd line. A `Min` is
/// taken for a signed number of 16 bits, so that larger ones are left out. What else is
/// left unsaid is how rows with different minimums share the lines, which of three or
/// more rows is a line higher, and what happens where there is not room for all.
#[verifier::external_body]
fn split_rows(area: Area, heights: &Vec<Height>) -> (r: Vec<Area>)
    ensures
        r@.len() == heights@.len(),
        forall|i: int| 0 <= i < r@.len() ==> is_row_of(#[trigger] r@[i], area),
        fits_in(heights@, area) ==> is_stack(r@, heights@, area),
        fits_in(heights@, area) ==> is_shared_out(r@, heights@, area),
{
    let whole = ratatui::layout::Rect {
        x: area.x,
        y: area.y,
        width: area.width,
        height: area.height,
    };
    let rows = heights.iter().map(|h| match h {
        Height::Length(n) => ratatui::layout::Constraint::Length(*n),
        Height::Min(n) => ratatui::layout::Constraint::Min(*n),
    });
    let split = ratatui::layout::Layout::vertical(rows).split(whole);
    split.iter().map(|r| Area { x: r.x, y: r.y, width: r.width, height: r.height }).collect()
}

/// The heights in a list of panels.
pub open spec fn panel_heights(panels: Seq<(Panel, Height)>) -> Seq<Height> {
    panels.map_values(|p: (Panel, Height)| p.1)
}

/// The areas in a list of panels.
pub open spec fn panel_areas(panels: Seq<(Panel, Area)>) -> Seq<Area> {
    panels.map_values(|p: (Panel, Area)| p.1)
}

/// The heights of the panels.
pub fn heights_of(panels: &Vec<(Panel, Height)>) -> (r: Vec<Height>)
    ensures
        r@ == panel_heights(panels@),
{
    let mut r: Vec<Height> = Vec::new();
    let mut i: usize = 0;
    while i < panels.len()
        invariant
            i <= panels.len(),
            r@.len() == i,
            forall|k: int| 0 <= k < i ==> r@[k] == (#[trigger] panels@[k]).1,
        decreases panels.len() - i,
    {
        r.push(panels[i].1);
        i += 1;
    }
    assert(r@ =~= panel_heights(panels@));
    r
}

/// The lines that a screen needs so that all panels have room.
pub open spec fn lines_needed(show_diag: bool) -> nat {
    if show_diag {
        23
    } else {
        17
    }
}

/// All panels have room on a screen.
pub open spec fn has_room(show_diag: bool, screen: Area) -> bool {
    screen.height >= lines_needed(show_diag) && screen.y + screen.height <= u16::MAX
}

/// The panels have room on a screen with the lines that they need.
proof fn lemma_panels_fit(show_diag: bool, screen: Area)
    requires
        has_room(show_diag, screen),
    ensures
        fits_in(panel_heights(panel_list(show_diag)), screen),
{
    reveal_with_fuel(total_lines, 7);
    let heights = panel_heights(panel_list(show_diag));
    if show_diag {
        assert(heights == seq![
            Height::Length(3),
            Height::Min(4),
            Height::Min(4),
            Height::Length(6),
            Height::Length(5),
            Height::Length(1),
        ]);
    } else {
        assert(heights == seq![
            Height::Length(3),
            Height::Min(4),
            Height::Min(4),
            Height::Length(5),
            Height::Length(1),
        ]);
    }
    assert(total_lines(heights) == lines_needed(show_diag));
}

/// What the two panels with a minimum take of the lines that the others leave.
proof fn lemma_panels_share(show_diag: bool, screen: Area, rows: Seq<Area>)
    requires
        has_room(show_diag, screen),
        is_stack(rows, panel_heights(panel_list(show_diag)), screen),
        is_shared_out(rows, panel_heights(panel_list(show_diag)), screen),
    ensures
        rows.last().y + rows.last().height == screen.y + screen.height,
        rows[1].height == 4 + (screen.height - lines_needed(show_diag) + 1) / 2,
        rows[2].height == 4 + (screen.height - lines_needed(show_diag)) / 2,
{
    let heights = panel_heights(panel_list(show_diag));
    assert(heights[1] == Height::Min(4) && heights[2] == Height::Min(4));
    assert(only_minimums(heights, 1, 2));
    assert(rows[0].y == screen.y && rows[0].height == 3);
    assert(rows[0].y + rows[0].height == rows[1].y);
    assert(rows[1].y + rows[1].height == rows[2].y);
    assert(rows[2].y + rows[2].height == rows[3].y);
    assert(rows[3].y + rows[3].height == rows[4].y);
    if show_diag {
        assert(rows[3].height == 6 && rows[4].height == 5 && rows[5].height == 1);
        assert(rows[4].y + rows[4].height == rows[5].y);
    } else {
        assert(rows[3].height == 5 && rows[4].height == 1);
    }
}

/// Each panel with the area at its position.
pub open spec fn placed(panels: Seq<(Panel, Height)>, areas: Seq<Area>) -> Seq<(Panel, Area)> {
    Seq::new(panels.len(), |i: int| (panels[i].0, areas[i]))
}

/// Give each panel the area at its position.
pub fn place(panels: &Vec<(Panel, Height)>, areas: &Vec<Area>) -> (r: Vec<(Panel, Area)>)
    requires
        areas@.len() == panels@.len(),
    ensures
        r@ == placed(panels@, areas@),
{
    let mut r: Vec<(Panel, Area)> = Vec::new();
    let mut i: usize = 0;
    while i < panels.len()
        invariant
            i <= panels.len(),
            areas@.len() == panels@.len(),
            r@ == placed(panels@, areas@).take(i as int),
        decreases panels.len() - i,
    {
        r.push((panels[i].0, areas[i]));
        assert(r@ == placed(panels@, areas@).take(i + 1));
        i += 1;
    }
    assert(placed(panels@, areas@).take(i as int) == placed(panels@, areas@));
    r
}

impl App {
    /// The panels to draw, with their heights.
    pub fn panels(&self) -> (r: Vec<(Panel, Height)>)
        ensures
            r@ == panel_list(self@.show_diag),
    {
        let mut r: Vec<(Panel, Height)> = Vec::new();
        r.push((Panel::Header, Height::Length(3)));
        r.push((Panel::Devices, Height::Min(4)));
        r.push((Panel::Matrix, Height::Min(4)));
        if self.show_diag {
            r.push((Panel::Diagnostics, Height::Length(6)));
        }
        r.push((Panel::Sparklines, Height::Length(5)));
        r.push((Panel::Footer, Height::Length(1)));
        assert(r@ == panel_list(self@.show_diag));
        r
    }

    /// Share out the screen among the panels. Where all of them have room, the list of
    /// devices and the matrix share the lines that the others leave.
    pub fn layout(&self, screen: Area) -> (r: Vec<(Panel, Area)>)
        ensures
            r@.len() == panel_list(self@.show_diag).len(),
            forall|i: int|
                0 <= i < r@.len() ==> (#[trigger] r@[i]).0 == panel_list(self@.show_diag)[i].0
                    && is_row_of(r@[i].1, screen),
            has_room(self@.show_diag, screen) ==> {
                &&& is_stack(panel_areas(r@), panel_heights(panel_list(self@.show_diag)), screen)
                &&& r@.last().1.y + r@.last().1.height == screen.y + screen.height
                &&& r@[1].1.height == 4 + (screen.height - lines_needed(self@.show_diag) + 1) / 2
                &&& r@[2].1.height == 4 + (screen.height - lines_needed(self@.show_diag)) / 2
            },
    {
        let panels = self.panels();
        let areas = split_rows(screen, &heights_of(&panels));
        proof {
            if has_room(self@.show_diag, screen) {
                lemma_panels_fit(self@.show_diag, screen);
                lemma_panels_share(self@.show_diag, screen, areas@);
            }
        }
        let r = place(&panels, &areas);
        assert(panel_areas(r@) =~= areas@);
        r
    }
}

/// Part the inside of the sparkline panel between the sparkline and its label.
pub fn spark_areas(inner: Area) -> (r: (Area, Area))
    requires
        inner.x + spark_width(inner) + 1 <= u16::MAX,
    ensures
        r.0 == (Area { width: spark_width(inner) as u16, ..inner }),
        r.1 == (Area { x: (inner.x + spark_width(inner) + 1) as u16, width: 23, ..inner }),
{
    let width = inner.width.saturating_sub(24);
    (
        Area { x: inner.x, y: inner.y, width, height: inner.height },
        Area { x: inner.x + width + 1, y: inner.y, width: 23, height: inner.height },
    )
}

/// Neither edge of the sparkline's label leaves the screen.
pub open spec fn spark_fits(area: Area) -> bool {
    inside(area).x + spark_width(inside(area)) + 1 <= u16::MAX
}

/// Test whether the sparkline and its label fit into a panel.
pub fn check_spark(area: Area) -> (r: bool)
    ensures
        r == spark_fits(area),
{
    let inner = block_inner(area);
    inner.x as u32 + inner.width.saturating_sub(24) as u32 + 1 <= 0xFFFF
}

/// Part a sparkline panel, inside its border, between the sparkline and its label.
pub fn spark_layout(area: Area) -> (r: (Area, Area))
    requires
        spark_fits(area),
    ensures
        r.0 == (Area { width: spark_width(inside(area)) as u16, ..inside(area) }),
        r.1 == (Area {
            x: (inside(area).x + spark_width(inside(area)) + 1) as u16,
            width: 23,
            ..inside(area)
        }),
{
    spark_areas(block_inner(area))
}

// -- Laws ------------------------------------------------------------------------------------

/// There is a diagnostics panel exactly if it is switched on; the others are always
/// there, in the same order.
pub proof fn law_panels(show_diag: bool)
    ensures
        panel_list(show_diag).contains((Panel::Diagnostics, Height::Length(6))) <==> show_diag,
        panel_list(true) == panel_list(false).insert(3, (Panel::Diagnostics, Height::Length(6))),
        panel_list(show_diag).first() == (Panel::Header, Height::Length(3)),
        panel_list(show_diag).last() == (Panel::Footer, Height::Length(1)),
{
    assert(panel_list(true)[3] == (Panel::Diagnostics, Height::Length(6)));
}

/// The sparkline and its label fit into every panel that ends before the last column
/// a screen can have.
pub proof fn law_sparkline_fits(area: Area)
    requires
        area.x + area.width < u16::MAX,
    ensures
        spark_fits(area),
{
}

/// The sparkline takes what 24 columns for its label leave of the panel, which loses a
/// line on each side to its border.
pub proof fn law_sparkline_width(area: Area)
    ensures
        area.width >= 26 && area.x + area.width <= u16::MAX ==> spark_width(inside(area))
            == area.width - 26 && inside(area).x == area.x + 1,
        area.width < 26 ==> spark_width(inside(area)) == 0,
        area.height >= 2 && area.y + area.height <= u16::MAX ==> inside(area).y == area.y + 1
            && inside(area).height == area.height - 2,
{
}

/// The panels from top to bottom, with their heights: three lines for the header, six
/// for the diagnostics, five for the sparklines, one for the footer, and at least four
/// each for the devices and the matrix.
pub proof fn law_panel_heights(show_diag: bool, i: int)
    requires
        0 <= i < panel_list(show_diag).len(),
    ensures
        panel_list(show_diag).len() == if show_diag {
            6
        } else {
            5int
        },
        ({
            let (panel, height) = panel_list(show_diag)[i];
            &&& panel is Header <==> i == 0
            &&& panel is Devices <==> i == 1
            &&& panel is Matrix <==> i == 2
            &&& panel is Footer <==> i == panel_list(show_diag).len() - 1
            &&& panel is Header ==> height == Height::Length(3)
            &&& panel is Devices || panel is Matrix ==> height == Height::Min(4)
            &&& panel is Diagnostics ==> height == Height::Length(6)
            &&& panel is Sparklines ==> height == Height::Length(5)
            &&& panel is Footer ==> height == Height::Length(1)
        }),
{
}

}
