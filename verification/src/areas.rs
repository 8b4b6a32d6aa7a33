//! Where things stand on the screen.

use vstd::prelude::*;

use crate::filter::Tab;
use crate::screen::HELP_HEIGHT;

verus! {

/// A rectangle of character cells.
#[derive(Clone, Copy, PartialEq, Eq, Debug, Structural)]
pub struct Rect {
    pub x: u16,
    pub y: u16,
    pub width: u16,
    pub height: u16,
}

/// The smaller of two numbers.
pub open spec fn smaller(a: u16, b: u16) -> u16 {
    if a <= b {
        a
    } else {
        b
    }
}

/// Where a span of `len` cells, cut to fit, starts when it is centered in `room` cells from
/// `start` on.
pub open spec fn centered_start(start: u16, len: u16, room: u16) -> int {
    start + (room - smaller(len, room)) / 2
}

/// The rectangle of the given size, cut to fit, in the middle of `area`.
pub fn centered_rect(width: u16, height: u16, area: Rect) -> (r: Rect)
    requires
        centered_start(area.x, width, area.width) <= u16::MAX,
        centered_start(area.y, height, area.height) <= u16::MAX,
    ensures
        r.width == smaller(width, area.width),
        r.height == smaller(height, area.height),
        r.x == centered_start(area.x, width, area.width),
        r.y == centered_start(area.y, height, area.height),
{
    let w: u16 = if width <= area.width {
        width
    } else {
        area.width
    };
    let h: u16 = if height <= area.height {
        height
    } else {
        area.height
    };
    Rect {
        x: area.x + (area.width - w) / 2,
        y: area.y + (area.height - h) / 2,
        width: w,
        height: h,
    }
}

/// A centered rectangle lies inside the area, with margins that differ by a cell at most.
pub proof fn centered_inside(start: u16, len: u16, room: u16)
    ensures
        ({
            let at = centered_start(start, len, room);
            let end = at + smaller(len, room);
            &&& start <= at
            &&& end <= start + room
            &&& 0 <= (start + room - end) - (at - start) <= 1
        }),
{
}

/// How many cells a part takes: so many, or at least so many.
#[derive(Clone, Copy, PartialEq, Eq, Debug, Structural)]
pub enum Size {
    Length(u16),
    Min(u16),
}

/// The way in which an area is split.
#[derive(Clone, Copy, PartialEq, Eq, Debug, Structural)]
pub enum Axis {
    /// Into parts one below the other.
    Vertical,
    /// Into parts side by side.
    Horizontal,
}

/// Where a rectangle stands across an axis, and how far it reaches.
pub open spec fn across(r: Rect, axis: Axis) -> (u16, u16) {
    match axis {
        Axis::Vertical => (r.x, r.width),
        Axis::Horizontal => (r.y, r.height),
    }
}

/// Where a rectangle stands along an axis, and how far it reaches.
pub open spec fn along(r: Rect, axis: Axis) -> (u16, u16) {
    match axis {
        Axis::Vertical => (r.y, r.height),
        Axis::Horizontal => (r.x, r.width),
    }
}

/// The part lies inside the area along the axis.
pub open spec fn inside(part: Rect, area: Rect, axis: Axis) -> bool {
    let (start, len) = along(part, axis);
    let (area_start, room) = along(area, axis);
    area_start <= start && start + len <= area_start + room
}

/// The cells that the first `n` sizes ask for.
pub open spec fn asked(sizes: Seq<Size>, n: nat) -> nat
    decreases n,
{
    if n == 0 {
        0
    } else {
        asked(sizes, (n - 1) as nat) + match sizes[n - 1] {
            Size::Length(len) => len as nat,
            Size::Min(len) => len as nat,
        }
    }
}

/// The cells that the first `n` parts have along the axis.
pub open spec fn cells(parts: Seq<Rect>, axis: Axis, n: nat) -> int
    decreases n,
{
    if n == 0 {
        0
    } else {
        cells(parts, axis, (n - 1) as nat) + along(parts[n - 1], axis).1
    }
}

/// The parts follow one another, without gaps, from the start of the area to its end.
pub open spec fn in_a_row(parts: Seq<Rect>, area: Rect, axis: Axis) -> bool {
    &&& forall|i: int|
        0 <= i < parts.len() ==> along(#[trigger] parts[i], axis).0 == along(area, axis).0 + cells(
            parts,
            axis,
            i as nat,
        )
    &&& cells(parts, axis, parts.len()) == along(area, axis).1
}

/// Size `k`, and no other, is a least size.
pub open spec fn only_min(sizes: Seq<Size>, k: int) -> bool {
    &&& 0 <= k < sizes.len()
    &&& forall|i: int| 0 <= i < sizes.len() ==> (#[trigger] sizes[i] is Min <==> i == k)
}

/// One part takes what the others leave.
pub open spec fn one_grows(sizes: Seq<Size>) -> bool {
    exists|k: int| only_min(sizes, k)
}

/// A part of `len` cells is in order for its size, where `wanted` cells are asked for in all and
/// there are `room`: a length gets what it asks for where all do and never more, and a part that
/// asks for nothing gets nothing where the others want everything.
pub open spec fn fair(len: u16, size: Size, wanted: nat, room: u16) -> bool {
    match size {
        Size::Length(n) => len <= n && (wanted <= room ==> len == n),
        Size::Min(n) => n == 0 && wanted >= room ==> len == 0,
    }
}

/// `ratatui::layout::Layout::split` gives one part for each size. Across the axis each part reaches
/// as far as the area does, and along the axis it lies inside the area. Where one part and no other
/// has a least size, and the area's end has a coordinate, the parts follow one another from its
/// start to its end: the gaps between them weigh more than any size. Then a length has the cells
/// that it asks for if all sizes fit, and never more, as lengths weigh more than growing does; the
/// part with a least size grows over what is left. Which of several lengths is cut where they do
/// not fit is not said here: the solver behind it walks hash maps, and more than one way can be as
/// good.
#[verifier::external_body]
fn split(area: Rect, axis: Axis, sizes: &[Size]) -> (parts: Vec<Rect>)
    ensures
        parts@.len() == sizes@.len(),
        forall|i: int|
            0 <= i < parts@.len() ==> across(#[trigger] parts@[i], axis) == across(area, axis)
                && inside(parts@[i], area, axis),
        ({
            let (start, room) = along(area, axis);
            one_grows(sizes@) && start + room <= u16::MAX ==> {
                &&& in_a_row(parts@, area, axis)
                &&& forall|i: int|
                    0 <= i < parts@.len() ==> fair(
                        along(#[trigger] parts@[i], axis).1,
                        sizes@[i],
                        asked(sizes@, sizes@.len()),
                        room,
                    )
            }
        }),
{
    let direction = match axis {
        Axis::Vertical => ratatui::layout::Direction::Vertical,
        Axis::Horizontal => ratatui::layout::Direction::Horizontal,
    };
    let constraints = sizes.iter().map(|s| match s {
        Size::Length(n) => ratatui::layout::Constraint::Length(*n),
        Size::Min(n) => ratatui::layout::Constraint::Min(*n),
    });
    let Rect { x, y, width, height } = area;
    let whole = ratatui::layout::Rect { x, y, width, height };
    let layout = ratatui::layout::Layout::default().direction(direction).constraints(constraints);
    let parts = layout.split(whole);
    parts.iter().map(|r| Rect { x: r.x, y: r.y, width: r.width, height: r.height }).collect()
}

/// The parts of the screen.
#[derive(Clone, Copy, PartialEq, Eq, Debug, Structural)]
pub struct Areas {
    pub tabs: Rect,
    pub status: Rect,
    pub panel: Rect,
    pub footer: Rect,
    /// The help, where it is open.
    pub help: Option<Rect>,
}

/// The width of the help.
pub const HELP_WIDTH: u16 = 64;

/// From top to bottom: one row for the top bar, the panel, one row for the foot.
pub open spec fn screen_sizes() -> Seq<Size> {
    seq![Size::Length(1), Size::Min(0), Size::Length(1)]
}

/// From left to right in the top bar: the tabs, and what the status takes.
pub open spec fn top_bar_sizes(status_width: u16) -> Seq<Size> {
    seq![Size::Min(0), Size::Length(status_width)]
}

/// The rows that the screen is split into.
pub fn screen_rows() -> (sizes: Vec<Size>)
    ensures
        sizes@ == screen_sizes(),
{
    vec![Size::Length(1), Size::Min(0), Size::Length(1)]
}

/// The columns that the top bar is split into.
pub fn top_bar_columns(status_width: u16) -> (sizes: Vec<Size>)
    ensures
        sizes@ == top_bar_sizes(status_width),
{
    vec![Size::Min(0), Size::Length(status_width)]
}

/// The help fits on the screen's coordinates.
pub open spec fn help_fits(area: Rect) -> bool {
    &&& centered_start(area.x, HELP_WIDTH, area.width) <= u16::MAX
    &&& centered_start(area.y, (HELP_HEIGHT + 2) as u16, area.height) <= u16::MAX
}

/// Where the help stands: in the middle, with a border around its lines.
pub open spec fn is_help_area(help: Rect, area: Rect) -> bool {
    &&& help.width == smaller(HELP_WIDTH, area.width)
    &&& help.height == smaller((HELP_HEIGHT + 2) as u16, area.height)
    &&& help.x == centered_start(area.x, HELP_WIDTH, area.width)
    &&& help.y == centered_start(area.y, (HELP_HEIGHT + 2) as u16, area.height)
}

/// The parts of the screen, by how it and its top bar were split.
pub fn arrange(area: Rect, rows: &[Rect], top: &[Rect], show_help: bool) -> (a: Areas)
    requires
        rows@.len() == 3,
        top@.len() == 2,
        show_help ==> help_fits(area),
    ensures
        a.tabs == top@[0],
        a.status == top@[1],
        a.panel == rows@[1],
        a.footer == rows@[2],
        a.help is Some <==> show_help,
        a.help matches Some(help) ==> is_help_area(help, area),
{
    Areas {
        tabs: top[0],
        status: top[1],
        panel: rows[1],
        footer: rows[2],
        help: if show_help {
            Some(centered_rect(HELP_WIDTH, HELP_HEIGHT + 2, area))
        } else {
            None
        },
    }
}

/// A part of the screen lies inside it.
pub open spec fn on_screen(part: Rect, area: Rect) -> bool {
    inside(part, area, Axis::Vertical) && inside(part, area, Axis::Horizontal)
}

/// Splits the screen up, from top to bottom into the top bar, the panel and the foot. The top bar
/// takes the first row: the tabs, and at its right end the status, as wide as it is or as the
/// screen is. The foot takes the last row, the panel all between, and the help is in the middle of
/// the screen. On a screen of one row there is no panel; whether the top bar or the foot is shown
/// is for the layout to say.
pub fn place(area: Rect, status_width: u16, show_help: bool) -> (a: Areas)
    requires
        show_help ==> help_fits(area),
    ensures
        across(a.panel, Axis::Vertical) == across(area, Axis::Vertical),
        across(a.footer, Axis::Vertical) == across(area, Axis::Vertical),
        across(a.tabs, Axis::Horizontal) == across(a.status, Axis::Horizontal),
        on_screen(a.tabs, area),
        on_screen(a.status, area),
        on_screen(a.panel, area),
        on_screen(a.footer, area),
        area.y + area.height <= u16::MAX ==> {
            &&& a.tabs.y == area.y
            &&& a.panel.y == area.y + a.tabs.height
            &&& a.footer.y == a.panel.y + a.panel.height
            &&& a.footer.y + a.footer.height == area.y + area.height
            &&& area.height == 1 ==> a.panel.height == 0
            &&& area.height >= 2 ==> {
                &&& a.tabs.height == 1
                &&& a.panel.height == area.height - 2
                &&& a.footer.height == 1
            }
        },
        area.x + area.width <= u16::MAX ==> {
            let taken = smaller(status_width, area.width);
            &&& a.tabs.x == area.x
            &&& a.tabs.width == area.width - taken
            &&& a.status.x == area.x + area.width - taken
            &&& a.status.width == taken
        },
        a.help is Some <==> show_help,
        a.help matches Some(help) ==> is_help_area(help, area),
{
    let rows = split(area, Axis::Vertical, screen_rows().as_slice());
    let top = split(rows[0], Axis::Horizontal, top_bar_columns(status_width).as_slice());
    proof {
        reveal_with_fuel(asked, 4);
        reveal_with_fuel(cells, 4);
        assert(only_min(screen_sizes(), 1));
        assert(only_min(top_bar_sizes(status_width), 0));
        assert(across(rows@[0], Axis::Vertical) == across(area, Axis::Vertical));
        assert(inside(rows@[0], area, Axis::Vertical));
        assert(inside(rows@[1], area, Axis::Vertical) && inside(rows@[2], area, Axis::Vertical));
        assert(inside(top@[0], rows@[0], Axis::Horizontal));
        assert(inside(top@[1], rows@[0], Axis::Horizontal));
    }
    arrange(area, rows.as_slice(), top.as_slice(), show_help)
}

/// The widths of a panel's columns.
pub open spec fn column_sizes(tab: Tab) -> Seq<Size> {
    match tab {
        Tab::Events => seq![
            Size::Length(10),
            Size::Min(20),
            Size::Length(6),
            Size::Length(39),
            Size::Length(8),
            Size::Length(14),
        ],
        Tab::Cache => seq![
            Size::Length(10),
            Size::Length(39),
            Size::Min(20),
            Size::Length(8),
            Size::Length(10),
            Size::Length(10),
        ],
    }
}

/// The widths of a panel's columns.
pub fn column_widths(tab: Tab) -> (sizes: Vec<Size>)
    ensures
        sizes@ == column_sizes(tab),
{
    match tab {
        Tab::Events => vec![
            Size::Length(10),
            Size::Min(20),
            Size::Length(6),
            Size::Length(39),
            Size::Length(8),
            Size::Length(14),
        ],
        Tab::Cache => vec![
            Size::Length(10),
            Size::Length(39),
            Size::Min(20),
            Size::Length(8),
            Size::Length(10),
            Size::Length(10),
        ],
    }
}

} // verus!
