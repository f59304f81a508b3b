//! The screen's regions: a header, the filesystem and treemap panels, the
//! details and activity panels, and a footer. The constraint solving is
//! `ratatui`'s; the adjustments around it are made here.
use crate::treemap::Rect;
use ratatui::layout::{Constraint, Direction, Layout};
use vstd::prelude::*;

verus! {

/// The axis along which an area is split.
#[derive(Clone, Copy, Debug, PartialEq, Eq, Structural)]
pub enum LayoutDirection {
    Horizontal,
    Vertical,
}

/// A size constraint on one part of a split.
#[derive(Clone, Copy, Debug, PartialEq, Eq, Structural)]
pub enum LayoutConstraint {
    /// Exactly this many cells.
    Length(u16),
    /// At least this many cells.
    Min(u16),
    /// This percentage of the area.
    Percentage(u16),
}

/// Where a rectangle starts along the axis.
pub open spec fn axis_start(d: LayoutDirection, r: Rect) -> int {
    match d {
        LayoutDirection::Horizontal => r.x as int,
        LayoutDirection::Vertical => r.y as int,
    }
}

/// Where a rectangle ends along the axis (saturating at `u16::MAX`, as
/// `Rect::right` and `Rect::bottom` do).
pub open spec fn axis_end(d: LayoutDirection, r: Rect) -> int {
    let e = match d {
        LayoutDirection::Horizontal => r.x + r.width,
        LayoutDirection::Vertical => r.y + r.height,
    };
    if e > u16::MAX {
        u16::MAX as int
    } else {
        e
    }
}

/// The parts of a split: each spans the area across the axis, lies within it
/// along the axis, and each part ends no later than the next one starts.
pub open spec fn split_fits(d: LayoutDirection, area: Rect, parts: Seq<Rect>) -> bool {
    &&& forall|k: int|
        0 <= k < parts.len() ==> match d {
            LayoutDirection::Horizontal => (#[trigger] parts[k]).y == area.y && parts[k].height
                == area.height,
            LayoutDirection::Vertical => (#[trigger] parts[k]).x == area.x && parts[k].width == area.width,
        }
    &&& forall|k: int|
        0 <= k < parts.len() ==> axis_start(d, area) <= axis_start(d, #[trigger] parts[k]) && axis_start(
            d,
            parts[k],
        ) + match d {
            LayoutDirection::Horizontal => parts[k].width as int,
            LayoutDirection::Vertical => parts[k].height as int,
        } <= axis_end(d, area)
    &&& forall|k: int, l: int|
        0 <= k < l < parts.len() ==> axis_start(d, #[trigger] parts[k]) + match d {
            LayoutDirection::Horizontal => parts[k].width as int,
            LayoutDirection::Vertical => parts[k].height as int,
        } <= axis_start(d, #[trigger] parts[l])
}

/// What `ratatui::layout::Layout::split` makes of an area under the given
/// direction and constraints (with no margin or spacing).
pub uninterp spec fn spec_layout_split(
    d: LayoutDirection,
    constraints: Seq<LayoutConstraint>,
    area: Rect,
) -> Seq<Rect>;

/// Calls `ratatui::layout::Layout::split` on a default layout with the given
/// direction and constraints. Claims that the parts are the named ones, one
/// per constraint, and that they fit the area as `split_fits` says: the
/// crate builds each part across the whole area, and its solver is given the
/// required constraints that every boundary lies within the area and that
/// the boundaries come in order.
#[verifier::external_body]
fn layout_split(d: LayoutDirection, constraints: &Vec<LayoutConstraint>, area: Rect) -> (r: Vec<Rect>)
    ensures
        r@ == spec_layout_split(d, constraints@, area),
        r@.len() == constraints@.len(),
        split_fits(d, area, r@),
{
    let direction = match d {
        LayoutDirection::Horizontal => Direction::Horizontal,
        LayoutDirection::Vertical => Direction::Vertical,
    };
    let cs: Vec<Constraint> = constraints.iter().map(|c| match c {
        LayoutConstraint::Length(n) => Constraint::Length(*n),
        LayoutConstraint::Min(n) => Constraint::Min(*n),
        LayoutConstraint::Percentage(n) => Constraint::Percentage(*n),
    }).collect();
    let a = ratatui::layout::Rect { x: area.x, y: area.y, width: area.width, height: area.height };
    let parts = Layout::default().direction(direction).constraints(cs).split(a);
    parts.iter().map(|p| Rect { x: p.x, y: p.y, width: p.width, height: p.height }).collect()
}

/// Named layout regions that divide the main screen.
#[derive(Clone, Copy, Debug, PartialEq, Eq, Structural)]
pub struct LayoutRegions {
    pub header: Rect,
    pub tree: Rect,
    pub treemap: Rect,
    pub details: Rect,
    pub activity: Rect,
    pub footer: Rect,
}

/// The rows of the screen: a 3-row header, the body, a 2-row footer.
pub open spec fn screen_rows(area: Rect) -> Seq<Rect> {
    spec_layout_split(
        LayoutDirection::Vertical,
        seq![LayoutConstraint::Length(3), LayoutConstraint::Min(0), LayoutConstraint::Length(2)],
        area,
    )
}

/// The body split three to one between the panels above and below.
pub open spec fn body_rows(body: Rect) -> Seq<Rect> {
    spec_layout_split(
        LayoutDirection::Vertical,
        seq![LayoutConstraint::Percentage(75), LayoutConstraint::Percentage(25)],
        body,
    )
}

/// The upper and lower parts of the body, after the lower part is capped at
/// 8 rows and the rows it gives up go to the upper part.
pub open spec fn capped_rows(top: Rect, bottom: Rect) -> (Rect, Rect) {
    if bottom.height > 8 {
        let height = (top.height + bottom.height - 8) as u16;
        (Rect { height, ..top }, Rect { y: (top.y + height) as u16, height: 8, ..bottom })
    } else {
        (top, bottom)
    }
}

/// The upper part split between the filesystem panel and the treemap
/// (three to one), or given wholly to the filesystem panel.
pub open spec fn main_columns(top: Rect, show_treemap: bool) -> Seq<Rect> {
    spec_layout_split(
        LayoutDirection::Horizontal,
        if show_treemap {
            seq![LayoutConstraint::Percentage(75), LayoutConstraint::Percentage(25)]
        } else {
            seq![LayoutConstraint::Percentage(100), LayoutConstraint::Percentage(0)]
        },
        top,
    )
}

/// The lower part split evenly between details and activity.
pub open spec fn bottom_columns(bottom: Rect) -> Seq<Rect> {
    spec_layout_split(
        LayoutDirection::Horizontal,
        seq![LayoutConstraint::Percentage(50), LayoutConstraint::Percentage(50)],
        bottom,
    )
}

/// The regions of the screen.
pub open spec fn spec_split_layout(area: Rect, show_treemap: bool) -> LayoutRegions {
    let rows = screen_rows(area);
    let body = body_rows(rows[1]);
    let (top, bottom) = capped_rows(body[0], body[1]);
    let main = main_columns(top, show_treemap);
    let lower = bottom_columns(bottom);
    LayoutRegions {
        header: rows[0],
        tree: main[0],
        treemap: if show_treemap {
            main[1]
        } else {
            Rect {
                x: if main[0].x + main[0].width > u16::MAX {
                    u16::MAX
                } else {
                    (main[0].x + main[0].width) as u16
                },
                y: main[0].y,
                width: 0,
                height: main[0].height,
            }
        },
        details: lower[0],
        activity: lower[1],
        footer: rows[2],
    }
}

/// Splits the screen into its regions. When the treemap is hidden, its
/// region is an empty column at the right edge of the filesystem panel.
pub fn split_layout(area: Rect, show_treemap: bool) -> (r: LayoutRegions)
    ensures
        r == spec_split_layout(area, show_treemap),
{
    let vertical = layout_split(
        LayoutDirection::Vertical,
        &vec![LayoutConstraint::Length(3), LayoutConstraint::Min(0), LayoutConstraint::Length(2)],
        area,
    );
    assert(vertical@ == screen_rows(area));
    let center = layout_split(
        LayoutDirection::Vertical,
        &vec![LayoutConstraint::Percentage(75), LayoutConstraint::Percentage(25)],
        vertical[1],
    );
    assert(center@ == body_rows(vertical@[1]));
    let mut top = center[0];
    let mut bottom = center[1];
    if bottom.height > 8 {
        proof {
            // Both parts lie within the body, the upper one first.
            assert(top.y + top.height <= bottom.y);
            assert(bottom.y + bottom.height <= u16::MAX);
        }
        let diff = bottom.height - 8;
        bottom.height = 8;
        top.height = top.height + diff;
        bottom.y = top.y + top.height;
    }
    assert((top, bottom) == capped_rows(center@[0], center@[1]));
    let main_constraints = if show_treemap {
        vec![LayoutConstraint::Percentage(75), LayoutConstraint::Percentage(25)]
    } else {
        vec![LayoutConstraint::Percentage(100), LayoutConstraint::Percentage(0)]
    };
    let main_row = layout_split(LayoutDirection::Horizontal, &main_constraints, top);
    assert(main_row@ == main_columns(top, show_treemap));
    let bottom_split = layout_split(
        LayoutDirection::Horizontal,
        &vec![LayoutConstraint::Percentage(50), LayoutConstraint::Percentage(50)],
        bottom,
    );
    assert(bottom_split@ == bottom_columns(bottom));
    let first = main_row[0];
    let treemap = if show_treemap {
        main_row[1]
    } else {
        Rect { x: first.x.saturating_add(first.width), y: first.y, width: 0, height: first.height }
    };
    LayoutRegions {
        header: vertical[0],
        tree: first,
        treemap,
        details: bottom_split[0],
        activity: bottom_split[1],
        footer: vertical[2],
    }
}

/// A rectangle centred in `r`, taking `percent_x` of its width and
/// `percent_y` of its height: the middle of a three-way split across, taken
/// from the middle of a three-way split down.
pub open spec fn spec_centered_rect(percent_x: u16, percent_y: u16, r: Rect) -> Rect {
    let side_y = ((100 - percent_y) / 2) as u16;
    let side_x = ((100 - percent_x) / 2) as u16;
    let rows = spec_layout_split(
        LayoutDirection::Vertical,
        seq![
            LayoutConstraint::Percentage(side_y),
            LayoutConstraint::Percentage(percent_y),
            LayoutConstraint::Percentage(side_y),
        ],
        r,
    );
    spec_layout_split(
        LayoutDirection::Horizontal,
        seq![
            LayoutConstraint::Percentage(side_x),
            LayoutConstraint::Percentage(percent_x),
            LayoutConstraint::Percentage(side_x),
        ],
        rows[1],
    )[1]
}

pub fn centered_rect(percent_x: u16, percent_y: u16, r: Rect) -> (out: Rect)
    requires
        percent_x <= 100,
        percent_y <= 100,
    ensures
        out == spec_centered_rect(percent_x, percent_y, r),
{
    let side_y = (100 - percent_y) / 2;
    let rows = layout_split(
        LayoutDirection::Vertical,
        &vec![
            LayoutConstraint::Percentage(side_y),
            LayoutConstraint::Percentage(percent_y),
            LayoutConstraint::Percentage(side_y),
        ],
        r,
    );
    let side_x = (100 - percent_x) / 2;
    let cols = layout_split(
        LayoutDirection::Horizontal,
        &vec![
            LayoutConstraint::Percentage(side_x),
            LayoutConstraint::Percentage(percent_x),
            LayoutConstraint::Percentage(side_x),
        ],
        rows[1],
    );
    cols[1]
}

} // verus!
