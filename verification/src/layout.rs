//! Areas of the screen.

use vstd::prelude::*;

verus! {

/// A rectangle of the screen.
#[derive(Debug, Clone, Copy, PartialEq, Eq, Structural)]
pub struct Rect {
    pub x: u16,
    pub y: u16,
    pub width: u16,
    pub height: u16,
}

impl Rect {
    /// Whether a rectangle ends where it can be told.
    pub open spec fn wf(self) -> bool {
        &&& self.x + self.width <= u16::MAX
        &&& self.y + self.height <= u16::MAX
    }

    /// Whether a rectangle lies within another.
    pub open spec fn within(self, area: Rect) -> bool {
        &&& area.x <= self.x
        &&& self.x + self.width <= area.x + area.width
        &&& area.y <= self.y
        &&& self.y + self.height <= area.y + area.height
    }

    /// A rectangle. What would end beyond the last row or column is cut off
    /// there.
    pub fn new(x: u16, y: u16, width: u16, height: u16) -> (r: Rect)
        ensures
            r.wf(),
            r.x == x,
            r.y == y,
            r.width == if x + width <= u16::MAX {
                width as int
            } else {
                u16::MAX - x
            },
            r.height == if y + height <= u16::MAX {
                height as int
            } else {
                u16::MAX - y
            },
    {
        Rect {
            x,
            y,
            width: if width > u16::MAX - x {
                u16::MAX - x
            } else {
                width
            },
            height: if height > u16::MAX - y {
                u16::MAX - y
            } else {
                height
            },
        }
    }
}

// ---------------------------------------------------------------------------
// Dividing
// ---------------------------------------------------------------------------

/// How much of a divided area one part takes.
#[derive(Debug, Clone, Copy, PartialEq, Eq, Structural)]
pub enum Constraint {
    /// At least so many rows or columns, and whatever is left over
    Min(u16),
    /// So many rows or columns
    Length(u16),
    /// A share of the whole, in hundredths
    Percentage(u16),
}

impl Constraint {
    /// The number that a constraint gives.
    pub open spec fn number(self) -> int {
        match self {
            Constraint::Min(n) => n as int,
            Constraint::Length(n) => n as int,
            Constraint::Percentage(n) => n as int,
        }
    }
}

/// What the constraints from one on give together.
pub open spec fn total_from(rules: Seq<Constraint>, i: int) -> int
    decreases rules.len() - i,
{
    if i < 0 || i >= rules.len() {
        0
    } else {
        rules[i].number() + total_from(rules, i + 1)
    }
}

/// Whether the constraints are shares that do not exceed the whole.
pub open spec fn is_shared(rules: Seq<Constraint>) -> bool {
    &&& forall|i: int| 0 <= i < rules.len() ==> (#[trigger] rules[i]) is Percentage
    &&& total_from(rules, 0) <= 100
}

/// Whether the constraints are fixed lengths behind a part that takes what is
/// left over.
pub open spec fn is_stacked(rules: Seq<Constraint>) -> bool {
    &&& rules.len() > 0
    &&& rules[0] is Min
    &&& forall|i: int| 1 <= i < rules.len() ==> (#[trigger] rules[i]) is Length
}

/// Whether there is room for all that a few constraints ask for.
pub open spec fn has_room(rules: Seq<Constraint>, size: int) -> bool {
    &&& rules.len() <= 4
    &&& is_shared(rules) || (is_stacked(rules) && total_from(rules, 0) <= size)
}

/// Where the part of a number begins, and the one before it ends. A share is
/// rounded to the nearest row or column.
pub open spec fn edge(rules: Seq<Constraint>, from: int, size: int, i: int) -> int {
    if is_shared(rules) {
        from + (size * (total_from(rules, 0) - total_from(rules, i)) + 50) / 100
    } else if i == 0 {
        from
    } else {
        from + size - total_from(rules, i)
    }
}

/// Where a rectangle begins, by row or by column.
pub open spec fn begin_of(vertical: bool, r: Rect) -> int {
    if vertical {
        r.y as int
    } else {
        r.x as int
    }
}

/// How many rows or columns a rectangle has.
pub open spec fn size_of(vertical: bool, r: Rect) -> int {
    if vertical {
        r.height as int
    } else {
        r.width as int
    }
}

/// Whether a few fixed lengths behind a part that takes what is left over ask
/// for more than there is.
pub open spec fn is_cramped(rules: Seq<Constraint>, size: int) -> bool {
    &&& rules.len() <= 4
    &&& is_stacked(rules)
    &&& rules[0].number() <= i16::MAX
    &&& total_from(rules, 0) > size
}

/// What holds of parts for which there is too little room: they follow each
/// other without a gap from one end of the area to the other. The first has
/// its least size before the others get anything, and none of those is longer
/// than it should be.
pub open spec fn crammed(
    vertical: bool,
    rules: Seq<Constraint>,
    area: Rect,
    parts: Seq<Rect>,
) -> bool {
    let size = size_of(vertical, area);
    &&& begin_of(vertical, parts[0]) == begin_of(vertical, area)
    &&& size_of(vertical, parts[0]) == if size < rules[0].number() {
        size
    } else {
        rules[0].number()
    }
    &&& forall|i: int, j: int|
        0 <= i < j < parts.len() && j == i + 1 ==> begin_of(vertical, #[trigger] parts[j])
            == begin_of(vertical, #[trigger] parts[i]) + size_of(vertical, parts[i])
    &&& forall|i: int|
        1 <= i < parts.len() ==> size_of(vertical, #[trigger] parts[i]) <= rules[i].number()
    &&& begin_of(vertical, parts.last()) + size_of(vertical, parts.last()) == begin_of(
        vertical,
        area,
    ) + size
}

/// What holds of the parts of an area that was divided by constraints.
pub open spec fn divided(
    vertical: bool,
    rules: Seq<Constraint>,
    area: Rect,
    parts: Seq<Rect>,
) -> bool {
    &&& parts.len() == rules.len()
    &&& forall|i: int| 0 <= i < parts.len() ==> (#[trigger] parts[i]).within(area)
    &&& forall|i: int|
        0 <= i < parts.len() ==> (if vertical {
            (#[trigger] parts[i]).x == area.x && parts[i].width == area.width
        } else {
            parts[i].y == area.y && parts[i].height == area.height
        })
    &&& has_room(rules, size_of(vertical, area)) ==> forall|i: int|
        0 <= i < parts.len() ==> {
            let from = begin_of(vertical, area);
            let size = size_of(vertical, area);
            let part = #[trigger] parts[i];
            &&& begin_of(vertical, part) == edge(rules, from, size, i)
            &&& begin_of(vertical, part) + size_of(vertical, part) == edge(rules, from, size, i + 1)
        }
    &&& is_cramped(rules, size_of(vertical, area)) ==> crammed(vertical, rules, area, parts)
}

/// Calls `ratatui::layout::Layout::split` on a default layout with a direction
/// and constraints. There is one part for each constraint. The parts lie
/// within the area and are as wide as it, or as high, across the direction.
/// A few shares that do not exceed the whole begin and end at those shares of
/// it, rounded. A few fixed lengths that fit behind the least size of the
/// first part end the area, and the first part takes the rest. Where they do
/// not fit, the parts still fill the area in order: the least size of the
/// first part outweighs the lengths, and no part is longer than its length.
///
/// How several lengths share what is too little for them is left unsaid, and
/// so is how other lists of constraints lie.
#[verifier::external_body]
fn split(vertical: bool, rules: &Vec<Constraint>, area: Rect) -> (r: Vec<Rect>)
    requires
        area.wf(),
    ensures
        divided(vertical, rules@, area, r@),
{
    let layout = ratatui::layout::Layout::default().direction(if vertical {
        ratatui::layout::Direction::Vertical
    } else {
        ratatui::layout::Direction::Horizontal
    }).constraints(rules.iter().map(|rule| match *rule {
        Constraint::Min(n) => ratatui::layout::Constraint::Min(n),
        Constraint::Length(n) => ratatui::layout::Constraint::Length(n),
        Constraint::Percentage(n) => ratatui::layout::Constraint::Percentage(n),
    }));
    let parts = layout.split(ratatui::layout::Rect::new(area.x, area.y, area.width, area.height));
    parts.iter().map(|p| Rect { x: p.x, y: p.y, width: p.width, height: p.height }).collect()
}

/// What a border around an area leaves of it.
pub open spec fn inner_of(area: Rect) -> Rect {
    Rect {
        x: (if area.width == 0 {
            area.x as int
        } else {
            area.x + 1
        }) as u16,
        y: (if area.height == 0 {
            area.y as int
        } else {
            area.y + 1
        }) as u16,
        width: (if area.width < 2 {
            0
        } else {
            area.width - 2
        }) as u16,
        height: (if area.height < 2 {
            0
        } else {
            area.height - 2
        }) as u16,
    }
}

/// Calls `ratatui::widgets::Block::inner` on a block with all four borders: a
/// border takes the first and the last row and column, as far as there are
/// any.
#[verifier::external_body]
pub(crate) fn inner(area: Rect) -> (r: Rect)
    requires
        area.wf(),
    ensures
        r == inner_of(area),
{
    let block = ratatui::widgets::Block::default().borders(ratatui::widgets::Borders::ALL);
    let whole = ratatui::layout::Rect::new(area.x, area.y, area.width, area.height);
    let r = block.inner(whole);
    Rect { x: r.x, y: r.y, width: r.width, height: r.height }
}

// ---------------------------------------------------------------------------
// The screen
// ---------------------------------------------------------------------------

/// The rows of the screen: list and details, tabs, search, status.
pub open spec fn screen_rules() -> Seq<Constraint> {
    seq![Constraint::Min(3), Constraint::Length(1), Constraint::Length(3), Constraint::Length(1)]
}

/// Divides the screen into list and details, tabs, search and status.
pub fn screen_rows(area: Rect) -> (r: Vec<Rect>)
    requires
        area.wf(),
    ensures
        divided(true, screen_rules(), area, r@),
        r@.len() == 4,
        area.height >= 8 ==> r@ == seq![
            (Rect { height: (area.height - 5) as u16, ..area }),
            (Rect { y: (area.y + area.height - 5) as u16, height: 1, ..area }),
            (Rect { y: (area.y + area.height - 4) as u16, height: 3, ..area }),
            (Rect { y: (area.y + area.height - 1) as u16, height: 1, ..area }),
        ],
        area.height <= 3 ==> r@ == seq![
            area,
            (Rect { y: (area.y + area.height) as u16, height: 0, ..area }),
            (Rect { y: (area.y + area.height) as u16, height: 0, ..area }),
            (Rect { y: (area.y + area.height) as u16, height: 0, ..area }),
        ],
        3 < area.height < 8 ==> {
            &&& r@[0] == (Rect { height: 3, ..area })
            &&& r@[1].y == area.y + 3 && r@[1].height <= 1
            &&& r@[2].y == r@[1].y + r@[1].height && r@[2].height <= 3
            &&& r@[3].y == r@[2].y + r@[2].height && r@[3].height <= 1
            &&& r@[3].y + r@[3].height == area.y + area.height
        },
{
    let rules = vec![
        Constraint::Min(3),
        Constraint::Length(1),
        Constraint::Length(3),
        Constraint::Length(1),
    ];
    assert(rules@ =~= screen_rules());
    let r = split(true, &rules, area);
    proof {
        reveal_with_fuel(total_from, 5);
        if area.height >= 8 {
            assert(has_room(rules@, area.height as int));
            assert(!is_shared(rules@)) by {
                assert(rules@[0] is Min);
            }
            assert(r@ =~= seq![
                (Rect { height: (area.height - 5) as u16, ..area }),
                (Rect { y: (area.y + area.height - 5) as u16, height: 1, ..area }),
                (Rect { y: (area.y + area.height - 4) as u16, height: 3, ..area }),
                (Rect { y: (area.y + area.height - 1) as u16, height: 1, ..area }),
            ]);
        } else {
            assert(is_cramped(rules@, area.height as int));
            assert(r@[1].y == r@[0].y + r@[0].height);
            assert(r@[2].y == r@[1].y + r@[1].height);
            assert(r@[3].y == r@[2].y + r@[2].height);
            if area.height <= 3 {
                assert(r@ =~= seq![
                    area,
                    (Rect { y: (area.y + area.height) as u16, height: 0, ..area }),
                    (Rect { y: (area.y + area.height) as u16, height: 0, ..area }),
                    (Rect { y: (area.y + area.height) as u16, height: 0, ..area }),
                ]);
            }
        }
    }
    r
}

/// What the inside of a dialog is divided into: what it says, and a line at
/// the bottom where there are two rows or more.
pub open spec fn dialog_rows_of(area: Rect) -> Seq<Rect> {
    let last: int = if area.height >= 2 {
        1
    } else {
        0
    };
    seq![
        (Rect { height: (area.height - last) as u16, ..area }),
        (Rect { y: (area.y + area.height - last) as u16, height: last as u16, ..area }),
    ]
}

/// Divides the inside of a dialog into what it says and a line at the bottom.
pub fn dialog_rows(area: Rect) -> (r: Vec<Rect>)
    requires
        area.wf(),
    ensures
        r@ == dialog_rows_of(area),
{
    let rules = vec![Constraint::Min(1), Constraint::Length(1)];
    let r = split(true, &rules, area);
    proof {
        reveal_with_fuel(total_from, 3);
        assert(!is_shared(rules@)) by {
            assert(rules@[0] is Min);
        }
        if area.height >= 2 {
            assert(has_room(rules@, area.height as int));
        } else {
            assert(is_cramped(rules@, area.height as int));
            assert(r@[1].y == r@[0].y + r@[0].height);
        }
        assert(r@ =~= dialog_rows_of(area));
    }
    r
}

/// A share of a length, in hundredths, rounded to the nearest number.
pub open spec fn share(size: int, percent: int) -> int {
    (size * percent + 50) / 100
}

/// The left part of an area: a share of its columns.
pub open spec fn left_of(area: Rect, percent: int) -> Rect {
    Rect { width: share(area.width as int, percent) as u16, ..area }
}

/// The right part of an area: what the left one leaves.
pub open spec fn right_of(area: Rect, percent: int) -> Rect {
    Rect {
        x: (area.x + share(area.width as int, percent)) as u16,
        width: (area.width - share(area.width as int, percent)) as u16,
        ..area
    }
}

/// A share of a length is no longer than it.
proof fn lemma_share(size: int, percent: int)
    requires
        0 <= size,
        0 <= percent <= 100,
    ensures
        0 <= share(size, percent) <= size,
        share(size, 100) == size,
        share(size, 0) == 0,
{
    assert(0 <= size * percent <= size * 100) by (nonlinear_arith)
        requires
            0 <= size,
            0 <= percent <= 100,
    ;
}

/// A greater share is no shorter.
proof fn lemma_greater_share(size: int, a: int, b: int)
    requires
        0 <= size,
        0 <= a <= b,
    ensures
        share(size, a) <= share(size, b),
{
    assert(size * a <= size * b) by (nonlinear_arith)
        requires
            0 <= size,
            0 <= a <= b,
    ;
}

/// The left part and the right part of an area lie within it.
pub proof fn lemma_halves_within(area: Rect, percent: int)
    requires
        area.wf(),
        0 <= percent <= 100,
    ensures
        left_of(area, percent).within(area),
        right_of(area, percent).within(area),
{
    lemma_share(area.width as int, percent);
}

/// Divides an area into a left part and a right part.
pub fn halves(area: Rect, percent: u16) -> (r: (Rect, Rect))
    requires
        area.wf(),
        percent <= 100,
    ensures
        r.0 == left_of(area, percent as int),
        r.1 == right_of(area, percent as int),
        r.0.within(area),
        r.1.within(area),
{
    let rest: u16 = 100 - percent;
    let rules = vec![Constraint::Percentage(percent), Constraint::Percentage(rest)];
    let parts = split(false, &rules, area);
    proof {
        reveal_with_fuel(total_from, 3);
        assert(total_from(rules@, 0) == 100);
        assert(total_from(rules@, 1) == 100 - percent);
        assert(total_from(rules@, 2) == 0);
        assert(has_room(rules@, area.width as int));
        lemma_share(area.width as int, percent as int);
        assert(edge(rules@, area.x as int, area.width as int, 0) == area.x);
        assert(edge(rules@, area.x as int, area.width as int, 1) == area.x + share(
            area.width as int,
            percent as int,
        ));
        assert(edge(rules@, area.x as int, area.width as int, 2) == area.x + area.width);
        let first = parts@[0];
        let second = parts@[1];
        assert(first.x == area.x);
        assert(second.x == area.x + share(area.width as int, percent as int));
    }
    (parts[0], parts[1])
}

/// Where a dialog begins in a length, when it takes a share of it and stands
/// in the middle.
pub open spec fn popup_from(size: int, percent: int) -> int {
    share(size, (100 - percent) / 2)
}

/// Where a dialog ends in a length.
pub open spec fn popup_to(size: int, percent: int) -> int {
    share(size, (100 - percent) / 2 + percent)
}

/// The area of a dialog in the middle of the screen.
pub open spec fn popup_of(area: Rect, pct_x: int, pct_y: int) -> Rect {
    let w = area.width as int;
    let h = area.height as int;
    Rect {
        x: (area.x + popup_from(w, pct_x)) as u16,
        y: (area.y + popup_from(h, pct_y)) as u16,
        width: (popup_to(w, pct_x) - popup_from(w, pct_x)) as u16,
        height: (popup_to(h, pct_y) - popup_from(h, pct_y)) as u16,
    }
}

/// What the middle one of three shares gives.
proof fn lemma_middle(rules: Seq<Constraint>, from: int, size: int, side: u16, percent: u16)
    requires
        rules == seq![
            Constraint::Percentage(side),
            Constraint::Percentage(percent),
            Constraint::Percentage(side),
        ],
        percent <= 100,
        side == (100 - percent) / 2,
        0 <= size,
    ensures
        has_room(rules, size),
        edge(rules, from, size, 1) == from + popup_from(size, percent as int),
        edge(rules, from, size, 2) == from + popup_to(size, percent as int),
        0 <= popup_from(size, percent as int) <= popup_to(size, percent as int) <= size,
{
    reveal_with_fuel(total_from, 4);
    assert(total_from(rules, 3) == 0);
    assert(total_from(rules, 2) == side);
    assert(total_from(rules, 1) == side + percent);
    assert(total_from(rules, 0) == side + percent + side);
    assert(total_from(rules, 0) - total_from(rules, 1) == side);
    assert(total_from(rules, 0) - total_from(rules, 2) == side + percent);
    lemma_share(size, side as int);
    lemma_share(size, side + percent);
    lemma_greater_share(size, side as int, side + percent);
}

/// The area of a dialog in the middle of the screen, by the shares of its
/// columns and rows.
pub fn popup(area: Rect, pct_x: u16, pct_y: u16) -> (r: Rect)
    requires
        area.wf(),
        pct_x <= 100,
        pct_y <= 100,
    ensures
        r == popup_of(area, pct_x as int, pct_y as int),
        r.within(area),
        r.wf(),
{
    let side_y: u16 = (100 - pct_y) / 2;
    let rows = vec![
        Constraint::Percentage(side_y),
        Constraint::Percentage(pct_y),
        Constraint::Percentage(side_y),
    ];
    let v = split(true, &rows, area);
    proof {
        lemma_middle(rows@, area.y as int, area.height as int, side_y, pct_y);
        assert(v@[1].within(area));
    }
    let side_x: u16 = (100 - pct_x) / 2;
    let columns = vec![
        Constraint::Percentage(side_x),
        Constraint::Percentage(pct_x),
        Constraint::Percentage(side_x),
    ];
    let h = split(false, &columns, v[1]);
    proof {
        lemma_middle(columns@, area.x as int, area.width as int, side_x, pct_x);
        assert(h@[1].within(v@[1]));
    }
    h[1]
}

/// A dialog lies on the screen, and is no larger than its shares of it,
/// rounded up.
pub proof fn law_popup_lies_on_the_screen(area: Rect, pct_x: u16, pct_y: u16)
    requires
        area.wf(),
        pct_x <= 100,
        pct_y <= 100,
    ensures
        popup_of(area, pct_x as int, pct_y as int).within(area),
        popup_of(area, pct_x as int, pct_y as int).width * 100 <= area.width * pct_x + 100,
        popup_of(area, pct_x as int, pct_y as int).height * 100 <= area.height * pct_y + 100,
{
    lemma_popup_size(area.width as int, pct_x as int);
    lemma_popup_size(area.height as int, pct_y as int);
}

/// A dialog is no longer than its share of a length, rounded up.
proof fn lemma_popup_size(size: int, percent: int)
    requires
        0 <= size,
        0 <= percent <= 100,
    ensures
        0 <= popup_from(size, percent) <= popup_to(size, percent) <= size,
        (popup_to(size, percent) - popup_from(size, percent)) * 100 <= size * percent + 100,
{
    let side = (100 - percent) / 2;
    lemma_share(size, side);
    lemma_share(size, side + percent);
    lemma_greater_share(size, side, side + percent);
    assert(size * (side + percent) == size * side + size * percent) by (nonlinear_arith);
}

} // verus!
