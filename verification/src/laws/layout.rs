//! What dividing the screen promises.

use vstd::prelude::*;

use crate::layout;
use crate::layout::Rect;

verus! {

/// A border takes a row or a column from each side, as far as there are any.
pub proof fn law_inside(area: Rect)
    requires
        area.wf(),
    ensures
        layout::inner_of(area).within(area),
        area.width >= 2 && area.height >= 2 ==> layout::inner_of(area) == (Rect {
            x: (area.x + 1) as u16,
            y: (area.y + 1) as u16,
            width: (area.width - 2) as u16,
            height: (area.height - 2) as u16,
        }),
        area.width < 2 ==> layout::inner_of(area).width == 0,
        area.height < 2 ==> layout::inner_of(area).height == 0,
{
}

/// The inside of a dialog is divided without a gap: what it says, and below
/// that one line, where there are two.
pub proof fn law_dialog_rows(area: Rect)
    requires
        area.wf(),
    ensures
        ({
            let rows = layout::dialog_rows_of(area);
            let last: int = if area.height >= 2 {
                1
            } else {
                0
            };
            &&& rows.len() == 2
            &&& rows[0].x == area.x && rows[0].width == area.width
            &&& rows[1].x == area.x && rows[1].width == area.width
            &&& rows[0].y == area.y
            &&& rows[0].height == area.height - last
            &&& rows[1].y == area.y + rows[0].height
            &&& rows[1].height == last
        }),
{
}

/// A left and a right part lie side by side and fill the area; the left one
/// has its share of the columns, to the nearest.
pub proof fn law_halves(area: Rect, percent: int)
    requires
        area.wf(),
        0 <= percent <= 100,
    ensures
        ({
            let left = layout::left_of(area, percent);
            let right = layout::right_of(area, percent);
            &&& left.x == area.x
            &&& right.x == area.x + left.width
            &&& left.width + right.width == area.width
            &&& left.y == area.y && right.y == area.y
            &&& left.height == area.height && right.height == area.height
            &&& -50 <= area.width * percent - left.width * 100 <= 50
        }),
{
    lemma_share(area.width as int, percent);
}

proof fn lemma_share(size: int, percent: int)
    requires
        0 <= size,
        0 <= percent <= 100,
    ensures
        0 <= layout::share(size, percent) <= size,
        -50 <= size * percent - layout::share(size, percent) * 100 <= 50,
{
    assert(0 <= size * percent <= size * 100) by (nonlinear_arith)
        requires
            0 <= size,
            0 <= percent <= 100,
    ;
}

/// Whether a dialog lies in a length from one place to another: in the middle,
/// with its share of the length, to the nearest row or column at either end.
pub open spec fn is_middle(size: int, percent: int, from: int, to: int) -> bool {
    let side = (100 - percent) / 2;
    &&& -50 <= size * side - from * 100 <= 50
    &&& -50 <= size * (side + percent) - to * 100 <= 50
}

/// A dialog stands in the middle of the screen, with its share of it.
pub proof fn law_popup(area: Rect, pct_x: u16, pct_y: u16)
    requires
        area.wf(),
        pct_x <= 100,
        pct_y <= 100,
    ensures
        ({
            let r = layout::popup_of(area, pct_x as int, pct_y as int);
            &&& is_middle(
                area.width as int,
                pct_x as int,
                r.x - area.x,
                r.x + r.width - area.x,
            )
            &&& is_middle(
                area.height as int,
                pct_y as int,
                r.y - area.y,
                r.y + r.height - area.y,
            )
        }),
{
    layout::law_popup_lies_on_the_screen(area, pct_x, pct_y);
    lemma_ends(area.width as int, pct_x as int);
    lemma_ends(area.height as int, pct_y as int);
}

proof fn lemma_ends(size: int, percent: int)
    requires
        0 <= size,
        0 <= percent <= 100,
    ensures
        is_middle(
            size,
            percent,
            layout::popup_from(size, percent),
            layout::popup_to(size, percent),
        ),
        0 <= layout::popup_from(size, percent) <= layout::popup_to(size, percent) <= size,
{
    let side = (100 - percent) / 2;
    lemma_share(size, side);
    lemma_share(size, side + percent);
    assert(size * side <= size * (side + percent)) by (nonlinear_arith)
        requires
            0 <= size,
            0 <= percent,
    ;
}

} // verus!
