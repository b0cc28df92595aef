//! The tab bar of a workspace in tabbed mode.

use vstd::prelude::*;

use crate::shell::tiling::trunc_div;
use crate::shell::workspace::TAB_HEIGHT;
use crate::utils::geometry::{clamp_i32, saturating_difference, saturating_sum, Point, Rectangle};
use crate::utils::search::{first_below, lemma_first_below, lemma_is_first_below, lemma_none_below};

verus! {

/// Width of the line between two tabs, in pixels.
pub const SEPARATOR_WIDTH: i32 = 2;

/// Width of a tab, separator included.
pub open spec fn tab_width(width: int, count: int) -> int {
    trunc_div(width, count)
}

/// Left edge of a tab, measured from the left of the bar.
pub open spec fn tab_start(width: int, count: int, i: int) -> int {
    i * tab_width(width, count)
}

/// Width of a tab without its separator. The last tab has none, and takes all that the tabs
/// before it leave of the bar.
pub open spec fn tab_visible_width(width: int, count: int, i: int) -> int {
    if i < count - 1 {
        tab_width(width, count) - SEPARATOR_WIDTH
    } else {
        width - tab_start(width, count, count - 1)
    }
}

/// Right edge of a tab, separator left out.
pub open spec fn tab_end(width: int, count: int, i: int) -> int {
    tab_start(width, count, i) + tab_visible_width(width, count, i)
}

/// Whether a tab is at the given distance from the left of the bar.
pub open spec fn tab_covers(width: int, count: int, x: int) -> spec_fn(int) -> bool {
    |i: int| tab_start(width, count, i) <= x < tab_end(width, count, i)
}

/// The tab at the given distance from the left of the bar.
pub open spec fn tab_at(width: int, count: nat, x: int) -> Option<int> {
    first_below(count, tab_covers(width, count as int, x))
}

/// Where a pointer is, by its coordinates rounded down, up and to the nearest pixel.
#[derive(Debug, Clone, Copy, PartialEq, Eq, Structural)]
pub struct Pointer {
    pub floor: Point,
    pub ceil: Point,
    pub round: Point,
}

/// Whether the pointer is at the height of the tab bar of an area.
pub open spec fn in_bar(area: Rectangle, pointer: Pointer) -> bool {
    area.loc.y <= pointer.floor.y < clamp_i32(area.loc.y + TAB_HEIGHT)
}

/// Distance of the pointer from the left of an area, rounded towards zero.
pub open spec fn distance_in(area: Rectangle, pointer: Pointer) -> int {
    if pointer.floor.x >= area.loc.x {
        clamp_i32(pointer.floor.x - area.loc.x)
    } else {
        clamp_i32(pointer.ceil.x - area.loc.x)
    }
}

/// Whether the pointer is at the height of the tab bar of an area.
pub fn pointer_in_bar(area: &Rectangle, pointer: &Pointer) -> (r: bool)
    ensures
        r == in_bar(*area, *pointer),
{
    pointer.floor.y >= area.loc.y && pointer.floor.y < saturating_sum(area.loc.y, TAB_HEIGHT)
}

/// Distance of the pointer from the left of an area, rounded towards zero.
pub fn pointer_distance(area: &Rectangle, pointer: &Pointer) -> (r: i32)
    ensures
        r == distance_in(*area, *pointer),
{
    if pointer.floor.x >= area.loc.x {
        saturating_difference(pointer.floor.x, area.loc.x)
    } else {
        saturating_difference(pointer.ceil.x, area.loc.x)
    }
}

proof fn lemma_tab_width_bounds(width: int, count: int)
    requires
        count >= 1,
        i32::MIN <= width <= i32::MAX,
    ensures
        i32::MIN <= tab_width(width, count) <= i32::MAX,
{
    if width >= 0 {
        assert(0 <= width / count <= width) by (nonlinear_arith)
            requires
                width >= 0,
                count >= 1,
        ;
    } else {
        let p = -width;
        assert(0 <= p / count <= p) by (nonlinear_arith)
            requires
                p >= 0,
                count >= 1,
        ;
    }
}

/// Width of a tab, separator included.
pub fn width_of_tab(width: i32, count: usize) -> (r: i64)
    requires
        count >= 1,
    ensures
        r == tab_width(width as int, count as int),
        i32::MIN <= r <= i32::MAX,
{
    proof {
        lemma_tab_width_bounds(width as int, count as int);
    }
    if width >= 0 {
        (width as u128 / count as u128) as i64
    } else {
        let p: u128 = (-(width as i64)) as u128;
        let q: u128 = p / count as u128;
        -(q as i64)
    }
}

/// Left edge of a tab, measured from the left of the bar.
pub fn start_of_tab(width: i32, count: usize, i: usize) -> (r: i128)
    requires
        i < count,
    ensures
        r == tab_start(width as int, count as int, i as int),
        -0x1_0000_0000_0000_0000_0000_0000 <= r <= 0x1_0000_0000_0000_0000_0000_0000,
{
    let w: i64 = width_of_tab(width, count);
    proof {
        assert(-0x1_0000_0000 * 0x1_0000_0000_0000_0000 <= i * w <= 0x1_0000_0000
            * 0x1_0000_0000_0000_0000) by (nonlinear_arith)
            requires
                0 <= i <= 0xffff_ffff_ffff_ffff,
                -0x1_0000_0000 <= w <= 0x1_0000_0000,
        ;
    }
    i as i128 * w as i128
}

/// Width of a tab without its separator.
pub fn visible_width_of_tab(width: i32, count: usize, i: usize) -> (r: i128)
    requires
        i < count,
    ensures
        r == tab_visible_width(width as int, count as int, i as int),
        -0x2_0000_0000_0000_0000_0000_0000 <= r <= 0x2_0000_0000_0000_0000_0000_0000,
{
    if i < count - 1 {
        width_of_tab(width, count) as i128 - SEPARATOR_WIDTH as i128
    } else {
        width as i128 - start_of_tab(width, count, count - 1)
    }
}

/// Finds the tab at the given distance from the left of the bar.
pub fn find_tab(width: i32, count: usize, x: i32) -> (r: Option<usize>)
    ensures
        match r {
            Some(i) => i < count && tab_at(width as int, count as nat, x as int) == Some(i as int),
            None => tab_at(width as int, count as nat, x as int) is None,
        },
{
    let ghost p = tab_covers(width as int, count as int, x as int);
    let mut i: usize = 0;
    while i < count
        invariant
            i <= count,
            p == tab_covers(width as int, count as int, x as int),
            forall|k: int| 0 <= k < i ==> !(#[trigger] p(k)),
        decreases count - i,
    {
        let start: i128 = start_of_tab(width, count, i);
        let visible: i128 = visible_width_of_tab(width, count, i);
        if x as i128 >= start && (x as i128) < start + visible {
            proof {
                assert(p(i as int));
                lemma_is_first_below(count as nat, p, i as int);
            }
            return Some(i);
        }
        assert(!p(i as int));
        i = i + 1;
    }
    proof {
        lemma_none_below(count as nat, p);
    }
    None
}

/// The tabs and the lines between them fill the bar: the first tab starts at its left, each
/// next one starts where the line behind the one before ends, and the last one ends at its
/// right.
pub proof fn law_tabs_fill_bar(width: int, count: int, i: int)
    requires
        0 <= i < count,
    ensures
        tab_start(width, count, 0) == 0,
        i + 1 < count ==> tab_start(width, count, i + 1) == tab_end(width, count, i)
            + SEPARATOR_WIDTH,
        tab_end(width, count, count - 1) == width,
{
    let w = tab_width(width, count);
    assert((i + 1) * w == i * w + w) by (nonlinear_arith);
    assert(0 * w == 0);
}

/// A click on the bar hits the tab that its distance falls in, unless it falls on the line
/// behind that tab; then it hits none. What is left over at the right is the last tab's.
pub proof fn law_tab_under(width: int, count: nat, x: int)
    requires
        count >= 1,
        tab_width(width, count as int) > SEPARATOR_WIDTH,
        0 <= x < width,
    ensures
        ({
            let w = tab_width(width, count as int);
            let i = if x / w < count {
                x / w
            } else {
                count - 1
            };
            &&& 0 <= i < count
            &&& i < count - 1 && x % w >= w - SEPARATOR_WIDTH ==> tab_at(width, count, x) is None
            &&& !(i < count - 1 && x % w >= w - SEPARATOR_WIDTH) ==> tab_at(width, count, x) == Some(
                i,
            )
        }),
{
    let w = tab_width(width, count as int);
    let q = x / w;
    let i = if q < count {
        q
    } else {
        count - 1
    };
    let p = tab_covers(width, count as int, x);
    assert(0 <= q && x == q * w + x % w && 0 <= x % w < w) by (nonlinear_arith)
        requires
            w > 0,
            0 <= x,
            q == x / w,
    ;
    assert(i * w <= x) by (nonlinear_arith)
        requires
            w > 0,
            i <= q,
            q * w <= x,
    ;
    assert forall|j: int| 0 <= j < count && j != i implies !(#[trigger] p(j)) by {
        if j < i {
            assert(j * w + w <= i * w) by (nonlinear_arith)
                requires
                    j + 1 <= i,
                    w > 0,
            ;
        } else {
            assert(q * w + w <= j * w) by (nonlinear_arith)
                requires
                    q + 1 <= j,
                    w > 0,
            ;
        }
    }
    lemma_first_below(count, p);
    if i < count - 1 && x % w >= w - SEPARATOR_WIDTH {
        assert(!p(i));
    } else {
        assert(p(i));
    }
}

/// The tabs share the bar evenly: all but the last are equally wide, and the last is wider by
/// less than a pixel for each tab, and by the width of a line, which it has none of behind it.
/// With room for a pixel and a line each, no tab is empty and none leaves the bar.
pub proof fn law_tabs_even(width: int, count: int, i: int)
    requires
        0 <= i < count,
        width >= 0,
    ensures
        ({
            let first = tab_end(width, count, 0) - tab_start(width, count, 0);
            let here = tab_end(width, count, i) - tab_start(width, count, i);
            &&& i < count - 1 ==> here == first
            &&& count > 1 && i == count - 1 ==> 0 <= here - SEPARATOR_WIDTH - first < count
            &&& width >= (SEPARATOR_WIDTH + 1) * count ==> 0 <= tab_start(width, count, i)
                < tab_end(width, count, i) <= width
        }),
{
    let w = tab_width(width, count);
    assert(w == width / count);
    assert(0 <= width - count * w < count) by (nonlinear_arith)
        requires
            count >= 1,
            width >= 0,
            w == width / count,
    ;
    assert((count - 1) * w == count * w - w) by (nonlinear_arith);
    assert(0 * w == 0);
    assert(w >= 0) by (nonlinear_arith)
        requires
            count >= 1,
            width >= 0,
            w == width / count,
    ;
    assert(0 <= i * w <= (count - 1) * w) by (nonlinear_arith)
        requires
            0 <= i <= count - 1,
            w >= 0,
    ;
    if width >= (SEPARATOR_WIDTH + 1) * count {
        assert(w >= SEPARATOR_WIDTH + 1) by (nonlinear_arith)
            requires
                count >= 1,
                width >= 3 * count,
                w == width / count,
                SEPARATOR_WIDTH == 2,
        ;
        if i < count - 1 {
            assert(i * w + w <= (count - 1) * w) by (nonlinear_arith)
                requires
                    i + 1 <= count - 1,
                    w >= 0,
            ;
        }
    }
}

/// The pointer is on the tab bar of an area if it is within the bar's height below the upper
/// edge, and its distance from the left edge is what it is away from it.
pub proof fn law_pointer_in_bar(area: Rectangle, pointer: Pointer)
    requires
        area.regular(),
        area.size.h >= TAB_HEIGHT,
    ensures
        in_bar(area, pointer) <==> 0 <= pointer.floor.y - area.loc.y < TAB_HEIGHT,
        0 <= pointer.floor.x - area.loc.x <= i32::MAX ==> distance_in(area, pointer)
            == pointer.floor.x - area.loc.x,
{
}

} // verus!
