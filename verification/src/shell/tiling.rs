//! The tiling layout: a column of master windows and a column of stacked windows.

use vstd::prelude::*;

use crate::utils::coordinates::VirtualOutputRelativeRect;
use crate::utils::geometry::{
    clamp_i32, max_i32, max_int, saturating_difference, Point, Rectangle, Size,
};
use crate::utils::text::{parse_usize, parse_usize_spec};

verus! {

/// Width of the border around each tiled window, in pixels.
pub const BORDER_WIDTH: i32 = 1;

/// A window, by the number that the compositor gave it.
pub type WindowId = u64;

/// Division that rounds towards zero.
pub open spec fn trunc_div(a: int, b: int) -> int {
    if a >= 0 {
        a / b
    } else {
        -((-a) / b)
    }
}

/// Height that is left for the windows of a column of `count` windows, once each
/// has its border and the column its closing one.
pub open spec fn column_space(height: int, count: int) -> int {
    height - (count + 1) * BORDER_WIDTH
}

/// Height of every window of a column but the first.
pub open spec fn base_height(height: int, count: int) -> int {
    trunc_div(column_space(height, count), count)
}

/// Height of the first window of a column, which takes the pixels left over.
pub open spec fn first_height(height: int, count: int) -> int {
    column_space(height, count) - (count - 1) * base_height(height, count)
}

/// Height of the `i`-th window of a column.
pub open spec fn window_height(height: int, count: int, i: int) -> int {
    if i == 0 {
        first_height(height, count)
    } else {
        base_height(height, count)
    }
}

/// Top edge of the `i`-th window of a column, measured from the top of the area.
pub open spec fn window_top(height: int, count: int, i: int) -> int {
    if i == 0 {
        BORDER_WIDTH as int
    } else {
        BORDER_WIDTH + first_height(height, count) + BORDER_WIDTH + (i - 1) * (base_height(
            height,
            count,
        ) + BORDER_WIDTH)
    }
}

/// Rectangle of the `i`-th window of a column that starts `left` pixels into the
/// area and is `width` pixels wide. No window gets smaller than a pixel.
pub open spec fn column_rect(area: Rectangle, left: int, width: int, count: int, i: int) -> Rectangle {
    Rectangle {
        loc: Point {
            x: clamp_i32(area.loc.x + left) as i32,
            y: clamp_i32(area.loc.y + window_top(area.size.h as int, count, i)) as i32,
        },
        size: Size {
            w: clamp_i32(max_int(width, 1)) as i32,
            h: clamp_i32(max_int(window_height(area.size.h as int, count, i), 1)) as i32,
        },
    }
}

/// Width left for windows in two columns, between their three borders.
pub open spec fn two_column_space(width: int) -> int {
    clamp_i32(width - 3 * BORDER_WIDTH)
}

/// Width of the master column when there are two.
pub open spec fn master_width(master_share: int) -> int {
    max_int(master_share, 1)
}

/// Width of the stack column.
pub open spec fn stack_width(width: int, master_share: int) -> int {
    max_int(two_column_space(width) - master_width(master_share), 1)
}

/// Rectangle of the `i`-th of `n` windows.
pub open spec fn tile_rect(area: Rectangle, n_master: int, master_share: int, n: int, i: int) -> Rectangle {
    if n <= n_master {
        column_rect(area, BORDER_WIDTH as int, area.size.w - 2 * BORDER_WIDTH, n, i)
    } else if i < n_master {
        column_rect(area, BORDER_WIDTH as int, master_width(master_share), n_master, i)
    } else {
        column_rect(
            area,
            BORDER_WIDTH + master_width(master_share) + BORDER_WIDTH,
            stack_width(area.size.w as int, master_share),
            n - n_master,
            i - n_master,
        )
    }
}

/// Division that rounds towards zero.
fn truncated_quotient(a: i128, b: i128) -> (r: i128)
    requires
        b > 0,
        a > i128::MIN,
    ensures
        r == trunc_div(a as int, b as int),
{
    if a >= 0 {
        a / b
    } else {
        let q: i128 = (-a) / b;
        proof {
            let p = -(a as int);
            let d = b as int;
            assert(0 <= p / d <= p) by (nonlinear_arith)
                requires
                    p >= 0,
                    d >= 1,
            ;
        }
        -q
    }
}

/// The number nearest to `v` that fits in an `i32`.
fn narrow(v: i128) -> (r: i32)
    ensures
        r == clamp_i32(v as int),
{
    if v < i32::MIN as i128 {
        i32::MIN
    } else if v > i32::MAX as i128 {
        i32::MAX
    } else {
        v as i32
    }
}

/// Bounds that keep the arithmetic of a column far inside 128 bits.
proof fn lemma_column_bounds(height: int, count: int, i: int)
    requires
        i32::MIN <= height <= i32::MAX,
        1 <= count <= u64::MAX,
        0 <= i < count,
    ensures
        -0x2_0000_0000_0000_0000 <= column_space(height, count) <= 0x8000_0000,
        -0x8000_0002 <= base_height(height, count) <= 0x8000_0000,
        (base_height(height, count) + BORDER_WIDTH) * (i - 1) <= 0x8000_0000_0000_0000_0000_0000_0000,
        (base_height(height, count) + BORDER_WIDTH) * (i - 1) >= -0x8000_0000_0000_0000_0000_0000_0000,
        (count - 1) * base_height(height, count) <= 0x8000_0000_0000_0000_0000_0000_0000,
        (count - 1) * base_height(height, count) >= -0x8000_0000_0000_0000_0000_0000_0000,
{
    let space = column_space(height, count);
    let base = base_height(height, count);
    assert(-0x8000_0002 <= base <= 0x8000_0000) by {
        if space >= 0 {
            assert(0 <= space / count <= space) by (nonlinear_arith)
                requires
                    space >= 0,
                    count >= 1,
            ;
        } else {
            let p = -space;
            assert(p <= 0x8000_0000 + count + 1);
            assert(p / count <= 0x8000_0002) by (nonlinear_arith)
                requires
                    0 < p <= 0x8000_0000 + count + 1,
                    count >= 1,
            {
                assert(p <= 0x8000_0002 * count);
            }
            assert(p / count >= 0) by (nonlinear_arith)
                requires
                    p >= 0,
                    count >= 1,
            ;
        }
    }
    let step = base + BORDER_WIDTH;
    assert(step * (i - 1) <= 0x1_0000_0000 * 0x1_0000_0000_0000_0000 && step * (i - 1)
        >= -0x1_0000_0000 * 0x1_0000_0000_0000_0000) by (nonlinear_arith)
        requires
            -0x1_0000_0000 <= step <= 0x1_0000_0000,
            -1 <= i - 1 <= 0x1_0000_0000_0000_0000,
    ;
    assert((count - 1) * base <= 0x1_0000_0000 * 0x1_0000_0000_0000_0000 && (count - 1) * base
        >= -0x1_0000_0000 * 0x1_0000_0000_0000_0000) by (nonlinear_arith)
        requires
            -0x1_0000_0000 <= base <= 0x1_0000_0000,
            0 <= count - 1 <= 0x1_0000_0000_0000_0000,
    ;
}

/// Computes the rectangle of one window of a column.
fn place_in_column(area: &Rectangle, left: i64, width: i64, count: usize, i: usize) -> (r: Rectangle)
    requires
        i < count,
        -0x4_0000_0000 <= left <= 0x4_0000_0000,
    ensures
        r == column_rect(*area, left as int, width as int, count as int, i as int),
{
    proof {
        lemma_column_bounds(area.size.h as int, count as int, i as int);
    }
    let border: i128 = BORDER_WIDTH as i128;
    let space: i128 = area.size.h as i128 - (count as i128 + 1) * border;
    let base: i128 = truncated_quotient(space, count as i128);
    let first: i128 = space - (count as i128 - 1) * base;
    let h: i128 = if i == 0 {
        first
    } else {
        base
    };
    let top: i128 = if i == 0 {
        border
    } else {
        proof {
            assert((i - 1) * (base + border) == (base + border) * (i - 1)) by (nonlinear_arith);
        }
        border + first + border + (i as i128 - 1) * (base + border)
    };
    Rectangle {
        loc: Point {
            x: narrow(area.loc.x as i128 + left as i128),
            y: narrow(area.loc.y as i128 + top),
        },
        size: Size {
            w: narrow(
                if width > 1 {
                    width as i128
                } else {
                    1
                },
            ),
            h: narrow(
                if h > 1 {
                    h
                } else {
                    1
                },
            ),
        },
    }
}

/// The master/stack layout of one workspace.
#[derive(Debug)]
pub struct TilingLayout {
    /// Number of windows in the master column.
    n_master: usize,
    /// Area that windows are tiled in, with exclusive zones left out.
    available_area: VirtualOutputRelativeRect,
}

impl TilingLayout {
    /// Number of windows in the master column.
    pub closed spec fn master_count(self) -> usize {
        self.n_master
    }

    /// Area that windows are tiled in.
    pub closed spec fn area(self) -> VirtualOutputRelativeRect {
        self.available_area
    }

    /// The number of master windows that a setting asks for; one, where the setting
    /// is absent or no number.
    pub open spec fn master_setting(n_master: Option<Seq<char>>) -> usize {
        match n_master {
            Some(text) => match parse_usize_spec(text) {
                Some(n) => n,
                None => 1,
            },
            None => 1,
        }
    }

    /// A layout of the given area. `n_master` is the text of the setting for the
    /// number of master windows, where there is one.
    pub fn new(available_area: VirtualOutputRelativeRect, n_master: Option<&str>) -> (r: TilingLayout)
        ensures
            r.area() == available_area,
            r.master_count() == TilingLayout::master_setting(
                match n_master {
                    Some(text) => Some(text@),
                    None => None,
                },
            ),
    {
        let count: usize = match n_master {
            Some(text) => match parse_usize(text) {
                Some(n) => n,
                None => 1,
            },
            None => 1,
        };
        TilingLayout { n_master: count, available_area }
    }

    /// Width that the two columns share, borders left out. The caller multiplies it
    /// by the master factor and rounds up, which gives the `master_share` of `tile`.
    pub fn two_column_width(&self) -> (r: i32)
        ensures
            r == two_column_space(self.area().0.size.w as int),
    {
        saturating_difference(self.available_area.0.size.w, 3 * BORDER_WIDTH)
    }

    /// Positions all windows: the first ones in the master column on the left, the
    /// rest in the stack on the right, each paired with its rectangle, in order.
    pub fn tile(&self, windows: &Vec<WindowId>, master_share: i32) -> (r: Vec<(WindowId, Rectangle)>)
        ensures
            r@ == Seq::new(
                windows@.len(),
                |i: int|
                    (
                        windows@[i],
                        tile_rect(
                            self.area().0,
                            self.master_count() as int,
                            master_share as int,
                            windows@.len() as int,
                            i,
                        ),
                    ),
            ),
    {
        let n: usize = windows.len();
        let area = self.available_area.as_rectangle();
        let border: i64 = BORDER_WIDTH as i64;
        let total: i32 = self.two_column_width();
        let master_w: i32 = max_i32(master_share, 1);
        let stack_left: i64 = total as i64 - master_w as i64;
        let stack_w: i64 = if stack_left > 1 {
            stack_left
        } else {
            1
        };
        let mut positions: Vec<(WindowId, Rectangle)> = Vec::new();
        let mut i: usize = 0;
        while i < n
            invariant
                n == windows@.len(),
                i <= n,
                area == self.area().0,
                border == BORDER_WIDTH,
                master_w == master_width(master_share as int),
                stack_w == stack_width(area.size.w as int, master_share as int),
                positions@.len() == i,
                forall|j: int|
                    0 <= j < i ==> #[trigger] positions@[j] == (
                        windows@[j],
                        tile_rect(
                            self.area().0,
                            self.master_count() as int,
                            master_share as int,
                            n as int,
                            j,
                        ),
                    ),
            decreases n - i,
        {
            let rect = if n <= self.n_master {
                place_in_column(&area, border, area.size.w as i64 - 2 * border, n, i)
            } else if i < self.n_master {
                place_in_column(&area, border, master_w as i64, self.n_master, i)
            } else {
                place_in_column(
                    &area,
                    border + master_w as i64 + border,
                    stack_w,
                    n - self.n_master,
                    i - self.n_master,
                )
            };
            positions.push((windows[i], rect));
            i = i + 1;
        }
        assert(positions@ =~= Seq::new(
            windows@.len(),
            |i: int|
                (
                    windows@[i],
                    tile_rect(
                        self.area().0,
                        self.master_count() as int,
                        master_share as int,
                        windows@.len() as int,
                        i,
                    ),
                ),
        ));
        positions
    }

    /// Adds `delta` to the number of master windows, stopping at zero and at the
    /// largest count.
    pub fn inc_n_master(&mut self, delta: i32)
        ensures
            final(self).area() == old(self).area(),
            final(self).master_count() == (if old(self).master_count() + delta < 0 {
                0
            } else if old(self).master_count() + delta > usize::MAX {
                usize::MAX as int
            } else {
                old(self).master_count() + delta
            }),
    {
        if delta > 0 {
            self.n_master = self.n_master.saturating_add(delta as usize);
        } else {
            let magnitude: i64 = -(delta as i64);
            self.n_master = self.n_master.saturating_sub(magnitude as usize);
        }
    }

    /// Changes the area, for when an output or an exclusive zone changes.
    pub fn set_available_area(&mut self, area: VirtualOutputRelativeRect)
        ensures
            final(self).area() == area,
            final(self).master_count() == old(self).master_count(),
    {
        self.available_area = area;
    }

    /// Number of windows in the master column.
    pub fn n_master(&self) -> (r: usize)
        ensures
            r == self.master_count(),
    {
        self.n_master
    }
}

/// Every window is at least one pixel wide and high.
pub proof fn law_tiles_not_empty(area: Rectangle, n_master: int, master_share: int, n: int, i: int)
    ensures
        tile_rect(area, n_master, master_share, n, i).size.w >= 1,
        tile_rect(area, n_master, master_share, n, i).size.h >= 1,
{
}

proof fn lemma_base_height_positive(height: int, count: int)
    requires
        count >= 1,
        column_space(height, count) >= count,
    ensures
        base_height(height, count) >= 1,
        first_height(height, count) >= base_height(height, count),
        first_height(height, count) - base_height(height, count) < count,
{
    let space = column_space(height, count);
    let base = base_height(height, count);
    assert(base >= 1) by (nonlinear_arith)
        requires
            space >= count,
            count >= 1,
            base == space / count,
    ;
    assert(space - (count - 1) * base >= base && space - (count - 1) * base - base < count)
        by (nonlinear_arith)
        requires
            space >= 0,
            count >= 1,
            base == space / count,
    ;
}

/// The windows of a column fill its height: the first one starts below the border,
/// each next one starts a border below the one before, and the last one ends a
/// border above the bottom. Their heights differ by less than the number of windows.
pub proof fn law_column_fills_height(height: int, count: int, i: int)
    requires
        count >= 1,
        0 <= i < count,
        column_space(height, count) >= count,
    ensures
        window_top(height, count, 0) == BORDER_WIDTH,
        i + 1 < count ==> window_top(height, count, i + 1) == window_top(height, count, i)
            + window_height(height, count, i) + BORDER_WIDTH,
        window_top(height, count, count - 1) + window_height(height, count, count - 1)
            + BORDER_WIDTH == height,
        window_height(height, count, i) >= 1,
        0 <= first_height(height, count) - base_height(height, count) < count,
{
    lemma_base_height_positive(height, count);
    let base = base_height(height, count);
    let first = first_height(height, count);
    let step = base + BORDER_WIDTH;
    assert(i * step == (i - 1) * step + step) by (nonlinear_arith);
    assert(0 * step == 0);
    let space = column_space(height, count);
    assert((count + 1) * BORDER_WIDTH == count + 1);
    assert(space == height - (count + 1));
    assert(first == space - (count - 1) * base);
    if count > 1 {
        assert((count - 2) * step + base == (count - 1) * base + (count - 2)) by (nonlinear_arith)
            requires
                step == base + 1,
        ;
        assert(window_top(height, count, count - 1) == 2 + first + (count - 2) * step);
        assert(window_height(height, count, count - 1) == base);
    } else {
        assert((count - 1) * base == 0) by (nonlinear_arith)
            requires
                count == 1,
        ;
        assert(window_top(height, count, 0) == 1);
        assert(window_height(height, count, 0) == first);
    }
}

proof fn lemma_top_grows(height: int, count: int, i: int, j: int)
    requires
        count >= 1,
        0 <= i < j < count,
        column_space(height, count) >= count,
    ensures
        window_top(height, count, i) + window_height(height, count, i) + BORDER_WIDTH
            <= window_top(height, count, j),
    decreases j - i,
{
    law_column_fills_height(height, count, i);
    if i + 1 < j {
        lemma_top_grows(height, count, i + 1, j);
        law_column_fills_height(height, count, i + 1);
    }
}

/// Whether there is at least one pixel between the two rectangles, across or down.
pub open spec fn apart(a: Rectangle, b: Rectangle) -> bool {
    ||| a.right() + BORDER_WIDTH <= b.loc.x
    ||| b.right() + BORDER_WIDTH <= a.loc.x
    ||| a.bottom() + BORDER_WIDTH <= b.loc.y
    ||| b.bottom() + BORDER_WIDTH <= a.loc.y
}

/// Whether the area has room for its windows: a pixel of height for each, and a pixel of width
/// left for the stack.
pub open spec fn has_room_for(area: Rectangle, n_master: int, master_share: int, n: int) -> bool {
    &&& n <= n_master ==> column_space(area.size.h as int, n) >= n && area.size.w - 2
        * BORDER_WIDTH >= 1
    &&& n > n_master > 0 ==> column_space(area.size.h as int, n_master) >= n_master
    &&& n > n_master ==> column_space(area.size.h as int, n - n_master) >= n - n_master
        && two_column_space(area.size.w as int) - master_width(master_share) >= 1
}

/// Every window lies inside the area, with at least a pixel around it, as long as the area has
/// room for its windows.
pub proof fn law_tile_inside(area: Rectangle, n_master: int, master_share: int, n: int, i: int)
    requires
        area.regular(),
        0 <= n_master,
        0 <= i < n,
        has_room_for(area, n_master, master_share, n),
    ensures
        ({
            let r = tile_rect(area, n_master, master_share, n, i);
            &&& area.loc.x < r.loc.x
            &&& r.right() < area.right()
            &&& area.loc.y < r.loc.y
            &&& r.bottom() < area.bottom()
        }),
{
    let h = area.size.h as int;
    if n <= n_master {
        lemma_window_inside(h, n, i);
    } else if i < n_master {
        lemma_window_inside(h, n_master, i);
    } else {
        lemma_window_inside(h, n - n_master, i - n_master);
    }
}

/// There is a border of at least a pixel between any two tiled windows, so that none overlap,
/// as long as the area has room for its windows.
pub proof fn law_tiles_disjoint(area: Rectangle, n_master: int, master_share: int, n: int, i: int, j: int)
    requires
        area.regular(),
        0 <= n_master,
        0 <= i < n,
        0 <= j < n,
        i != j,
        has_room_for(area, n_master, master_share, n),
    ensures
        apart(
            tile_rect(area, n_master, master_share, n, i),
            tile_rect(area, n_master, master_share, n, j),
        ),
        !tile_rect(area, n_master, master_share, n, i).spec_overlaps(
            tile_rect(area, n_master, master_share, n, j),
        ),
{
    let h = area.size.h as int;
    if n <= n_master {
        lemma_window_inside(h, n, i);
        lemma_window_inside(h, n, j);
        if i < j {
            lemma_top_grows(h, n, i, j);
        } else {
            lemma_top_grows(h, n, j, i);
        }
    } else {
        if i < n_master {
            lemma_window_inside(h, n_master, i);
        } else {
            lemma_window_inside(h, n - n_master, i - n_master);
        }
        if j < n_master {
            lemma_window_inside(h, n_master, j);
        } else {
            lemma_window_inside(h, n - n_master, j - n_master);
        }
        if i < n_master && j < n_master {
            if i < j {
                lemma_top_grows(h, n_master, i, j);
            } else {
                lemma_top_grows(h, n_master, j, i);
            }
        } else if i >= n_master && j >= n_master {
            if i < j {
                lemma_top_grows(h, n - n_master, i - n_master, j - n_master);
            } else {
                lemma_top_grows(h, n - n_master, j - n_master, i - n_master);
            }
        }
    }
}

proof fn lemma_window_inside(height: int, count: int, i: int)
    requires
        count >= 1,
        0 <= i < count,
        column_space(height, count) >= count,
    ensures
        BORDER_WIDTH <= window_top(height, count, i),
        window_top(height, count, i) + window_height(height, count, i) + BORDER_WIDTH <= height,
        1 <= window_height(height, count, i) <= height,
{
    law_column_fills_height(height, count, i);
    if i > 0 {
        lemma_top_grows(height, count, 0, i);
        law_column_fills_height(height, count, 0);
    }
    if i + 1 < count {
        lemma_top_grows(height, count, i, count - 1);
        law_column_fills_height(height, count, count - 1);
    }
}

/// The columns fill the width of the area. If all windows are masters, each starts a border
/// right of the left edge and ends a border left of the right edge. If there are two columns,
/// the masters start a border right of the left edge and are as wide as their share; the
/// others start a border right of the masters and end a border left of the right edge.
pub proof fn law_columns_fill_width(area: Rectangle, n_master: int, master_share: int, n: int, i: int)
    requires
        area.regular(),
        0 <= i < n,
        n <= n_master ==> area.size.w > 2 * BORDER_WIDTH,
        n > n_master ==> master_share >= 1 && area.size.w > master_share + 3 * BORDER_WIDTH,
    ensures
        ({
            let r = tile_rect(area, n_master, master_share, n, i);
            let left = r.loc.x - area.loc.x;
            let right = area.loc.x + area.size.w - (r.loc.x + r.size.w);
            &&& n <= n_master ==> left == BORDER_WIDTH && right == BORDER_WIDTH
            &&& n > n_master && i < n_master ==> left == BORDER_WIDTH && r.size.w == master_share
            &&& n > n_master && i >= n_master ==> left == master_share + 2 * BORDER_WIDTH && right
                == BORDER_WIDTH
        }),
{
}

/// The columns fill the height of the area. The first window of a column starts a border below
/// the upper edge, each next one a border below the one before, and the last one ends a border
/// above the lower edge. Those after the first are equally high, and the first is higher by
/// less than a pixel for each window of the column.
pub proof fn law_columns_fill_area_height(
    area: Rectangle,
    n_master: int,
    master_share: int,
    n: int,
    i: int,
)
    requires
        area.regular(),
        0 <= n_master,
        0 <= i < n,
        has_room_for(area, n_master, master_share, n),
    ensures
        ({
            let r = tile_rect(area, n_master, master_share, n, i);
            let next = tile_rect(area, n_master, master_share, n, i + 1);
            let first = i == 0 || n > n_master && i == n_master;
            let last = i == n - 1 || n > n_master && i == n_master - 1;
            let count = if n <= n_master {
                n
            } else if i < n_master {
                n_master
            } else {
                n - n_master
            };
            &&& first ==> r.loc.y == area.loc.y + BORDER_WIDTH
            &&& last ==> r.loc.y + r.size.h + BORDER_WIDTH == area.loc.y + area.size.h
            &&& !last ==> next.loc.y == r.loc.y + r.size.h + BORDER_WIDTH && next.loc.x == r.loc.x
                && next.size.w == r.size.w
            &&& !last && !first ==> next.size.h == r.size.h
            &&& !last && first ==> 0 <= r.size.h - next.size.h < count
        }),
{
    let h = area.size.h as int;
    let (count, k) = if n <= n_master {
        (n, i)
    } else if i < n_master {
        (n_master, i)
    } else {
        (n - n_master, i - n_master)
    };
    law_column_fills_height(h, count, k);
    lemma_window_inside(h, count, k);
    if k + 1 < count {
        lemma_window_inside(h, count, k + 1);
        law_column_fills_height(h, count, k + 1);
    }
}

} // verus!
