//! What holds of the operations of a workspace.

use vstd::prelude::*;

use crate::shell::tiling::WindowId;
use crate::shell::workspace::{lemma_tiled_frame, LayoutMode, WorkspaceView};
use crate::utils::coordinates::VirtualOutputRelativeRect;
use crate::utils::lists;
use crate::utils::lists::{
    lemma_filter_all, lemma_filter_contains, lemma_filter_no_duplicates, lemma_first_position,
};

verus! {

/// A window that is listed last is the last of the tiled ones, unless it floats or is
/// fullscreen; then it is none of them. Those before it are tiled as they were.
pub proof fn law_tiled_in_order(w: WorkspaceView, x: WindowId)
    ensures
        ({
            let longer = WorkspaceView { windows: w.windows.push(x), ..w };
            let tiled = !w.floating.contains(x) && w.fullscreen != Some(x);
            let anchored = !w.floating.contains(x);
            &&& tiled ==> longer.tiled() == w.tiled().push(x)
            &&& !tiled ==> longer.tiled() == w.tiled()
            &&& anchored ==> longer.anchored() == w.anchored().push(x)
            &&& !anchored ==> longer.anchored() == w.anchored()
        }),
        (WorkspaceView { windows: Seq::empty(), ..w }).tiled().len() == 0,
        (WorkspaceView { windows: Seq::empty(), ..w }).anchored().len() == 0,
{
    reveal(Seq::filter);
    let longer = WorkspaceView { windows: w.windows.push(x), ..w };
    let empty = WorkspaceView { windows: Seq::empty(), ..w };
    assert(longer.windows.drop_last() =~= w.windows);
    assert(longer.tiled_filter() =~= w.tiled_filter());
    assert(longer.anchored_filter() =~= w.anchored_filter());
}

/// A window is tiled exactly if it is there, does not float and is not fullscreen.
pub proof fn law_tiled_members(w: WorkspaceView, x: WindowId)
    ensures
        w.tiled().contains(x) <==> w.windows.contains(x) && !w.floating.contains(x) && w.fullscreen
            != Some(x),
        w.anchored().contains(x) <==> w.windows.contains(x) && !w.floating.contains(x),
{
    lemma_filter_contains(w.windows, w.tiled_filter(), x);
    lemma_filter_contains(w.windows, w.anchored_filter(), x);
}

/// A new workspace has its name and its number of master windows, tiles, and is empty.
pub proof fn law_empty_workspace(name: Seq<char>, master_count: usize)
    ensures
        ({
            let w = WorkspaceView::empty(name, master_count);
            &&& w.name == name
            &&& w.master_count == master_count
            &&& w.windows.len() == 0
            &&& w.focus_stack.len() == 0
            &&& w.fullscreen is None
            &&& w.virtual_output is None
            &&& w.layout_mode == LayoutMode::Tiling
            &&& w.active_tab == 0
            &&& forall|x: WindowId| !w.floating.contains(x) && !w.rectangles.contains_key(x)
        }),
{
}

/// Whether two workspaces differ in nothing but windows, their tabs, and what is due.
pub open spec fn same_setting(a: WorkspaceView, b: WorkspaceView) -> bool {
    &&& a.name == b.name
    &&& a.master_count == b.master_count
    &&& a.available_area == b.available_area
    &&& a.layout_mode == b.layout_mode
    &&& a.virtual_output == b.virtual_output
}

/// A window that is added comes last, floats if asked, and is to be arranged; in tabbed mode it
/// is shown, unless it floats. Nothing else changes, and nothing at all if the window is there.
pub proof fn law_window_added(w: WorkspaceView, window: WindowId, floating: bool)
    requires
        w.consistent(),
    ensures
        ({
            let t = w.add_window(window, floating);
            &&& w.windows.contains(window) ==> t == w
            &&& !w.windows.contains(window) ==> {
                &&& t.windows == w.windows.push(window)
                &&& t.needs_arrange
                &&& same_setting(t, w)
                &&& t.focus_stack == w.focus_stack
                &&& t.fullscreen == w.fullscreen
                &&& t.rectangles == w.rectangles
                &&& t.floating.contains(window) == floating
                &&& forall|x: WindowId|
                    x != window ==> (#[trigger] t.floating.contains(x) == w.floating.contains(x))
                &&& w.layout_mode == LayoutMode::Tabbed && !floating && w.fullscreen != Some(
                    window,
                ) ==> 0 <= t.active_tab < t.tiled().len() && t.tiled()[t.active_tab] == window
                &&& w.layout_mode == LayoutMode::Tabbed && floating ==> t.active_tab
                    == w.active_tab
            }
        }),
{
    let t = w.add_window(window, floating);
    if !w.windows.contains(window) {
        assert(!w.floating.contains(window));
        let grown = WorkspaceView {
            windows: w.windows.push(window),
            floating: t.floating,
            needs_arrange: true,
            ..w
        };
        lemma_tiled_frame(t, grown);
        let base = WorkspaceView { floating: t.floating, ..w };
        law_tiled_in_order(base, window);
        lemma_tiled_frame(
            grown,
            WorkspaceView { windows: base.windows.push(window), ..base },
        );
        assert(base.tiled() == w.tiled()) by {
            reveal(Seq::filter);
            lemma_same_filter(w.windows, base.tiled_filter(), w.tiled_filter());
        }
    }
}

/// Filters that agree on what a list holds leave the same of it.
proof fn lemma_same_filter(
    s: Seq<WindowId>,
    p: spec_fn(WindowId) -> bool,
    q: spec_fn(WindowId) -> bool,
)
    requires
        forall|x: WindowId| s.contains(x) ==> p(x) == q(x),
    ensures
        s.filter(p) == s.filter(q),
    decreases s.len(),
{
    reveal(Seq::filter);
    if s.len() > 0 {
        let t = s.drop_last();
        assert forall|x: WindowId| t.contains(x) implies p(x) == q(x) by {
            let k = choose|k: int| 0 <= k < t.len() && t[k] == x;
            assert(s[k] == x);
            assert(s.contains(x));
        }
        lemma_same_filter(t, p, q);
        assert(s.contains(s[s.len() - 1]));
    }
}

/// A list without one value that it holds is what stands before it and behind it.
proof fn lemma_without_middle(l: Seq<WindowId>, x: WindowId, r: Seq<WindowId>)
    requires
        !l.contains(x),
        !r.contains(x),
    ensures
        lists::without(l.push(x) + r, x) == l + r,
    decreases r.len(),
{
    reveal(Seq::filter);
    let p = lists::other_than(x);
    let all = l.push(x) + r;
    if r.len() == 0 {
        assert(all =~= l.push(x));
        assert(all.drop_last() =~= l);
        lemma_filter_all(l, p);
        assert(l + r =~= l);
    } else {
        let rest = r.drop_last();
        assert(all.drop_last() =~= l.push(x) + rest);
        assert(all.last() == r.last());
        assert(r.contains(r[r.len() - 1]));
        assert(!rest.contains(x)) by {
            if rest.contains(x) {
                let k = choose|k: int| 0 <= k < rest.len() && rest[k] == x;
                assert(r[k] == x);
            }
        }
        lemma_without_middle(l, x, rest);
        assert((l + rest).push(r.last()) =~= l + r);
    }
}

/// A window that is removed is gone, from the list, from those that float, from the fullscreen
/// place and from the history; the windows before and behind it stay in order. A window that is
/// not there leaves the list as it is.
pub proof fn law_window_removed(
    w: WorkspaceView,
    window: WindowId,
    dead: Seq<WindowId>,
    l: Seq<WindowId>,
    r: Seq<WindowId>,
)
    requires
        w.consistent(),
    ensures
        ({
            let t = w.remove_window(window, dead);
            &&& same_setting(t, w)
            &&& !t.windows.contains(window)
            &&& !t.floating.contains(window)
            &&& !t.focus_stack.contains(window)
            &&& !t.rectangles.contains_key(window)
            &&& t.fullscreen == (if w.fullscreen == Some(window) {
                None
            } else {
                w.fullscreen
            })
            &&& w.windows == l.push(window) + r ==> t.windows == l + r && t.needs_arrange
            &&& !w.windows.contains(window) ==> t.windows == w.windows && t.needs_arrange
                == w.needs_arrange
            &&& forall|x: WindowId|
                x != window ==> (#[trigger] t.floating.contains(x) == w.floating.contains(x))
            &&& forall|x: WindowId|
                x != window && !dead.contains(x) ==> (#[trigger] t.focus_stack.contains(x)
                    == w.focus_stack.contains(x))
        }),
{
    let t = w.remove_window(window, dead);
    let p = lists::other_than(window);
    lemma_filter_contains(w.windows, p, window);
    let alive = lists::without_all(w.focus_stack, dead);
    lemma_filter_contains(alive, p, window);
    if !w.windows.contains(window) {
        lemma_filter_all(w.windows, p);
    }
    if w.windows == l.push(window) + r {
        let a = l.len() as int;
        assert(w.windows[a] == window);
        assert(w.windows.contains(window));
        assert(!l.contains(window)) by {
            if l.contains(window) {
                let k = choose|k: int| 0 <= k < l.len() && l[k] == window;
                assert(w.windows[k] == w.windows[a]);
            }
        }
        assert(!r.contains(window)) by {
            if r.contains(window) {
                let k = choose|k: int| 0 <= k < r.len() && r[k] == window;
                assert(w.windows[a + 1 + k] == w.windows[a]);
            }
        }
        lemma_without_middle(l, window, r);
    }
    assert forall|x: WindowId| x != window && !dead.contains(x) implies (
    #[trigger] t.focus_stack.contains(x) == w.focus_stack.contains(x)) by {
        lemma_filter_contains(alive, p, x);
        lemma_filter_contains(w.focus_stack, lists::not_among(dead), x);
    }
}

/// The tiled windows without a window that is removed are those that were tiled but for it.
proof fn lemma_removed_tiled(w: WorkspaceView, window: WindowId, dead: Seq<WindowId>)
    ensures
        w.remove_window(window, dead).tiled() == lists::without(w.tiled(), window),
{
    let t = w.remove_window(window, dead);
    let p = lists::other_than(window);
    lemma_filters_commute(w.windows, p, w.tiled_filter());
    assert forall|x: WindowId| t.windows.contains(x) implies t.tiled_filter()(x)
        == w.tiled_filter()(x) by {
        lemma_filter_contains(w.windows, p, x);
    }
    lemma_same_filter(t.windows, t.tiled_filter(), w.tiled_filter());
}

/// If the window of the shown tab is removed, the tab behind it is shown in its place, or the
/// new last one if it was the last.
pub proof fn law_tab_after_removal(w: WorkspaceView, window: WindowId, dead: Seq<WindowId>)
    requires
        w.consistent(),
        w.layout_mode == LayoutMode::Tabbed,
        w.tiled().len() > 1,
        w.tiled()[w.active_tab] == window,
        w.chosen_tab == w.active_tab,
    ensures
        ({
            let t = w.remove_window(window, dead);
            let n = w.tiled().len();
            &&& t.tiled().len() == n - 1
            &&& w.active_tab < n - 1 ==> t.active_tab == w.active_tab
                && t.tiled()[t.active_tab] == w.tiled()[w.active_tab + 1]
            &&& w.active_tab == n - 1 ==> t.active_tab == n - 2 && t.tiled()[t.active_tab]
                == w.tiled()[n - 2]
        }),
{
    let t = w.remove_window(window, dead);
    let tiled = w.tiled();
    let a = w.active_tab;
    lemma_filter_no_duplicates(w.windows, w.tiled_filter());
    lemma_removed_tiled(w, window, dead);
    let l = tiled.take(a);
    let r = tiled.skip(a + 1);
    assert(tiled =~= l.push(window) + r);
    assert(!l.contains(window)) by {
        if l.contains(window) {
            let k = choose|k: int| 0 <= k < l.len() && l[k] == window;
            assert(tiled[k] == tiled[a]);
        }
    }
    assert(!r.contains(window)) by {
        if r.contains(window) {
            let k = choose|k: int| 0 <= k < r.len() && r[k] == window;
            assert(tiled[a + 1 + k] == tiled[a]);
        }
    }
    lemma_without_middle(l, window, r);
    assert(t.tiled() == l + r);
    assert(!w.floating.contains(window)) by {
        assert(tiled.contains(window));
        lemma_filter_contains(w.windows, w.tiled_filter(), window);
    }
    lemma_tab_after(w, window, dead);
}

/// The tab that is shown after the window of the chosen one is removed.
proof fn lemma_tab_after(w: WorkspaceView, window: WindowId, dead: Seq<WindowId>)
    requires
        w.consistent(),
        w.shows_tab(window),
    ensures
        ({
            let t = w.remove_window(window, dead);
            let n = t.tiled().len();
            t.active_tab == (if w.chosen_tab < n {
                w.chosen_tab
            } else if n > 0 {
                n - 1
            } else {
                0
            })
        }),
{
    let t = w.remove_window(window, dead);
    let a = WorkspaceView { chosen_tab: w.chosen_tab, ..t };
    let b = WorkspaceView { active_tab: w.active_tab, ..t };
    let c = WorkspaceView { active_tab: w.active_tab, ..a };
    lemma_tiled_frame(a, t);
    lemma_tiled_frame(b, t);
    lemma_tiled_frame(c, t);
}

/// It does not matter which of two filters comes first.
proof fn lemma_filters_commute(
    s: Seq<WindowId>,
    p: spec_fn(WindowId) -> bool,
    q: spec_fn(WindowId) -> bool,
)
    ensures
        s.filter(p).filter(q) == s.filter(q).filter(p),
    decreases s.len(),
{
    reveal(Seq::filter);
    if s.len() > 0 {
        let t = s.drop_last();
        lemma_filters_commute(t, p, q);
        let x = s.last();
        if p(x) {
            assert(t.filter(p).push(x).drop_last() =~= t.filter(p));
        }
        if q(x) {
            assert(t.filter(q).push(x).drop_last() =~= t.filter(q));
        }
    }
}

/// Dead windows leave a workspace in every respect, and the others stay.
pub proof fn law_dead_leave(w: WorkspaceView, dead: Seq<WindowId>, x: WindowId)
    ensures
        ({
            let t = w.refresh(dead);
            &&& same_setting(t, w)
            &&& t.needs_arrange == w.needs_arrange
            &&& t.windows.contains(x) <==> w.windows.contains(x) && !dead.contains(x)
            &&& t.focus_stack.contains(x) <==> w.focus_stack.contains(x) && !dead.contains(x)
            &&& t.floating.contains(x) <==> w.floating.contains(x) && !dead.contains(x)
            &&& t.rectangles.contains_key(x) <==> w.rectangles.contains_key(x) && !dead.contains(x)
            &&& t.fullscreen == Some(x) <==> w.fullscreen == Some(x) && !dead.contains(x)
            &&& dead.len() == 0 ==> t.windows == w.windows && t.focus_stack == w.focus_stack
        }),
{
    lemma_filter_contains(w.windows, lists::not_among(dead), x);
    lemma_filter_contains(w.focus_stack, lists::not_among(dead), x);
    assert(dead.to_set().contains(x) <==> dead.contains(x));
    if dead.len() == 0 {
        lemma_filter_all(w.windows, lists::not_among(dead));
        lemma_filter_all(w.focus_stack, lists::not_among(dead));
    }
}

/// A window that is focused is last in the history, once, and the others keep their order before
/// it. In tabbed mode a tiled window is shown. The list of windows stays as it is.
pub proof fn law_focused_last(
    w: WorkspaceView,
    window: WindowId,
    l: Seq<WindowId>,
    r: Seq<WindowId>,
)
    requires
        w.consistent(),
    ensures
        ({
            let t = w.focus(window);
            &&& t.windows == w.windows
            &&& t.floating == w.floating
            &&& t.fullscreen == w.fullscreen
            &&& t.rectangles == w.rectangles
            &&& same_setting(t, w)
            &&& t.focus_stack.len() > 0
            &&& t.focus_stack.last() == window
            &&& !t.focus_stack.drop_last().contains(window)
            &&& w.focus_stack == l.push(window) + r ==> t.focus_stack == (l + r).push(window)
            &&& !w.focus_stack.contains(window) ==> t.focus_stack == w.focus_stack.push(window)
            &&& w.layout_mode == LayoutMode::Tabbed && w.tiled().contains(window) ==> 0
                <= t.active_tab < t.tiled().len() && t.tiled()[t.active_tab] == window
            &&& w.layout_mode == LayoutMode::Tabbed && !w.tiled().contains(window)
                ==> t.active_tab == w.active_tab
        }),
{
    let t = w.focus(window);
    let p = lists::other_than(window);
    let kept = lists::without(w.focus_stack, window);
    lemma_filter_contains(w.focus_stack, p, window);
    assert(kept.push(window).drop_last() =~= kept);
    lemma_first_position(w.tiled(), window);
    lemma_tiled_frame(t, w);
    if !w.focus_stack.contains(window) {
        lemma_filter_all(w.focus_stack, p);
    }
    if w.focus_stack == l.push(window) + r {
        let f = w.focus_stack;
        let a = l.len() as int;
        assert(f[a] == window);
        assert(!l.contains(window)) by {
            if l.contains(window) {
                let k = choose|k: int| 0 <= k < l.len() && l[k] == window;
                assert(f[k] == f[a]);
            }
        }
        assert(!r.contains(window)) by {
            if r.contains(window) {
                let k = choose|k: int| 0 <= k < r.len() && r[k] == window;
                assert(f[a + 1 + k] == f[a]);
            }
        }
        lemma_without_middle(l, window, r);
    }
}

/// Changing the layout goes from tiling to tabs and back. Tabs open on the window focused last,
/// if it is tiled, else on the first. No window moves in the list.
pub proof fn law_layout_toggled(w: WorkspaceView)
    requires
        w.consistent(),
    ensures
        ({
            let t = w.toggle_layout_mode();
            &&& t.layout_mode != w.layout_mode
            &&& t.toggle_layout_mode().layout_mode == w.layout_mode
            &&& t.windows == w.windows
            &&& t.floating == w.floating
            &&& t.fullscreen == w.fullscreen
            &&& t.focus_stack == w.focus_stack
            &&& t.master_count == w.master_count
            &&& t.available_area == w.available_area
            &&& t.needs_arrange
            &&& t.layout_mode == LayoutMode::Tabbed && w.focus_stack.len() > 0
                && w.tiled().contains(w.focus_stack.last()) ==> 0 <= t.active_tab < t.tiled().len()
                && t.tiled()[t.active_tab] == w.focus_stack.last()
            &&& t.layout_mode == LayoutMode::Tabbed && !(w.focus_stack.len() > 0
                && w.tiled().contains(w.focus_stack.last())) ==> t.active_tab == 0
        }),
{
    let t = w.toggle_layout_mode();
    lemma_tiled_frame(t, w);
    if w.focus_stack.len() > 0 {
        lemma_first_position(w.tiled(), w.focus_stack.last());
    }
}

/// The next tab is the one behind the shown one, and the first behind the last; the previous tab
/// is the one before it, and the last before the first. The window of the tab that is chosen is
/// focused last, and the workspace is to be arranged.
pub proof fn law_neighbouring_tabs(w: WorkspaceView, index: int)
    requires
        w.consistent(),
        w.has_tabs(),
        0 <= index < w.tiled().len(),
    ensures
        w.active_tab + 1 < w.tiled().len() ==> w.next_index() == w.active_tab + 1,
        w.active_tab + 1 == w.tiled().len() ==> w.next_index() == 0,
        w.active_tab > 0 ==> w.prev_index() == w.active_tab - 1,
        w.active_tab == 0 ==> w.prev_index() == w.tiled().len() - 1,
        w.choose_tab(index).active_tab == index,
        w.choose_tab(index).windows == w.windows,
        w.choose_tab(index).tiled() == w.tiled(),
        w.choose_tab(index).focus_stack.last() == w.tiled()[index],
        w.choose_tab(index).needs_arrange,
{
    let n = w.tiled().len() as int;
    let a = w.active_tab;
    assert(0 <= a < n);
    if a + 1 < n {
        assert((a + 1) % n == a + 1) by (nonlinear_arith)
            requires
                0 <= a + 1 < n,
        ;
    } else {
        assert(n % n == 0) by (nonlinear_arith)
            requires
                n > 0,
        ;
    }
    lemma_tiled_frame(w.choose_tab(index), w);
}

/// Making a window float, or tile again, changes this of that window and of no other, and keeps
/// the list. A window that begins to float has no rectangle in the layout.
pub proof fn law_floating_toggled(w: WorkspaceView, window: WindowId, x: WindowId)
    ensures
        ({
            let t = w.toggle_floating(window);
            &&& t.floating.contains(window) == !w.floating.contains(window)
            &&& x != window ==> t.floating.contains(x) == w.floating.contains(x)
            &&& t.windows == w.windows
            &&& t.focus_stack == w.focus_stack
            &&& t.fullscreen == w.fullscreen
            &&& same_setting(t, w)
            &&& t.needs_arrange
            &&& !w.floating.contains(window) ==> !t.rectangles.contains_key(window)
            &&& x != window && w.rectangles.contains_key(x) ==> t.rectangles.contains_key(x)
                && t.rectangles[x] == w.rectangles[x]
        }),
{
}

/// Making a window fullscreen, or none, keeps the list and is to be arranged.
pub proof fn law_fullscreen_set(w: WorkspaceView, window: Option<WindowId>)
    ensures
        ({
            let t = w.set_fullscreen(window);
            &&& t.fullscreen == window
            &&& t.windows == w.windows
            &&& t.floating == w.floating
            &&& t.focus_stack == w.focus_stack
            &&& t.rectangles == w.rectangles
            &&& same_setting(t, w)
            &&& t.needs_arrange
        }),
{
}

/// The number of master windows grows and shrinks by what it is changed by, and stops at zero.
pub proof fn law_master_count_changed(w: WorkspaceView, delta: i32)
    requires
        w.master_count + delta <= usize::MAX,
    ensures
        ({
            let t = w.inc_n_master(delta);
            &&& w.master_count + delta >= 0 ==> t.master_count == w.master_count + delta
            &&& w.master_count + delta < 0 ==> t.master_count == 0
            &&& t.needs_arrange
            &&& t.windows == w.windows
            &&& t.layout_mode == w.layout_mode
            &&& t.available_area == w.available_area
        }),
{
}

/// A workspace gets the area that it is given, and is to be arranged if that is another one.
pub proof fn law_area_changed(w: WorkspaceView, area: VirtualOutputRelativeRect)
    ensures
        ({
            let t = w.update_output_geometry(area);
            &&& t.available_area == area
            &&& area != w.available_area ==> t.needs_arrange
            &&& area == w.available_area ==> t.needs_arrange == w.needs_arrange
            &&& t.windows == w.windows
            &&& t.focus_stack == w.focus_stack
            &&& t.layout_mode == w.layout_mode
            &&& t.master_count == w.master_count
        }),
{
}

/// Focusing a window asks for an arrangement if another tab was chosen before; else nothing has to
/// be arranged that had not to be.
pub proof fn law_focus_arranges(w: WorkspaceView, window: WindowId, k: int)
    ensures
        w.layout_mode == LayoutMode::Tabbed && 0 <= k < w.tiled().len() && w.tiled()[k] == window && (
        forall|j: int| 0 <= j < k ==> w.tiled()[j] != window) ==> (w.focus(window).needs_arrange
            <==> w.needs_arrange || w.chosen_tab != k),
        w.layout_mode != LayoutMode::Tabbed || !w.tiled().contains(window) ==> w.focus(
            window,
        ).needs_arrange == w.needs_arrange,
{
    lemma_first_position(w.tiled(), window);
    if 0 <= k < w.tiled().len() && w.tiled()[k] == window && (forall|j: int|
        0 <= j < k ==> w.tiled()[j] != window) {
        lists::lemma_is_first_position(w.tiled(), window, k);
    }
}

} // verus!
