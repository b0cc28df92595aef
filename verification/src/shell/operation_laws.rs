//! What the operations of the shell do.

use vstd::prelude::*;

use crate::shell::arrange::{frame_of, plan_entries};
use crate::shell::laws::{law_add_window, lemma_find_or_create, valid};
use crate::shell::model::{
    active_places, covers, holds, named, number_free, shows, workspace_id, Command, ShellView,
};
use crate::shell::output::{fullscreen_size_of, OutputView};
use crate::shell::tiling::WindowId;
use crate::shell::virtual_output::{
    lemma_view_position, shown_on, ManagerView, VirtualOutputView,
};
use crate::shell::workspace::{VirtualOutputId, WorkspaceId, WorkspaceView};
use crate::utils::geometry::{Point, Rectangle};
use crate::utils::lists;
use crate::utils::lists::{lemma_first_position, lemma_is_first_position};
use crate::utils::search::{
    first_below, lemma_first_below, lemma_is_first_below, lemma_none_below,
};
use crate::utils::text::decimal;

verus! {

/// Whether a window is in the workspace at a place and in none before it.
pub open spec fn first_held(s: ShellView, window: WindowId, i: int) -> bool {
    &&& 0 <= i < s.workspaces.len()
    &&& s.workspaces[i].windows.contains(window)
    &&& forall|j: int| 0 <= j < i ==> !(#[trigger] s.workspaces[j]).windows.contains(window)
}

/// A window is looked for in the workspaces in order.
pub proof fn law_holder(s: ShellView, window: WindowId, i: int)
    ensures
        first_held(s, window, i) ==> s.holder(window) == Some(i),
        (forall|j: int|
            0 <= j < s.workspaces.len() ==> !(#[trigger] s.workspaces[j]).windows.contains(window))
            ==> s.holder(window) is None,
        s.holder(window) matches Some(k) ==> first_held(s, window, k),
{
    let p = holds(s.workspaces, window);
    lemma_first_below(s.workspaces.len(), p);
    if first_held(s, window, i) {
        assert(p(i));
        assert forall|j: int| 0 <= j < i implies !(#[trigger] p(j)) by {
            assert(!s.workspaces[j].windows.contains(window));
        }
        lemma_is_first_below(s.workspaces.len(), p, i);
    }
    match s.holder(window) {
        Some(k) => {
            assert forall|j: int| 0 <= j < k implies !(
            #[trigger] s.workspaces[j]).windows.contains(window) by {
                assert(!p(j));
            }
            if forall|j: int|
                0 <= j < s.workspaces.len() ==> !(#[trigger] s.workspaces[j]).windows.contains(
                    window,
                ) {
                assert(!s.workspaces[k].windows.contains(window));
            }
        },
        None => {},
    }
}

/// The window that is focused is the one asked for. The workspace that holds it remembers it as
/// focused last, and all others stay as they are. The focused virtual output is the one that
/// shows the window's workspace, and none if no virtual output shows it.
pub proof fn law_focus_set(s: ShellView, window: WindowId, i: int, v: int)
    requires
        first_held(s, window, i),
        s.windows_apart(),
        s.workspaces.len() < u64::MAX,
    ensures
        ({
            let t = s.set_focus(window);
            &&& t.focused == Some(window)
            &&& t.manager == s.manager
            &&& t.workspaces.len() == s.workspaces.len()
            &&& t.workspaces[i] == s.workspaces[i].focus(window)
            &&& forall|j: int|
                0 <= j < s.workspaces.len() && j != i ==> #[trigger] t.workspaces[j]
                    == s.workspaces[j]
            &&& 0 <= v < s.manager.outputs.len() && s.manager.outputs[v].active == Some(
                WorkspaceId((i + 1) as u64),
            ) && (forall|k: int|
                0 <= k < v ==> (#[trigger] s.manager.outputs[k]).active != Some(
                    WorkspaceId((i + 1) as u64),
                )) ==> t.focused_output == Some(s.manager.outputs[v].id)
            &&& (forall|k: int|
                0 <= k < s.manager.outputs.len() ==> (#[trigger] s.manager.outputs[k]).active
                    != Some(WorkspaceId((i + 1) as u64))) ==> t.focused_output is None
        }),
{
    let s1 = ShellView { focused: Some(window), ..s };
    law_holder(s1.update_focused_output(), window, i);
    let p = shows(s.manager.outputs, workspace_id(i));
    let q = s1.holds_visibly(window);
    lemma_first_below(s.manager.outputs.len(), p);
    assert forall|j: int| 0 <= j < s.workspaces.len() && j != i implies !(#[trigger] q(j)) by {
        assert(s.workspaces[i].windows.contains(window));
        assert(!s.workspaces[j].windows.contains(window));
    }
    if s1.visible(i) {
        assert(q(i));
        lemma_is_first_below(s.workspaces.len(), q, i);
    } else {
        assert(!q(i));
        lemma_none_below(s.workspaces.len(), q);
    }
    if 0 <= v < s.manager.outputs.len() && s.manager.outputs[v].active == Some(
        WorkspaceId((i + 1) as u64),
    ) && (forall|k: int|
        0 <= k < v ==> (#[trigger] s.manager.outputs[k]).active != Some(
            WorkspaceId((i + 1) as u64),
        )) {
        assert(p(v));
        assert forall|k: int| 0 <= k < v implies !(#[trigger] p(k)) by {
            assert(s.manager.outputs[k].active != Some(workspace_id(i)));
        }
        lemma_is_first_below(s.manager.outputs.len(), p, v);
    }
    if forall|k: int|
        0 <= k < s.manager.outputs.len() ==> (#[trigger] s.manager.outputs[k]).active != Some(
            WorkspaceId((i + 1) as u64),
        ) {
        assert forall|k: int| 0 <= k < s.manager.outputs.len() implies !(#[trigger] p(k)) by {
            assert(s.manager.outputs[k].active != Some(workspace_id(i)));
        }
        lemma_none_below(s.manager.outputs.len(), p);
    }
}

/// The focus moves on to the window behind the focused one among those of its workspace that do
/// not float, and from the last to the first; backwards, to the one before it, and from the first
/// to the last. If the focused window floats, it moves to the first, or backwards to the last. If
/// there is only one, the focus stays.
pub proof fn law_focus_cycles(
    s: ShellView,
    window: WindowId,
    i: int,
    k: int,
    forward: bool,
    dead: Seq<WindowId>,
)
    requires
        s.focused == Some(window),
        first_held(s, window, i),
        !dead.contains(window),
    ensures
        ({
            let list = s.workspaces[i].refresh(dead).anchored();
            let n = list.len();
            let t = s.cycle_focus(forward, dead);
            let at_k = 0 <= k < n && list[k] == window && (forall|j: int|
                0 <= j < k ==> list[j] != window);
            &&& n <= 1 ==> t.focused == s.focused
            &&& n > 1 && at_k && forward && k + 1 < n ==> t.focused == Some(list[k + 1])
            &&& n > 1 && at_k && forward && k + 1 == n ==> t.focused == Some(list[0])
            &&& n > 1 && at_k && !forward && k > 0 ==> t.focused == Some(list[k - 1])
            &&& n > 1 && at_k && !forward && k == 0 ==> t.focused == Some(list[n - 1])
            &&& n > 1 && !list.contains(window) && forward ==> t.focused == Some(list[0])
            &&& n > 1 && !list.contains(window) && !forward ==> t.focused == Some(list[n - 1])
        }),
{
    law_holder(s, window, i);
    let w = s.workspaces[i].refresh(dead);
    let list = w.anchored();
    let n = list.len() as int;
    let s1 = s.with_workspace(i, w);
    assert(s1.workspaces[i] == w);
    lemma_first_position(list, window);
    if 0 <= k < n && list[k] == window && (forall|j: int| 0 <= j < k ==> list[j] != window) {
        lemma_is_first_position(list, window, k);
        if k + 1 < n {
            assert((k + 1) % n == k + 1) by (nonlinear_arith)
                requires
                    0 <= k + 1 < n,
            ;
        } else {
            assert((k + 1) % n == 0) by (nonlinear_arith)
                requires
                    k + 1 == n,
                    n > 0,
            ;
        }
    }
}

/// Without a focused window, or if no workspace holds it, the focus does not move.
pub proof fn law_no_focus_no_cycle(s: ShellView, forward: bool, dead: Seq<WindowId>)
    requires
        s.focused matches Some(w) ==> forall|j: int|
            0 <= j < s.workspaces.len() ==> !(#[trigger] s.workspaces[j]).windows.contains(w),
    ensures
        s.cycle_focus(forward, dead) == s,
{
    if s.focused is Some {
        law_holder(s, s.focused.unwrap(), 0);
    }
}

/// What switching a virtual output to a workspace that no virtual output shows asks for: the
/// windows of the workspace that was shown are hidden, those of the new one are shown, and the
/// first output of the virtual output is arranged, in this order.
pub proof fn law_switch_commands(s: ShellView, id: VirtualOutputId, name: Seq<char>, o: int, i: int, k: int)
    requires
        valid(s),
        0 <= k < s.manager.outputs.len(),
        s.manager.outputs[k].id == id,
        0 <= o < s.workspaces.len(),
        s.manager.outputs[k].active == Some(WorkspaceId((o + 1) as u64)),
        0 <= i < s.workspaces.len(),
        s.workspaces[i].name == name,
        forall|j: int|
            0 <= j < s.manager.outputs.len() ==> (#[trigger] s.manager.outputs[j]).active != Some(
                WorkspaceId((i + 1) as u64),
            ),
    ensures
        ({
            let (t, c) = s.switch_on_virtual(id, name);
            let old = s.workspaces[o].windows;
            let new = s.workspaces[i].windows;
            let regions = s.manager.outputs[k].regions;
            &&& t.manager.outputs[k].active == Some(WorkspaceId((i + 1) as u64))
            &&& t.workspaces[i].windows == new
            &&& t.workspaces[i].virtual_output == Some(id)
            &&& t.workspaces[i].needs_arrange
            &&& t.workspaces[i].available_area.0.size == s.manager.outputs[k].geometry.0.size
            &&& t.workspaces[i].available_area.0.loc == (Point { x: 0, y: 0 })
            &&& c.len() == old.len() + new.len() + (if regions.len() > 0 {
                1int
            } else {
                0
            })
            &&& forall|j: int|
                0 <= j < old.len() ==> #[trigger] c[j] == (Command::Hide { window: old[j] })
            &&& forall|j: int|
                old.len() <= j < old.len() + new.len() ==> #[trigger] c[j] == (Command::Show {
                    window: new[j - old.len()],
                    location: Point { x: 0, y: 0 },
                })
            &&& regions.len() > 0 ==> c.last() == (Command::Arrange { output: regions[0].output })
        }),
{
    lemma_find_or_create(s, name);
    let p = named(s.workspaces, name);
    assert(p(i));
    assert forall|j: int| 0 <= j < i implies !(#[trigger] p(j)) by {
        assert(s.workspaces[j].name != s.workspaces[i].name);
    }
    lemma_is_first_below(s.workspaces.len(), p, i);
    let q = shows(s.manager.outputs, workspace_id(i));
    assert forall|j: int| 0 <= j < s.manager.outputs.len() implies !(#[trigger] q(j)) by {
        assert(s.manager.outputs[j].active != Some(workspace_id(i)));
    }
    lemma_none_below(s.manager.outputs.len(), q);
    lemma_view_position(s.manager.outputs, id);
    assert(s.manager.position(id) == Some(k)) by {
        let m = s.manager.position(id);
        if m is None {
            assert(s.manager.outputs[k].id != id);
        } else if m.unwrap() < k {
            assert(s.manager.outputs[m.unwrap()].id != s.manager.outputs[k].id);
        } else if k < m.unwrap() {
            assert(s.manager.outputs[k].id != s.manager.outputs[m.unwrap()].id);
        }
    }
    let t = s.switch_on_virtual(id, name).0;
    let after = s.manager.set_active(id, Some(workspace_id(i)));
    lemma_view_position(after.outputs, id);
    assert(after.position(id) == Some(k)) by {
        assert(after.outputs[k].id == id);
        assert forall|j: int| 0 <= j < k implies (#[trigger] after.outputs[j]).id != id by {
            assert(s.manager.outputs[j].id != s.manager.outputs[k].id);
        }
    }
    assert(o + 1 < u64::MAX);
    let c = s.switch_on_virtual(id, name).1;
    let old = s.workspaces[o].windows;
    let new = s.workspaces[i].windows;
    assert(s.shown_windows(id) == old);
}

/// A new window goes to the virtual output at the pointer, of those that the output shows, or to
/// the first of them if the pointer is on none or not known.
pub proof fn law_virtual_output_at_pointer(
    s: ShellView,
    output: Seq<char>,
    pointer: Option<Point>,
    i: int,
)
    requires
        0 <= i < shown_on(s.manager.outputs, output).len(),
    ensures
        ({
            let shown = shown_on(s.manager.outputs, output);
            let chosen = s.virtual_output_for(output, pointer);
            &&& pointer is None ==> chosen == shown[0].id
            &&& pointer matches Some(p) ==> shown[i].geometry.0.spec_contains(p) && (forall|j: int|
                0 <= j < i ==> !(#[trigger] shown[j]).geometry.0.spec_contains(p)) ==> chosen
                == shown[i].id
            &&& pointer matches Some(p) ==> (forall|j: int|
                0 <= j < shown.len() ==> !(#[trigger] shown[j]).geometry.0.spec_contains(p))
                ==> chosen == shown[0].id
        }),
{
    let shown = shown_on(s.manager.outputs, output);
    match pointer {
        Some(point) => {
            let p = covers(shown, point);
            if shown[i].geometry.0.spec_contains(point) && (forall|j: int|
                0 <= j < i ==> !(#[trigger] shown[j]).geometry.0.spec_contains(point)) {
                assert(p(i));
                assert forall|j: int| 0 <= j < i implies !(#[trigger] p(j)) by {
                    assert(!shown[j].geometry.0.spec_contains(point));
                }
                lemma_is_first_below(shown.len(), p, i);
            }
            if forall|j: int|
                0 <= j < shown.len() ==> !(#[trigger] shown[j]).geometry.0.spec_contains(point) {
                assert forall|j: int| 0 <= j < shown.len() implies !(#[trigger] p(j)) by {
                    assert(!shown[j].geometry.0.spec_contains(point));
                }
                lemma_none_below(shown.len(), p);
            }
        },
        None => {},
    }
}

/// The workspace at a point of an output is that of the first virtual output there that covers
/// the point; the active one is that of the first virtual output.
pub proof fn law_workspace_at(s: ShellView, output: Seq<char>, point: Point, i: int)
    requires
        0 <= i < shown_on(s.manager.outputs, output).len(),
    ensures
        ({
            let shown = shown_on(s.manager.outputs, output);
            &&& shown[i].geometry.0.spec_contains(point) && (forall|j: int|
                0 <= j < i ==> !(#[trigger] shown[j]).geometry.0.spec_contains(point)) ==> (
            match shown[i].active {
                Some(ws) => s.workspace_at(output, point) == Some(ws.0 - 1),
                None => s.workspace_at(output, point) is None,
            })
            &&& (forall|j: int|
                0 <= j < shown.len() ==> !(#[trigger] shown[j]).geometry.0.spec_contains(point))
                ==> s.workspace_at(output, point) is None
            &&& match shown[0].active {
                Some(ws) => s.active_on(output) == Some(ws.0 - 1),
                None => s.active_on(output) is None,
            }
        }),
{
    let shown = shown_on(s.manager.outputs, output);
    let p = covers(shown, point);
    if shown[i].geometry.0.spec_contains(point) && (forall|j: int|
        0 <= j < i ==> !(#[trigger] shown[j]).geometry.0.spec_contains(point)) {
        assert(p(i));
        assert forall|j: int| 0 <= j < i implies !(#[trigger] p(j)) by {
            assert(!shown[j].geometry.0.spec_contains(point));
        }
        lemma_is_first_below(shown.len(), p, i);
    }
    if forall|j: int|
        0 <= j < shown.len() ==> !(#[trigger] shown[j]).geometry.0.spec_contains(point) {
        assert forall|j: int| 0 <= j < shown.len() implies !(#[trigger] p(j)) by {
            assert(!shown[j].geometry.0.spec_contains(point));
        }
        lemma_none_below(shown.len(), p);
    }
}

/// Of the virtual outputs, the last one that remembers a living window decides who gets the focus
/// anew: the window focused last in its workspace.
pub proof fn law_last_focused(
    s: ShellView,
    rest: Seq<VirtualOutputView>,
    v: VirtualOutputView,
    ws: WorkspaceId,
    older: Seq<WindowId>,
    window: WindowId,
    dead: Seq<WindowId>,
)
    requires
        s.manager.outputs == rest.push(v),
        v.active == Some(ws),
        s.workspaces[ws.0 - 1].focus_stack == older.push(window),
        !dead.contains(window),
    ensures
        s.last_focused(dead) == Some(window),
        s.refresh_focus(dead).focused == Some(window),
{
    reveal(Seq::filter);
    let n = s.manager.outputs.len() as int;
    let history = s.visible_history(n);
    assert(history == s.visible_history(n - 1) + older.push(window));
    assert(history.last() == window);
    assert(lists::not_among(dead)(window));
    let alive = lists::without_all(history, dead);
    assert(alive.last() == window);
}

/// If all windows that visible workspaces remember are dead, nobody gets the focus anew.
pub proof fn law_nobody_focused(s: ShellView, dead: Seq<WindowId>)
    requires
        forall|j: int, k: int|
            0 <= j < s.manager.outputs.len() && (
            #[trigger] s.manager.outputs[j]).active is Some && 0 <= k
                < s.workspaces[s.manager.outputs[j].active.unwrap().0 - 1].focus_stack.len()
                ==> dead.contains(
                #[trigger] s.workspaces[s.manager.outputs[j].active.unwrap().0
                    - 1].focus_stack[k],
            ),
    ensures
        s.last_focused(dead) is None,
        s.refresh_focus(dead).focused is None,
{
    let n = s.manager.outputs.len() as int;
    lemma_history_dead(s, dead, n);
    let history = s.visible_history(n);
    lists::lemma_filter_none(history, lists::not_among(dead));
}

proof fn lemma_history_dead(s: ShellView, dead: Seq<WindowId>, n: int)
    requires
        0 <= n <= s.manager.outputs.len(),
        forall|j: int, k: int|
            0 <= j < s.manager.outputs.len() && (
            #[trigger] s.manager.outputs[j]).active is Some && 0 <= k
                < s.workspaces[s.manager.outputs[j].active.unwrap().0 - 1].focus_stack.len()
                ==> dead.contains(
                #[trigger] s.workspaces[s.manager.outputs[j].active.unwrap().0
                    - 1].focus_stack[k],
            ),
    ensures
        forall|x: WindowId| s.visible_history(n).contains(x) ==> dead.contains(x),
    decreases n,
{
    if n > 0 {
        lemma_history_dead(s, dead, n - 1);
        let before = s.visible_history(n - 1);
        let all = s.visible_history(n);
        assert forall|x: WindowId| all.contains(x) implies dead.contains(x) by {
            let m = choose|m: int| 0 <= m < all.len() && all[m] == x;
            if m < before.len() {
                assert(before[m] == x);
                assert(before.contains(x));
            } else {
                let v = s.manager.outputs[n - 1];
                let stack = s.workspaces[v.active.unwrap().0 - 1].focus_stack;
                assert(stack[m - before.len()] == x);
            }
        }
    }
}

/// The number that names a new workspace is the least from one on that names none, as long as one
/// of the first hundred is free.
pub proof fn law_free_number(s: ShellView, n: int)
    requires
        1 <= n <= 100,
        forall|j: int|
            0 <= j < s.workspaces.len() ==> (#[trigger] s.workspaces[j]).name != decimal(n as nat),
    ensures
        1 <= s.free_number() <= n,
        forall|j: int|
            0 <= j < s.workspaces.len() ==> (#[trigger] s.workspaces[j]).name != decimal(
                s.free_number(),
            ),
        forall|m: int|
            1 <= m < s.free_number() ==> exists|j: int|
                0 <= j < s.workspaces.len() && (#[trigger] s.workspaces[j]).name == #[trigger]
                    decimal(m as nat),
{
    let p = number_free(s.workspaces);
    lemma_first_below(100, p);
    lemma_number_free(s, n - 1);
    let k = first_below(100, p).unwrap();
    assert(p(n - 1));
    lemma_number_free(s, k);
    assert forall|m: int| 1 <= m < s.free_number() implies exists|j: int|
        0 <= j < s.workspaces.len() && (#[trigger] s.workspaces[j]).name == #[trigger]
            decimal(m as nat) by {
        assert(!p(m - 1));
        lemma_number_free(s, m - 1);
    }
}

proof fn lemma_number_free(s: ShellView, k: int)
    requires
        0 <= k,
    ensures
        number_free(s.workspaces)(k) <==> forall|j: int|
            0 <= j < s.workspaces.len() ==> (#[trigger] s.workspaces[j]).name != decimal(
                (k + 1) as nat,
            ),
{
    let q = named(s.workspaces, decimal((k + 1) as nat));
    lemma_first_below(s.workspaces.len(), q);
    match first_below(s.workspaces.len(), q) {
        Some(i) => {
            assert(s.workspaces[i].name == decimal((k + 1) as nat));
        },
        None => {
            assert forall|j: int| 0 <= j < s.workspaces.len() implies (
            #[trigger] s.workspaces[j]).name != decimal((k + 1) as nat) by {
                assert(!q(j));
            }
        },
    }
}

/// The fullscreen window on an output is that of the first virtual output there whose workspace
/// has one.
pub proof fn law_fullscreen_on(s: ShellView, output: Seq<char>, i: int)
    ensures
        ({
            let shown = shown_on(s.manager.outputs, output);
            let has = |j: int|
                shown[j].active is Some && s.workspaces[shown[j].active.unwrap().0
                    - 1].fullscreen is Some;
            &&& 0 <= i < shown.len() && has(i) && (forall|j: int| 0 <= j < i ==> !#[trigger] has(j))
                ==> s.fullscreen_on(output) == s.workspaces[shown[i].active.unwrap().0
                - 1].fullscreen
            &&& (forall|j: int| 0 <= j < shown.len() ==> !#[trigger] has(j)) ==> s.fullscreen_on(
                output,
            ) is None
        }),
{
    let shown = shown_on(s.manager.outputs, output);
    let has = |j: int|
        shown[j].active is Some && s.workspaces[shown[j].active.unwrap().0 - 1].fullscreen is Some;
    let p = s.fullscreen_filter(shown);
    assert(p =~= has);
    if 0 <= i < shown.len() && has(i) && (forall|j: int| 0 <= j < i ==> !#[trigger] has(j)) {
        lemma_is_first_below(shown.len(), p, i);
    }
    if forall|j: int| 0 <= j < shown.len() ==> !#[trigger] has(j) {
        lemma_none_below(shown.len(), p);
    }
}

/// Making a window float, or tile again, changes the workspace that holds it and no other. A
/// window that begins to float is told that it is no longer tiled.
pub proof fn law_shell_floating(s: ShellView, window: WindowId, i: int)
    requires
        first_held(s, window, i),
    ensures
        ({
            let (t, c) = s.toggle_floating(window);
            &&& t.workspaces[i] == s.workspaces[i].toggle_floating(window)
            &&& t.workspaces.len() == s.workspaces.len()
            &&& t.focused == s.focused
            &&& t.manager == s.manager
            &&& forall|j: int|
                0 <= j < s.workspaces.len() && j != i ==> #[trigger] t.workspaces[j]
                    == s.workspaces[j]
            &&& s.workspaces[i].floating.contains(window) ==> c.len() == 0
            &&& !s.workspaces[i].floating.contains(window) ==> c == seq![
                Command::Release { window },
            ]
        }),
{
    law_holder(s, window, i);
}

/// What a window that is moved to a workspace is told: it is hidden, and shown again if the
/// output shows that workspace.
pub proof fn law_move_commands(
    s: ShellView,
    window: WindowId,
    name: Seq<char>,
    output: Seq<char>,
    floating: bool,
    dead: Seq<WindowId>,
)
    ensures
        ({
            let c = s.move_window(window, name, output, floating, dead).1;
            let index = s.remove_window(window, dead).find_or_create(name).1;
            let shown = shown_on(s.manager.outputs, output);
            let visible = exists|j: int|
                0 <= j < shown.len() && (#[trigger] shown[j]).active == Some(
                    WorkspaceId((index + 1) as u64),
                );
            &&& c.len() == (if visible {
                2int
            } else {
                1
            })
            &&& c[0] == (Command::Hide { window })
            &&& visible ==> c[1] == (Command::Show { window, location: Point { x: 0, y: 0 } })
        }),
{
    let index = s.remove_window(window, dead).find_or_create(name).1;
    let shown = shown_on(s.manager.outputs, output);
    let p = shows(shown, workspace_id(index));
    lemma_first_below(shown.len(), p);
    match first_below(shown.len(), p) {
        Some(j) => {
            assert(shown[j].active == Some(workspace_id(index)));
        },
        None => {
            assert forall|j: int| 0 <= j < shown.len() implies (#[trigger] shown[j]).active != Some(
                workspace_id(index),
            ) by {
                assert(!p(j));
            }
        },
    }
}

/// What a new window on an output asks for: it is shown, in the corner of the global space to begin
/// with, and then the output is arranged, which puts it in its place.
pub proof fn law_add_commands(
    s: ShellView,
    window: WindowId,
    output: OutputView,
    floating: bool,
    pointer: Option<Point>,
)
    ensures
        ({
            let c = s.add_window(window, output, floating, pointer).1;
            &&& c.len() == 2
            &&& c[0] == (Command::Show { window, location: Point { x: 0, y: 0 } })
            &&& c[1] == (Command::Arrange { output: output.id })
        }),
{
}

/// Arranging an output arranges the workspaces that its virtual outputs show, one after the other:
/// the next one with the rectangle of the virtual output that shows it, its own share, the size
/// of the output for a fullscreen window, and the area that the output's exclusive zones leave.
/// Where the output shows one virtual output, that area, moved by the corner of the virtual
/// output, is the zone moved by the place of the output.
pub proof fn law_arranged_in_turn(
    s: ShellView,
    output: OutputView,
    zone: Rectangle,
    shares: Seq<i32>,
    dead: Seq<WindowId>,
    offsets: Seq<(WindowId, Point)>,
    k: int,
)
    requires
        0 <= k < plan_entries(shown_on(s.manager.outputs, output.name)).len(),
    ensures
        s.arrange(output, zone, shares, dead, offsets, 0) == (s, Seq::<Command>::empty()),
        ({
            let shown = shown_on(s.manager.outputs, output.name);
            let entry = plan_entries(shown)[k];
            let frame = frame_of(shown, output, zone, shares, k);
            let (before, c) = s.arrange(output, zone, shares, dead, offsets, k);
            let (after, d) = s.arrange(output, zone, shares, dead, offsets, k + 1);
            let (w, more) = before.workspaces[entry.place].arranged(frame, dead, offsets);
            let corner = entry.geometry.0.loc;
            &&& after == before.with_workspace(entry.place, w)
            &&& d == c + more
            &&& frame.geometry == entry.geometry
            &&& frame.master_share == shares[k]
            &&& output.mode matches Some(mode) ==> frame.fullscreen_size == fullscreen_size_of(
                mode,
                output.transform,
                output.scale,
            )
            &&& output.mode is None ==> frame.fullscreen_size == entry.geometry.0.size
            &&& shown.len() == 1 ==> frame.area.0.size == zone.size
            &&& shown.len() == 1 && -0x3fff_ffff <= zone.loc.x <= 0x3fff_ffff && -0x3fff_ffff
                <= output.position.0.x <= 0x3fff_ffff && i32::MIN <= zone.loc.x
                + output.position.0.x - corner.x <= i32::MAX ==> frame.area.0.loc.x + corner.x
                == zone.loc.x + output.position.0.x
            &&& shown.len() == 1 && -0x3fff_ffff <= zone.loc.y <= 0x3fff_ffff && -0x3fff_ffff
                <= output.position.0.y <= 0x3fff_ffff && i32::MIN <= zone.loc.y
                + output.position.0.y - corner.y <= i32::MAX ==> frame.area.0.loc.y + corner.y
                == zone.loc.y + output.position.0.y
        }),
{
}

/// An output that no virtual output shows gets one of its own when it is added, which shows the
/// workspace named one.
pub proof fn law_added_output_shows_first(s: ShellView, outputs: Seq<OutputView>, k: int)
    requires
        0 <= k < outputs.len(),
        shown_on(s.manager.update_all(outputs).outputs, outputs[k].name).len() == 0,
    ensures
        ({
            let m: ManagerView = s.manager.update_all(outputs);
            let id = VirtualOutputId(m.next_id as u32);
            s.add_output(outputs, k) == s.with_manager(
                m.create_default(outputs[k]),
            ).switch_on_virtual(id, decimal(1))
        }),
{
}

/// An output that virtual outputs show already is added without more: they are brought up to
/// date, and nothing has to be done.
pub proof fn law_known_output_added(s: ShellView, outputs: Seq<OutputView>, k: int)
    requires
        0 <= k < outputs.len(),
        shown_on(s.manager.update_all(outputs).outputs, outputs[k].name).len() > 0,
    ensures
        s.add_output(outputs, k) == (
            s.with_manager(s.manager.update_all(outputs)),
            Seq::<Command>::empty(),
        ),
{
}

/// Every workspace that an output shows is marked for arrangement, and no other changes.
pub proof fn law_marked_on_output(s: ShellView, output: Seq<char>, i: int)
    requires
        0 <= i < s.workspaces.len(),
        i + 1 <= u64::MAX,
    ensures
        ({
            let shown = shown_on(s.manager.outputs, output);
            let t = s.mark_on(output);
            let visible = exists|k: int|
                0 <= k < shown.len() && (#[trigger] shown[k]).active == Some(WorkspaceId((i + 1) as u64));
            &&& t.workspaces.len() == s.workspaces.len()
            &&& visible ==> t.workspaces[i] == (WorkspaceView {
                needs_arrange: true,
                ..s.workspaces[i]
            })
            &&& !visible ==> t.workspaces[i] == s.workspaces[i]
            &&& t.focused == s.focused
            &&& t.manager == s.manager
        }),
{
    lemma_active_places(shown_on(s.manager.outputs, output), i);
}

proof fn lemma_active_places(shown: Seq<VirtualOutputView>, i: int)
    requires
        0 <= i < u64::MAX,
    ensures
        active_places(shown).contains(i) <==> exists|k: int|
            0 <= k < shown.len() && (#[trigger] shown[k]).active == Some(WorkspaceId((i + 1) as u64)),
    decreases shown.len(),
{
    let places = active_places(shown);
    if shown.len() > 0 {
        let rest = shown.drop_last();
        let before = active_places(rest);
        lemma_active_places(rest, i);
        assert forall|k: int| 0 <= k < rest.len() implies rest[k] == #[trigger] shown[k] by {}
        assert(shown[shown.len() - 1] == shown.last());
        match shown.last().active {
            Some(ws) => {
                assert(places == before.push(ws.0 - 1));
                if places.contains(i) {
                    let m = choose|m: int| 0 <= m < places.len() && places[m] == i;
                    if m < before.len() {
                        assert(before[m] == i);
                    }
                }
                if before.contains(i) {
                    let m = choose|m: int| 0 <= m < before.len() && before[m] == i;
                    assert(places[m] == i);
                }
                if ws.0 == i + 1 {
                    assert(places[places.len() - 1] == i);
                }
            },
            None => {},
        }
        if before.contains(i) {
            let k = choose|k: int|
                0 <= k < rest.len() && (#[trigger] rest[k]).active == Some(WorkspaceId((i + 1) as u64));
            assert(shown[k].active == rest[k].active);
        }
    }
}

/// Whether no virtual output shows the workspace at a place.
pub open spec fn shown_nowhere(s: ShellView, i: int) -> bool {
    forall|j: int|
        0 <= j < s.manager.outputs.len() ==> (#[trigger] s.manager.outputs[j]).active != Some(
            WorkspaceId((i + 1) as u64),
        )
}

proof fn lemma_shown_nowhere(s: ShellView, i: int)
    ensures
        s.visible(i) <==> !shown_nowhere(s, i),
{
    let p = shows(s.manager.outputs, workspace_id(i));
    lemma_first_below(s.manager.outputs.len(), p);
    match s.owner(i) {
        Some(j) => {
            assert(s.manager.outputs[j].active == Some(WorkspaceId((i + 1) as u64)));
        },
        None => {
            assert forall|j: int| 0 <= j < s.manager.outputs.len() implies (
            #[trigger] s.manager.outputs[j]).active != Some(WorkspaceId((i + 1) as u64)) by {
                assert(!p(j));
            }
        },
    }
}

/// What takes the place of a workspace is the first other one that is shown nowhere. If all are
/// shown, it is a new one, behind the others, named by a number that is free.
pub proof fn law_fallback(s: ShellView, excluded: int, i: int, n: int)
    ensures
        0 <= i < s.workspaces.len() && i != excluded && shown_nowhere(s, i) && (forall|j: int|
            0 <= j < i && j != excluded ==> !#[trigger] shown_nowhere(s, j)) ==> s.find_fallback(
            excluded,
        ) == (s, i),
        (forall|j: int|
            0 <= j < s.workspaces.len() && j != excluded ==> !#[trigger] shown_nowhere(s, j)) && 1
            <= n <= 100 && (forall|j: int|
            0 <= j < s.workspaces.len() ==> (#[trigger] s.workspaces[j]).name != decimal(n as nat))
            ==> {
            let (t, k) = s.find_fallback(excluded);
            &&& k == s.workspaces.len()
            &&& t.workspaces.len() == s.workspaces.len() + 1
            &&& t.workspaces[k].name == decimal(s.free_number())
            &&& t.workspaces[k].windows.len() == 0
            &&& t.workspaces.drop_last() == s.workspaces
            &&& t.manager == s.manager
        },
{
    let p = s.spare(excluded);
    lemma_first_below(s.workspaces.len(), p);
    if 0 <= i < s.workspaces.len() && i != excluded && shown_nowhere(s, i) && (forall|j: int|
        0 <= j < i && j != excluded ==> !#[trigger] shown_nowhere(s, j)) {
        lemma_shown_nowhere(s, i);
        assert(p(i));
        assert forall|j: int| 0 <= j < i implies !(#[trigger] p(j)) by {
            lemma_shown_nowhere(s, j);
            assert(j == excluded || !shown_nowhere(s, j));
        }
        lemma_is_first_below(s.workspaces.len(), p, i);
    }
    if (forall|j: int|
        0 <= j < s.workspaces.len() && j != excluded ==> !#[trigger] shown_nowhere(s, j)) && 1 <= n
        <= 100 && (forall|j: int|
        0 <= j < s.workspaces.len() ==> (#[trigger] s.workspaces[j]).name != decimal(n as nat)) {
        assert forall|j: int| 0 <= j < s.workspaces.len() implies !(#[trigger] p(j)) by {
            lemma_shown_nowhere(s, j);
            assert(j == excluded || !shown_nowhere(s, j));
        }
        lemma_none_below(s.workspaces.len(), p);
        law_free_number(s, n);
        let q = named(s.workspaces, decimal(s.free_number()));
        lemma_none_below(s.workspaces.len(), q);
        assert(s.find_fallback(excluded).0.workspaces.drop_last() =~= s.workspaces);
    }
}

/// A workspace that another virtual output shows leaves it before it is shown elsewhere: its
/// windows are hidden, and then those of the one that takes its place are shown. That one is what
/// the other virtual output shows from then on. A workspace that is shown nowhere, or where it is
/// to be shown, needs nothing.
pub proof fn law_released(s: ShellView, id: VirtualOutputId, index: int, v: int)
    ensures
        shown_nowhere(s, index) ==> s.release(id, index) == (s, Seq::<Command>::empty()),
        0 <= v < s.manager.outputs.len() && s.manager.outputs[v].active == Some(
            WorkspaceId((index + 1) as u64),
        ) && (forall|j: int|
            0 <= j < v ==> (#[trigger] s.manager.outputs[j]).active != Some(
                WorkspaceId((index + 1) as u64),
            )) && (forall|j: int|
            0 <= j < v ==> (#[trigger] s.manager.outputs[j]).id != s.manager.outputs[v].id) ==> {
            let (t, c) = s.release(id, index);
            let (f, k) = s.find_fallback(index);
            let old = f.workspaces[index].windows;
            let new = f.workspaces[k].windows;
            &&& s.manager.outputs[v].id == id ==> t == s && c.len() == 0
            &&& s.manager.outputs[v].id != id ==> {
                &&& c.len() == old.len() + new.len()
                &&& forall|j: int|
                    0 <= j < old.len() ==> #[trigger] c[j] == (Command::Hide { window: old[j] })
                &&& forall|j: int|
                    old.len() <= j < c.len() ==> #[trigger] c[j] == (Command::Show {
                        window: new[j - old.len()],
                        location: Point { x: 0, y: 0 },
                    })
                &&& t.workspaces == f.workspaces
                &&& f.manager == s.manager ==> t.manager.outputs[v].active == Some(
                    WorkspaceId((k + 1) as u64),
                )
                &&& f.manager == s.manager ==> forall|j: int|
                    0 <= j < s.manager.outputs.len() && j != v
                        ==> #[trigger] t.manager.outputs[j] == s.manager.outputs[j]
            }
        },
{
    let p = shows(s.manager.outputs, workspace_id(index));
    lemma_shown_nowhere(s, index);
    if 0 <= v < s.manager.outputs.len() && s.manager.outputs[v].active == Some(
        WorkspaceId((index + 1) as u64),
    ) && (forall|j: int|
        0 <= j < v ==> (#[trigger] s.manager.outputs[j]).active != Some(
            WorkspaceId((index + 1) as u64),
        )) {
        assert(p(v));
        assert forall|j: int| 0 <= j < v implies !(#[trigger] p(j)) by {
            assert(s.manager.outputs[j].active != Some(WorkspaceId((index + 1) as u64)));
        }
        lemma_is_first_below(s.manager.outputs.len(), p, v);
        lemma_view_position(s.manager.outputs, s.manager.outputs[v].id);
    }
}

/// A window that is removed loses the focus if it had it, and then no virtual output has the focus
/// either; if it had not, the focus stays where it is.
pub proof fn law_removed_loses_focus(s: ShellView, window: WindowId, dead: Seq<WindowId>)
    ensures
        ({
            let t = s.remove_window(window, dead);
            &&& s.focused == Some(window) ==> t.focused is None && t.focused_output is None
            &&& s.focused != Some(window) ==> t.focused == s.focused && t.focused_output
                == s.focused_output
            &&& t.manager == s.manager
            &&& t.workspaces.len() == s.workspaces.len()
        }),
{
}

/// Making a window fullscreen makes it the one of its workspace. Making it no longer so concerns
/// only the window that is: another one stays. No other workspace changes.
pub proof fn law_fullscreen_of_window(s: ShellView, window: WindowId, i: int, j: int)
    requires
        first_held(s, window, i),
        0 <= j < s.workspaces.len(),
    ensures
        s.set_fullscreen(window, true).workspaces[i].fullscreen == Some(window),
        s.workspaces[i].fullscreen == Some(window) ==> s.set_fullscreen(
            window,
            false,
        ).workspaces[i].fullscreen is None,
        s.workspaces[i].fullscreen != Some(window) ==> s.set_fullscreen(
            window,
            false,
        ).workspaces[i].fullscreen == s.workspaces[i].fullscreen,
        j != i ==> s.set_fullscreen(window, true).workspaces[j] == s.workspaces[j]
            && s.set_fullscreen(window, false).workspaces[j] == s.workspaces[j],
        s.set_fullscreen(window, true).focused == s.focused,
{
    law_holder(s, window, i);
}

/// The focused window is made fullscreen, or no longer so if it is, provided that the virtual
/// output that its workspace was last shown on shows a workspace; else nothing changes.
pub proof fn law_fullscreen_toggled(s: ShellView, window: WindowId, i: int, v: int)
    requires
        s.focused == Some(window),
        first_held(s, window, i),
    ensures
        s.workspaces[i].virtual_output is None ==> s.toggle_fullscreen() == s,
        0 <= v < s.manager.outputs.len() && s.workspaces[i].virtual_output == Some(
            s.manager.outputs[v].id,
        ) && (forall|j: int|
            0 <= j < v ==> (#[trigger] s.manager.outputs[j]).id != s.manager.outputs[v].id) ==> {
            let t = s.toggle_fullscreen();
            &&& s.manager.outputs[v].active is None ==> t == s
            &&& s.manager.outputs[v].active is Some && s.workspaces[i].fullscreen == Some(window)
                ==> t.workspaces[i].fullscreen is None
            &&& s.manager.outputs[v].active is Some && s.workspaces[i].fullscreen != Some(window)
                ==> t.workspaces[i].fullscreen == Some(window)
        },
{
    law_holder(s, window, i);
    if 0 <= v < s.manager.outputs.len() {
        lemma_view_position(s.manager.outputs, s.manager.outputs[v].id);
    }
}

/// A window that is added floats if it is to, and only then. Its workspace remembers the virtual
/// output that it is shown on, and waits to be arranged.
pub proof fn law_added_floats(
    s: ShellView,
    window: WindowId,
    output: OutputView,
    floating: bool,
    pointer: Option<Point>,
)
    requires
        s.names_distinct(),
        s.actives_valid(),
        forall|i: int|
            0 <= i < s.workspaces.len() ==> !(#[trigger] s.workspaces[i]).windows.contains(window),
    ensures
        ({
            let (s1, id) = s.ensure_virtual_output(output, pointer);
            let (s2, index) = s1.ensure_workspace(id);
            let w = s.add_window(window, output, floating, pointer).0.workspaces[index];
            &&& 0 <= index < s2.workspaces.len()
            &&& !s2.workspaces[index].windows.contains(window)
                && !s2.workspaces[index].floating.contains(window) ==> {
                &&& w.floating.contains(window) == floating
                &&& w.virtual_output == Some(id)
                &&& w.needs_arrange
            }
        }),
{
    law_add_window(s, window, output, floating, pointer);
    let (s1, id) = s.ensure_virtual_output(output, pointer);
    let (s2, index) = s1.ensure_workspace(id);
    let added = WorkspaceView { virtual_output: Some(id), ..s2.workspaces[index] }.add_window(
        window,
        floating,
    );
    let u = s2.with_workspace(index, added);
    let v = ShellView { focused: Some(window), ..u }.update_focused_output();
    assert(v.workspaces[index] == added);
    law_holder(v, window, index);
    let k = v.holder(window).unwrap();
    let t = s.add_window(window, output, floating, pointer).0;
    assert(t == u.set_focus(window));
    if v.holder(window) is Some {
        let focused = v.workspaces[k].focus(window);
        assert(focused.floating == v.workspaces[k].floating);
        assert(focused.virtual_output == v.workspaces[k].virtual_output);
        assert(v.workspaces[k].needs_arrange ==> focused.needs_arrange);
        assert(t.workspaces == v.workspaces.update(k, focused));
    }
}

} // verus!
