//! Calls on the shell: where windows go, what lies where, and what is shown.

use vstd::prelude::*;

use crate::shell::hit::{
    catches, covers_point, found_in_layer, law_frontmost_surface, shows_point, Element, LayerHits,
    OutputArea, SurfaceHit,
};
use crate::shell::laws::law_zoom;
use crate::shell::model::{covers, shows, Command, ShellView};
use crate::shell::operation_laws::{law_holder, law_workspace_at};
use crate::shell::output::Output;
use crate::shell::popup;
use crate::shell::render::{
    drawn_from, law_windows_drawn_in_place, window_in_place, LayerSurface, RenderItem,
};
use crate::shell::tabs::{
    law_pointer_in_bar, law_tab_under, tab_width, Pointer, SEPARATOR_WIDTH,
};
use crate::shell::tiling::{law_columns_fill_width, TilingLayout, WindowId, BORDER_WIDTH};
use crate::shell::virtual_output::{lemma_view_position, shown_on, VirtualOutputId};
use crate::shell::workspace::{LayoutMode, WorkspaceId, TAB_HEIGHT};
use crate::shell::Shell;
use crate::utils::coordinates::VirtualOutputRelativeRect;
use crate::utils::geometry::{Point, Rectangle};
use crate::utils::lists::{lemma_filter_no_duplicates, lemma_first_position};
use crate::utils::search::{lemma_first_below, lemma_is_first_below};

verus! {

/// The windows are tiled in their order, and together the columns fill the width of the area but
/// for the borders.
pub proof fn law_tiled(
    layout: &TilingLayout,
    windows: &Vec<WindowId>,
    master_share: i32,
    r: Vec<(WindowId, Rectangle)>,
    i: int,
)
    requires
        call_ensures(TilingLayout::tile, (layout, windows, master_share), r),
        0 <= i < windows@.len(),
        layout.area().0.regular(),
        windows@.len() <= layout.master_count() ==> layout.area().0.size.w > 2 * BORDER_WIDTH,
        windows@.len() > layout.master_count() ==> master_share >= 1 && layout.area().0.size.w
            > master_share + 3 * BORDER_WIDTH,
    ensures
        r@.len() == windows@.len(),
        r@[i].0 == windows@[i],
        ({
            let area = layout.area().0;
            let left = r@[i].1.loc.x - area.loc.x;
            let right = area.loc.x + area.size.w - (r@[i].1.loc.x + r@[i].1.size.w);
            if windows@.len() <= layout.master_count() {
                left == BORDER_WIDTH && right == BORDER_WIDTH
            } else if i < layout.master_count() {
                left == BORDER_WIDTH && r@[i].1.size.w == master_share
            } else {
                left == master_share + 2 * BORDER_WIDTH && right == BORDER_WIDTH
            }
        }),
{
    law_columns_fill_width(
        layout.area().0,
        layout.master_count() as int,
        master_share as int,
        windows@.len() as int,
        i,
    );
}

/// A layout has one master window unless a setting says otherwise. The number goes up and down by
/// what is asked for, and is never below none; the area stays.
pub proof fn law_masters(area: VirtualOutputRelativeRect, r: TilingLayout)
    requires
        call_ensures(TilingLayout::new, (area, None::<&str>), r),
    ensures
        r.master_count() == 1,
        r.area() == area,
        forall|l: &mut TilingLayout, delta: i32, u: ()|
            #[trigger] call_ensures(TilingLayout::inc_n_master, (l, delta), u) ==> {
                let sum = l.master_count() + delta;
                &&& 0 <= sum <= usize::MAX ==> final(l).master_count() == sum
                &&& sum < 0 ==> final(l).master_count() == 0
                &&& final(l).area() == l.area()
            },
        forall|l: &mut TilingLayout, a: VirtualOutputRelativeRect, u: ()|
            #[trigger] call_ensures(TilingLayout::set_available_area, (l, a), u) ==> final(l).area()
                == a && final(l).master_count() == l.master_count(),
{
}

/// The window under a point is the first listed whose box has the point, or there is none.
pub proof fn law_window_under(
    shell: &Shell,
    elements: &Vec<Element>,
    point: Point,
    r: Option<WindowId>,
    i: int,
)
    requires
        call_ensures(Shell::window_under, (shell, elements, point), r),
    ensures
        0 <= i < elements@.len() && elements@[i].global_bbox().spec_contains(point) && (forall|j: int|
            0 <= j < i ==> !(#[trigger] elements@[j]).global_bbox().spec_contains(point)) ==> r
            == Some(elements@[i].window),
        (forall|j: int|
            0 <= j < elements@.len() ==> !(#[trigger] elements@[j]).global_bbox().spec_contains(
                point,
            )) ==> r is None,
{
    let p = covers_point(elements@, point);
    lemma_first_below(elements@.len(), p);
    if 0 <= i < elements@.len() && elements@[i].global_bbox().spec_contains(point) && (forall|j: int|
        0 <= j < i ==> !(#[trigger] elements@[j]).global_bbox().spec_contains(point)) {
        assert(p(i));
        assert forall|j: int| 0 <= j < i implies !(#[trigger] p(j)) by {
            assert(!elements@[j].global_bbox().spec_contains(point));
        }
        lemma_is_first_below(elements@.len(), p, i);
    }
}

/// The output at a point is the first listed that shows the point, or there is none.
pub proof fn law_output_at(
    shell: &Shell,
    outputs: &Vec<OutputArea>,
    point: Point,
    r: Option<u64>,
    i: int,
)
    requires
        call_ensures(Shell::output_at, (shell, outputs, point), r),
    ensures
        0 <= i < outputs@.len() && outputs@[i].geometry.spec_contains(point) && (forall|j: int|
            0 <= j < i ==> !(#[trigger] outputs@[j]).geometry.spec_contains(point)) ==> r == Some(
            outputs@[i].output,
        ),
        (forall|j: int|
            0 <= j < outputs@.len() ==> !(#[trigger] outputs@[j]).geometry.spec_contains(point))
            ==> r is None,
{
    let p = shows_point(outputs@, point);
    lemma_first_below(outputs@.len(), p);
    if 0 <= i < outputs@.len() && outputs@[i].geometry.spec_contains(point) && (forall|j: int|
        0 <= j < i ==> !(#[trigger] outputs@[j]).geometry.spec_contains(point)) {
        assert(p(i));
        assert forall|j: int| 0 <= j < i implies !(#[trigger] p(j)) by {
            assert(!outputs@[j].geometry.spec_contains(point));
        }
        lemma_is_first_below(outputs@.len(), p, i);
    }
}

/// The surface under a point is that of the foremost thing there: the overlay, the top layer, the
/// windows from the first listed on, the bottom layer, and the background behind everything else.
pub proof fn law_surface_under(
    shell: &Shell,
    outputs: &Vec<OutputArea>,
    elements: &Vec<Element>,
    hits: &Vec<Option<SurfaceHit>>,
    layers: &LayerHits,
    point: Point,
    r: Option<SurfaceHit>,
    o: int,
    i: int,
)
    requires
        call_ensures(Shell::surface_under, (shell, outputs, elements, hits, layers, point), r),
        0 <= o < outputs@.len(),
        outputs@[o].geometry.spec_contains(point),
        forall|j: int| 0 <= j < o ==> !(#[trigger] outputs@[j]).geometry.spec_contains(point),
        point.x < i32::MAX,
        point.y < i32::MAX,
        forall|j: int| 0 <= j < elements@.len() ==> (#[trigger] elements@[j]).hit_rect().regular(),
    ensures
        ({
            let output = outputs@[o].geometry;
            let behind = layers.overlay is None && layers.top is None;
            let no_window = forall|j: int|
                0 <= j < elements@.len() ==> !(catches(#[trigger] elements@[j], point)
                    && hits@[j] is Some);
            &&& layers.overlay matches Some(hit) ==> found_in_layer(r, hit, output)
            &&& layers.overlay is None ==> (layers.top matches Some(hit) ==> found_in_layer(
                r,
                hit,
                output,
            ))
            &&& behind && 0 <= i < elements@.len() && catches(elements@[i], point)
                && hits@[i] is Some && (forall|j: int|
                0 <= j < i ==> !(catches(#[trigger] elements@[j], point) && hits@[j] is Some))
                ==> r is Some && r.unwrap().surface == hits@[i].unwrap().surface
            &&& behind && no_window ==> (layers.bottom matches Some(hit) ==> found_in_layer(
                r,
                hit,
                output,
            ))
            &&& behind && no_window && layers.bottom is None ==> (
            layers.background matches Some(hit) ==> found_in_layer(r, hit, output))
            &&& behind && no_window && layers.bottom is None && layers.background is None
                ==> r is None
        }),
{
    law_frontmost_surface(outputs@, elements@, hits@, *layers, point, o, i);
}

/// Every window that a frame draws is drawn where it is in the global space, counted from the
/// corner of the output.
pub proof fn law_rendered_in_place(
    shell: &Shell,
    output: &Output,
    elements: &Vec<Element>,
    layers: &Vec<LayerSurface>,
    r: Vec<RenderItem>,
    i: int,
)
    requires
        call_ensures(Shell::render_elements, (shell, output, elements, layers), r),
        0 <= i < r@.len(),
    ensures
        r@[i] matches RenderItem::Window { window, location } ==> exists|j: int| #[trigger]
            drawn_from(elements@, window, location, output@.position.0, j),
{
    law_windows_drawn_in_place(
        shell@,
        output@,
        elements@,
        layers@,
        i,
        0,
        crate::utils::geometry::Size { w: 0, h: 0 },
    );
    assert(window_in_place(r@[i], elements@, output@.position.0));
}

/// The owner of a workspace is the first virtual output that shows it, or there is none.
pub proof fn law_workspace_owner(
    shell: &Shell,
    workspace: WorkspaceId,
    r: Option<VirtualOutputId>,
    i: int,
)
    requires
        call_ensures(Shell::find_workspace_owner, (shell, workspace), r),
    ensures
        ({
            let outputs = shell@.manager.outputs;
            &&& 0 <= i < outputs.len() && outputs[i].active == Some(workspace) && (forall|j: int|
                0 <= j < i ==> (#[trigger] outputs[j]).active != Some(workspace)) ==> r == Some(
                outputs[i].id,
            )
            &&& (forall|j: int|
                0 <= j < outputs.len() ==> (#[trigger] outputs[j]).active != Some(workspace))
                ==> r is None
        }),
{
    let outputs = shell@.manager.outputs;
    let p = shows(outputs, workspace);
    lemma_first_below(outputs.len(), p);
    if 0 <= i < outputs.len() && outputs[i].active == Some(workspace) && (forall|j: int|
        0 <= j < i ==> (#[trigger] outputs[j]).active != Some(workspace)) {
        assert(p(i));
        assert forall|j: int| 0 <= j < i implies !(#[trigger] p(j)) by {
            assert(outputs[j].active != Some(workspace));
        }
        lemma_is_first_below(outputs.len(), p, i);
    }
}

/// The virtual output at a point is the first that has the point, be it among all or among those
/// that one output shows.
pub proof fn law_virtual_output_at(
    shell: &Shell,
    output: &str,
    point: Point,
    anywhere: Option<VirtualOutputId>,
    there: Option<VirtualOutputId>,
    i: int,
)
    requires
        call_ensures(Shell::virtual_output_at_point, (shell, point), anywhere),
        call_ensures(Shell::virtual_output_at_position, (shell, output, point), there),
    ensures
        ({
            let all = shell@.manager.outputs;
            &&& 0 <= i < all.len() && all[i].geometry.0.spec_contains(point) && (forall|j: int|
                0 <= j < i ==> !(#[trigger] all[j]).geometry.0.spec_contains(point)) ==> anywhere
                == Some(all[i].id)
            &&& (forall|j: int|
                0 <= j < all.len() ==> !(#[trigger] all[j]).geometry.0.spec_contains(point))
                ==> anywhere is None
        }),
        ({
            let shown = shown_on(shell@.manager.outputs, output@);
            &&& 0 <= i < shown.len() && shown[i].geometry.0.spec_contains(point) && (forall|j: int|
                0 <= j < i ==> !(#[trigger] shown[j]).geometry.0.spec_contains(point)) ==> there
                == Some(shown[i].id)
            &&& (forall|j: int|
                0 <= j < shown.len() ==> !(#[trigger] shown[j]).geometry.0.spec_contains(point))
                ==> there is None
        }),
{
    let all = shell@.manager.outputs;
    let p = covers(all, point);
    lemma_first_below(all.len(), p);
    if 0 <= i < all.len() && all[i].geometry.0.spec_contains(point) && (forall|j: int|
        0 <= j < i ==> !(#[trigger] all[j]).geometry.0.spec_contains(point)) {
        assert(p(i));
        assert forall|j: int| 0 <= j < i implies !(#[trigger] p(j)) by {
            assert(!all[j].geometry.0.spec_contains(point));
        }
        lemma_is_first_below(all.len(), p, i);
    }
    let shown = shown_on(all, output@);
    let q = covers(shown, point);
    lemma_first_below(shown.len(), q);
    if 0 <= i < shown.len() && shown[i].geometry.0.spec_contains(point) && (forall|j: int|
        0 <= j < i ==> !(#[trigger] shown[j]).geometry.0.spec_contains(point)) {
        assert(q(i));
        assert forall|j: int| 0 <= j < i implies !(#[trigger] q(j)) by {
            assert(!shown[j].geometry.0.spec_contains(point));
        }
        lemma_is_first_below(shown.len(), q, i);
    }
}

/// Switching an output switches the first virtual output that it shows; an output that shows none
/// stays as it is.
pub proof fn law_output_switched()
    ensures
        forall|
            s: &mut Shell,
            t: &mut Shell,
            output: &str,
            name: &str,
            id: VirtualOutputId,
            r: Vec<Command>,
            q: Vec<Command>,
        |
            #![trigger call_ensures(Shell::switch_to_workspace, (s, output, name), r), call_ensures(Shell::switch_workspace_on_virtual, (t, id, name), q)]
            call_ensures(Shell::switch_to_workspace, (s, output, name), r) && call_ensures(
                Shell::switch_workspace_on_virtual,
                (t, id, name),
                q,
            ) && s@ == t@ && shown_on(s@.manager.outputs, output@).len() > 0 && shown_on(
                s@.manager.outputs,
                output@,
            )[0].id == id ==> final(s)@ == final(t)@ && r@ == q@,
        forall|s: &mut Shell, output: &str, name: &str, r: Vec<Command>|
            #[trigger] call_ensures(Shell::switch_to_workspace, (s, output, name), r) && shown_on(
                s@.manager.outputs,
                output@,
            ).len() == 0 ==> final(s)@ == s@ && r@.len() == 0,
{
}

/// A zoom exchanges the focused window with the first of the tiled ones and has the output
/// arranged. If it is the first already nothing happens. The other workspaces stay as they are.
pub proof fn law_zoomed()
    ensures
        forall|s: &mut Shell, output: u64, r: Vec<Command>, i: int, window: WindowId|
            #![trigger call_ensures(Shell::zoom, (s, output), r), s@.workspaces[i].floating.contains(window)]
            call_ensures(Shell::zoom, (s, output), r) && s@.focused == Some(window) && s@.holder(
                window,
            ) == Some(i) && s@.workspaces[i].consistent() && !s@.workspaces[i].floating.contains(
                window,
            ) ==> {
                let tiled = s@.workspaces[i].anchored();
                let after = final(s)@.workspaces[i].anchored();
                &&& tiled[0] == window ==> final(s)@ == s@ && r@.len() == 0
                &&& tiled[0] != window ==> {
                    &&& r@ == seq![Command::Arrange { output }]
                    &&& after[0] == window
                    &&& after.len() == tiled.len()
                    &&& forall|j: int|
                        0 < j < tiled.len() ==> after[j] == (if tiled[j] == window {
                            tiled[0]
                        } else {
                            #[trigger] tiled[j]
                        })
                    &&& final(s)@.focused == s@.focused
                    &&& final(s)@.manager == s@.manager
                    &&& forall|j: int|
                        0 <= j < s@.workspaces.len() && j != i ==> #[trigger] final(s)@.workspaces[j]
                            == s@.workspaces[j]
                }
            },
{
    assert forall|s: &mut Shell, output: u64, r: Vec<Command>, i: int, window: WindowId|
        #![trigger call_ensures(Shell::zoom, (s, output), r), s@.workspaces[i].floating.contains(window)]
        call_ensures(Shell::zoom, (s, output), r) && s@.focused == Some(window) && s@.holder(window)
            == Some(i) && s@.workspaces[i].consistent() && !s@.workspaces[i].floating.contains(
            window,
        ) implies {
        let tiled = s@.workspaces[i].anchored();
        let after = final(s)@.workspaces[i].anchored();
        &&& tiled[0] == window ==> final(s)@ == s@ && r@.len() == 0
        &&& tiled[0] != window ==> {
            &&& r@ == seq![Command::Arrange { output }]
            &&& after[0] == window
            &&& after.len() == tiled.len()
            &&& forall|j: int|
                0 < j < tiled.len() ==> after[j] == (if tiled[j] == window {
                    tiled[0]
                } else {
                    #[trigger] tiled[j]
                })
            &&& final(s)@.focused == s@.focused
            &&& final(s)@.manager == s@.manager
            &&& forall|j: int|
                0 <= j < s@.workspaces.len() && j != i ==> #[trigger] final(s)@.workspaces[j]
                    == s@.workspaces[j]
        }
    } by {
        let w = s@.workspaces[i];
        let tiled = w.anchored();
        law_holder(s@, window, i);
        law_zoom(s@, window, i);
        lemma_first_position(tiled, window);
        if tiled[0] != window {
            lemma_filter_no_duplicates(w.windows, w.anchored_filter());
            assert forall|j: int| 0 < j < tiled.len() implies final(s)@.workspaces[i].anchored()[j]
                == (if tiled[j] == window {
                tiled[0]
            } else {
                #[trigger] tiled[j]
            }) by {}
        }
    }
}

/// Changing a window between fullscreen and not, or between tiled and floating, ends with the
/// output being arranged; without a focused window nothing happens. A window that is removed is
/// hidden, and that is all that is done on the screen.
pub proof fn law_changes_arrange()
    ensures
        forall|s: &mut Shell, output: u64, r: Vec<Command>|
            #[trigger] call_ensures(Shell::toggle_fullscreen, (s, output), r) ==> {
                &&& s@.focused is None ==> r@.len() == 0 && final(s)@ == s@
                &&& s@.focused is Some ==> r@ == seq![Command::Arrange { output }]
            },
        forall|s: &mut Shell, window: WindowId, fullscreen: bool, output: u64, r: Vec<Command>|
            #[trigger] call_ensures(Shell::set_fullscreen, (s, window, fullscreen, output), r)
                ==> r@ == seq![Command::Arrange { output }],
        forall|s: &mut Shell, window: WindowId, output: u64, r: Vec<Command>|
            #[trigger] call_ensures(Shell::toggle_floating, (s, window, output), r) ==> r@.len() > 0
                && r@.last() == (Command::Arrange { output }),
        forall|s: &mut Shell, window: WindowId, dead: &Vec<WindowId>, r: (Vec<Command>, Vec<u64>)|
            #[trigger] call_ensures(Shell::remove_window, (s, window, dead), r) ==> r.0@ == seq![
                Command::Hide { window },
            ],
{
}

/// Workspaces are numbered from one on; the number gives the name back.
pub proof fn law_workspace_numbers(shell: &Shell, id: WorkspaceId, r: Option<String>)
    requires
        call_ensures(Shell::get_workspace_name, (shell, id), r),
    ensures
        id.0 == 0 || id.0 > shell@.workspaces.len() ==> r is None,
        1 <= id.0 <= shell@.workspaces.len() ==> r is Some && r.unwrap()@ == shell@.workspaces[id.0
            - 1].name,
        forall|s: &mut Shell, name: &str, w: WorkspaceId|
            #[trigger] call_ensures(Shell::find_or_create_workspace_id, (s, name), w) ==> 1 <= w.0
                <= final(s)@.workspaces.len() && final(s)@.workspaces[w.0 - 1].name == name@,
{
}

/// Arranging everything arranges every output, in turn.
pub proof fn law_all_arranged(shell: &Shell, outputs: &Vec<Output>, r: Vec<Command>, i: int)
    requires
        call_ensures(Shell::arrange, (shell, outputs), r),
    ensures
        r@.len() == outputs@.len(),
        0 <= i < r@.len() ==> r@[i] == (Command::Arrange { output: outputs@[i]@.id }),
{
}

/// A window that is put on a virtual output joins the workspace that is shown there, as the last
/// of its windows if it is new, and is focused. It appears in the corner of the virtual output,
/// and every output that shows a part of that is arranged. No other workspace changes.
pub proof fn law_window_put()
    ensures
        forall|
            s: &mut Shell,
            window: WindowId,
            id: VirtualOutputId,
            has_parent: bool,
            r: Vec<Command>,
            v: int,
            k: int,
        |
            #![trigger call_ensures(Shell::add_window_to_virtual_output, (s, window, id, has_parent), r), s@.manager.outputs[v], s@.workspaces[k]]
            call_ensures(Shell::add_window_to_virtual_output, (s, window, id, has_parent), r) && 0
                <= v < s@.manager.outputs.len() && s@.manager.outputs[v].id == id && (forall|j: int|
                0 <= j < v ==> (#[trigger] s@.manager.outputs[j]).id != id)
                && s@.manager.outputs[v].active == Some(WorkspaceId((k + 1) as u64)) && 0 <= k
                < s@.workspaces.len() && s@.workspaces.len() < u64::MAX ==> {
                let shown = s@.manager.outputs[v];
                let before = s@.workspaces[k];
                let after = final(s)@.workspaces[k];
                &&& final(s)@.focused == Some(window)
                &&& final(s)@.manager == s@.manager
                &&& final(s)@.workspaces.len() == s@.workspaces.len()
                &&& !before.windows.contains(window) ==> after.windows == before.windows.push(
                    window,
                ) && (has_parent ==> after.floating.contains(window))
                &&& before.windows.contains(window) ==> after.windows == before.windows
                &&& after.focus_stack.last() == window
                &&& after.virtual_output == Some(id)
                &&& r@.len() == 1 + shown.regions.len()
                &&& r@[0] == (Command::Show { window, location: shown.geometry.0.loc })
                &&& forall|m: int|
                    0 <= m < shown.regions.len() ==> #[trigger] r@[m + 1] == (Command::Arrange {
                        output: shown.regions[m].output,
                    })
                &&& forall|m: int|
                    0 <= m < s@.workspaces.len() && m != k ==> #[trigger] final(s)@.workspaces[m]
                        == s@.workspaces[m]
            },
{
    assert forall|
        s: &mut Shell,
        window: WindowId,
        id: VirtualOutputId,
        has_parent: bool,
        r: Vec<Command>,
        v: int,
        k: int,
    |
        #![trigger call_ensures(Shell::add_window_to_virtual_output, (s, window, id, has_parent), r), s@.manager.outputs[v], s@.workspaces[k]]
        call_ensures(Shell::add_window_to_virtual_output, (s, window, id, has_parent), r) && 0 <= v
            < s@.manager.outputs.len() && s@.manager.outputs[v].id == id && (forall|j: int|
            0 <= j < v ==> (#[trigger] s@.manager.outputs[j]).id != id)
            && s@.manager.outputs[v].active == Some(WorkspaceId((k + 1) as u64)) && 0 <= k
            < s@.workspaces.len() && s@.workspaces.len() < u64::MAX implies {
        let shown = s@.manager.outputs[v];
        let before = s@.workspaces[k];
        let after = final(s)@.workspaces[k];
        &&& final(s)@.focused == Some(window)
        &&& final(s)@.manager == s@.manager
        &&& final(s)@.workspaces.len() == s@.workspaces.len()
        &&& !before.windows.contains(window) ==> after.windows == before.windows.push(window) && (
        has_parent ==> after.floating.contains(window))
        &&& before.windows.contains(window) ==> after.windows == before.windows
        &&& after.focus_stack.last() == window
        &&& after.virtual_output == Some(id)
        &&& r@.len() == 1 + shown.regions.len()
        &&& r@[0] == (Command::Show { window, location: shown.geometry.0.loc })
        &&& forall|m: int|
            0 <= m < shown.regions.len() ==> #[trigger] r@[m + 1] == (Command::Arrange {
                output: shown.regions[m].output,
            })
        &&& forall|m: int|
            0 <= m < s@.workspaces.len() && m != k ==> #[trigger] final(s)@.workspaces[m]
                == s@.workspaces[m]
    } by {
        lemma_view_position(s@.manager.outputs, id);
    }
}

/// A popup is kept in what its window's output shows, or in 1920 by 1080 where that is not known,
/// seen from the popup. Without a window or an output it is left alone.
pub proof fn law_popup_kept(
    shell: &Shell,
    window: Element,
    area: Rectangle,
    offset: Point,
    known: Option<Rectangle>,
    unknown: Option<Rectangle>,
    nowhere: Option<Rectangle>,
)
    requires
        call_ensures(
            Shell::unconstrain_popup,
            (shell, Some(window), Some(Some(area)), offset),
            known,
        ),
        call_ensures(
            Shell::unconstrain_popup,
            (shell, Some(window), Some(None::<Rectangle>), offset),
            unknown,
        ),
        call_ensures(
            Shell::unconstrain_popup,
            (shell, Some(window), None::<Option<Rectangle>>, offset),
            nowhere,
        ),
        area.loc.minus_fits(window.spec_location()),
        area.loc.spec_minus(window.spec_location()).minus_fits(window.geometry.loc),
        area.loc.spec_minus(window.spec_location()).spec_minus(window.geometry.loc).minus_fits(
            offset,
        ),
    ensures
        known is Some && known.unwrap().size == area.size,
        known.unwrap().loc.x + offset.x + window.geometry.loc.x + window.spec_location().x
            == area.loc.x,
        known.unwrap().loc.y + offset.y + window.geometry.loc.y + window.spec_location().y
            == area.loc.y,
        unknown is Some && unknown.unwrap().size.w == 1920 && unknown.unwrap().size.h == 1080,
        nowhere is None,
{
    popup::law_bounds_are_the_output(window, area, offset);
}

/// A click on a tab makes it the active one and focuses its window. The tab is the one that the
/// pointer's distance from the left of the bar falls in.
pub proof fn law_tab_clicked()
    ensures
        forall|
            s: &mut Shell,
            output: &str,
            pointer: &Pointer,
            r: bool,
            v: int,
            k: int,
        |
            #![trigger call_ensures(Shell::handle_tab_click, (s, output, pointer), r), shown_on(s@.manager.outputs, output@)[v], s@.workspaces[k]]
            call_ensures(Shell::handle_tab_click, (s, output, pointer), r) && first_shown_at(
                s@,
                output@,
                pointer.round,
                v,
            ) && shown_on(s@.manager.outputs, output@)[v].active == Some(
                WorkspaceId((k + 1) as u64),
            ) && 0 <= k < s@.workspaces.len() && s@.workspaces.len() < u64::MAX
                && s@.workspaces[k].available_area.0.regular()
                && s@.workspaces[k].available_area.0.size.h >= TAB_HEIGHT ==> {
                let w = s@.workspaces[k];
                let area = w.available_area.0;
                let n = w.tiled().len();
                let x = pointer.floor.x - area.loc.x;
                let y = pointer.floor.y - area.loc.y;
                let width = tab_width(area.size.w as int, n as int);
                &&& w.layout_mode != LayoutMode::Tabbed || y < 0 || y >= TAB_HEIGHT || n == 0 ==> !r
                    && final(s)@ == s@
                &&& w.layout_mode == LayoutMode::Tabbed && 0 <= y < TAB_HEIGHT && n > 0 && width
                    > SEPARATOR_WIDTH && 0 <= x < area.size.w && x / width < n && (x / width == n
                    - 1 || x % width < width - SEPARATOR_WIDTH) ==> {
                    let window = w.tiled()[x / width];
                    &&& r
                    &&& final(s)@.focused == Some(window)
                    &&& final(s)@.workspaces[k].active_tab == x / width
                    &&& final(s)@.workspaces[k].focus_stack.last() == window
                    &&& final(s)@.workspaces[k].needs_arrange
                    &&& final(s)@.workspaces[k].windows == w.windows
                    &&& forall|j: int|
                        0 <= j < s@.workspaces.len() && j != k
                            ==> #[trigger] final(s)@.workspaces[j] == s@.workspaces[j]
                }
            },
{
    assert forall|
        s: &mut Shell,
        output: &str,
        pointer: &Pointer,
        r: bool,
        v: int,
        k: int,
    |
        #![trigger call_ensures(Shell::handle_tab_click, (s, output, pointer), r), shown_on(s@.manager.outputs, output@)[v], s@.workspaces[k]]
        call_ensures(Shell::handle_tab_click, (s, output, pointer), r) && first_shown_at(
            s@,
            output@,
            pointer.round,
            v,
        ) && shown_on(s@.manager.outputs, output@)[v].active == Some(WorkspaceId((k + 1) as u64))
            && 0 <= k < s@.workspaces.len() && s@.workspaces.len() < u64::MAX
            && s@.workspaces[k].available_area.0.regular()
            && s@.workspaces[k].available_area.0.size.h >= TAB_HEIGHT implies {
        let w = s@.workspaces[k];
        let area = w.available_area.0;
        let n = w.tiled().len();
        let x = pointer.floor.x - area.loc.x;
        let y = pointer.floor.y - area.loc.y;
        let width = tab_width(area.size.w as int, n as int);
        &&& w.layout_mode != LayoutMode::Tabbed || y < 0 || y >= TAB_HEIGHT || n == 0 ==> !r && final(s)@
            == s@
        &&& w.layout_mode == LayoutMode::Tabbed && 0 <= y < TAB_HEIGHT && n > 0 && width
            > SEPARATOR_WIDTH && 0 <= x < area.size.w && x / width < n && (x / width == n - 1 || x
            % width < width - SEPARATOR_WIDTH) ==> {
            let window = w.tiled()[x / width];
            &&& r
            &&& final(s)@.focused == Some(window)
            &&& final(s)@.workspaces[k].active_tab == x / width
            &&& final(s)@.workspaces[k].focus_stack.last() == window
            &&& final(s)@.workspaces[k].needs_arrange
            &&& final(s)@.workspaces[k].windows == w.windows
            &&& forall|j: int|
                0 <= j < s@.workspaces.len() && j != k ==> #[trigger] final(s)@.workspaces[j]
                    == s@.workspaces[j]
        }
    } by {
        let w = s@.workspaces[k];
        let area = w.available_area.0;
        let n = w.tiled().len();
        let x = pointer.floor.x - area.loc.x;
        law_workspace_at(s@, output@, pointer.round, v);
        law_pointer_in_bar(area, *pointer);
        if n > 0 && tab_width(area.size.w as int, n as int) > SEPARATOR_WIDTH && 0 <= x
            < area.size.w {
            law_tab_under(area.size.w as int, n, x);
        }
    }
}

/// Whether a virtual output is the first of those that an output shows that has the point.
pub open spec fn first_shown_at(s: ShellView, output: Seq<char>, point: Point, v: int) -> bool {
    let shown = shown_on(s.manager.outputs, output);
    &&& 0 <= v < shown.len()
    &&& shown[v].geometry.0.spec_contains(point)
    &&& forall|j: int| 0 <= j < v ==> !(#[trigger] shown[j]).geometry.0.spec_contains(point)
}

} // verus!
