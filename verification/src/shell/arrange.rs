//! Arranging the windows of the workspaces that an output shows.

use vstd::prelude::*;

use crate::shell::model::{hide_all, Command, ShellView};
use crate::shell::output::{fullscreen_size_of, OutputView};
use crate::shell::push_hide_all;
use crate::shell::tiling::{tile_rect, WindowId};
use crate::shell::virtual_output::{shown_on, VirtualOutputView};
use crate::shell::workspace::{record_all, LayoutMode, Workspace, WorkspaceView, TAB_HEIGHT};
use crate::utils::coordinates::{GlobalRect, VirtualOutputRelativePoint, VirtualOutputRelativeRect};
use crate::utils::geometry::{Point, Rectangle, Size};
use crate::utils::lists::lemma_filter_contains;

verus! {

/// Offset of a window's content from its corner, which shadows take up. Windows that
/// are not listed have none.
pub open spec fn offset_of(offsets: Seq<(WindowId, Point)>, window: WindowId) -> Point
    decreases offsets.len(),
{
    if offsets.len() == 0 {
        Point { x: 0, y: 0 }
    } else if offsets.last().0 == window {
        offsets.last().1
    } else {
        offset_of(offsets.drop_last(), window)
    }
}

/// Finds the offset of a window's content.
fn find_offset(offsets: &Vec<(WindowId, Point)>, window: WindowId) -> (r: Point)
    ensures
        r == offset_of(offsets@, window),
{
    let mut i: usize = offsets.len();
    assert(offsets@.take(i as int) =~= offsets@);
    while i > 0
        invariant
            i <= offsets@.len(),
            offset_of(offsets@, window) == offset_of(offsets@.take(i as int), window),
        decreases i,
    {
        proof {
            assert(offsets@.take(i as int).drop_last() =~= offsets@.take(i - 1));
            assert(offsets@.take(i as int).last() == offsets@[i - 1]);
        }
        let (w, offset) = offsets[i - 1];
        if w == window {
            return offset;
        }
        i = i - 1;
    }
    Point { x: 0, y: 0 }
}

/// What an arrangement has to know of one workspace: its area, the rectangle of the
/// virtual output that shows it, the size of a fullscreen window there, and the width
/// that the master factor gives the master column.
pub struct Frame {
    pub area: VirtualOutputRelativeRect,
    pub geometry: GlobalRect,
    pub fullscreen_size: Size,
    pub master_share: int,
}

/// Global place of a window with the given rectangle, relative to a virtual output.
pub open spec fn global_place(geometry: GlobalRect, loc: Point, offset: Point) -> Point {
    loc.spec_plus(geometry.0.loc).spec_minus(offset)
}

/// Puts a tiled window in its rectangle.
pub open spec fn place(geometry: GlobalRect, window: WindowId, rect: Rectangle, offset: Point) -> Command {
    Command::Place {
        window,
        location: global_place(geometry, rect.loc, offset),
        size: rect.size,
        fullscreen: false,
    }
}

impl WorkspaceView {
    /// The workspace in its area, without the dead windows.
    pub open spec fn prepared(self, area: VirtualOutputRelativeRect, dead: Seq<WindowId>) -> WorkspaceView {
        self.update_output_geometry(area).refresh(dead)
    }

    /// The tiled windows, each with its rectangle.
    pub open spec fn tiles(self, master_share: int) -> Seq<(WindowId, Rectangle)> {
        let tiled = self.tiled();
        let area = self.available_area.0;
        let n_master = self.master_count as int;
        Seq::new(
            tiled.len(),
            |i: int|
                (
                    tiled[i],
                    tile_rect(area, n_master, master_share, tiled.len() as int, i),
                ),
        )
    }

    /// The rectangle of the window that the active tab shows: the area below the tab bar.
    pub open spec fn tab_rect(self) -> Rectangle {
        VirtualOutputRelativeRect::spec_with_y_offset(self.available_area, TAB_HEIGHT).0
    }

    /// The active tab's window with its rectangle, if there is an active tab.
    pub open spec fn tab_tile(self) -> Seq<(WindowId, Rectangle)> {
        if self.active_tab < self.tiled().len() {
            seq![(self.tiled()[self.active_tab], self.tab_rect())]
        } else {
            Seq::empty()
        }
    }

    /// The windows that an arrangement shows, each with its rectangle.
    pub open spec fn shown_tiles(self, master_share: int) -> Seq<(WindowId, Rectangle)> {
        match self.layout_mode {
            LayoutMode::Tiling => self.tiles(master_share),
            LayoutMode::Tabbed => self.tab_tile(),
        }
    }

    /// The workspace once it is arranged, and the commands that arrange it. A fullscreen
    /// window is put in the corner of the virtual output and nothing else moves; else
    /// tiled windows are put side by side or, in tabbed mode, all hidden but the active
    /// one.
    pub open spec fn arranged(
        self,
        frame: Frame,
        dead: Seq<WindowId>,
        offsets: Seq<(WindowId, Point)>,
    ) -> (WorkspaceView, Seq<Command>) {
        let w = self.prepared(frame.area, dead);
        match w.fullscreen {
            Some(window) => (
                WorkspaceView { needs_arrange: false, ..w },
                seq![
                    Command::Place {
                        window,
                        location: frame.geometry.0.loc,
                        size: frame.fullscreen_size,
                        fullscreen: true,
                    },
                ],
            ),
            None => {
                let tiles = w.shown_tiles(frame.master_share);
                (
                    WorkspaceView {
                        rectangles: record_all(w.rectangles, tiles),
                        needs_arrange: false,
                        ..w
                    },
                    (if w.layout_mode == LayoutMode::Tabbed {
                        hide_all(w.tiled())
                    } else {
                        Seq::empty()
                    }) + place_all(frame.geometry, tiles, offsets),
                )
            },
        }
    }
}

/// Puts each window in its rectangle.
pub open spec fn place_all(
    geometry: GlobalRect,
    tiles: Seq<(WindowId, Rectangle)>,
    offsets: Seq<(WindowId, Point)>,
) -> Seq<Command> {
    Seq::new(
        tiles.len(),
        |i: int| place(geometry, tiles[i].0, tiles[i].1, offset_of(offsets, tiles[i].0)),
    )
}

/// Appends commands that put each window in its rectangle.
fn push_place_all(
    commands: &mut Vec<Command>,
    geometry: GlobalRect,
    tiles: &Vec<(WindowId, Rectangle)>,
    offsets: &Vec<(WindowId, Point)>,
)
    ensures
        final(commands)@ == old(commands)@ + place_all(geometry, tiles@, offsets@),
{
    let ghost all = place_all(geometry, tiles@, offsets@);
    let mut i: usize = 0;
    assert(old(commands)@ + all.take(0) =~= old(commands)@);
    while i < tiles.len()
        invariant
            i <= tiles@.len(),
            all == place_all(geometry, tiles@, offsets@),
            commands@ == old(commands)@ + all.take(i as int),
        decreases tiles@.len() - i,
    {
        let (window, rect) = tiles[i];
        let origin = VirtualOutputRelativePoint::new(rect.loc.x, rect.loc.y);
        let global = origin.to_global(geometry.location());
        let location = global.as_point().minus(find_offset(offsets, window));
        commands.push(Command::Place { window, location, size: rect.size, fullscreen: false });
        proof {
            assert(all.take(i + 1) =~= all.take(i as int).push(all[i as int]));
            assert(commands@ =~= old(commands)@ + all.take(i + 1));
        }
        i = i + 1;
    }
    assert(all.take(i as int) =~= all);
}

impl Workspace {
    /// Arranges the workspace: see `WorkspaceView::arranged`.
    pub(crate) fn arrange(
        &mut self,
        area: VirtualOutputRelativeRect,
        geometry: GlobalRect,
        fullscreen_size: Size,
        master_share: i32,
        dead: &Vec<WindowId>,
        offsets: &Vec<(WindowId, Point)>,
        commands: &mut Vec<Command>,
    )
        requires
            old(self).wf(),
        ensures
            final(self).wf(),
            ({
                let frame = Frame { area, geometry, fullscreen_size, master_share: master_share as int };
                let (w, c) = old(self)@.arranged(frame, dead@, offsets@);
                final(self)@ == w && final(commands)@ == old(commands)@ + c
            }),
    {
        let ghost frame = Frame { area, geometry, fullscreen_size, master_share: master_share as int };
        self.update_output_geometry(area);
        self.refresh(dead);
        let ghost w = self@;
        assert(w == old(self)@.prepared(area, dead@));
        match self.fullscreen() {
            Some(window) => {
                commands.push(
                    Command::Place {
                        window,
                        location: geometry.location().as_point(),
                        size: fullscreen_size,
                        fullscreen: true,
                    },
                );
                self.set_needs_arrange(false);
                assert(commands@ =~= old(commands)@ + old(self)@.arranged(
                    frame,
                    dead@,
                    offsets@,
                ).1);
                return;
            },
            None => {},
        }
        let tiled = self.tiled_windows();
        let tiles: Vec<(WindowId, Rectangle)> = match self.layout_mode() {
            LayoutMode::Tiling => {
                let tiles = self.tiling().tile(&tiled, master_share);
                assert(tiles@ =~= w.tiles(master_share as int));
                assert(commands@ =~= old(commands)@ + Seq::<Command>::empty());
                tiles
            },
            LayoutMode::Tabbed => {
                push_hide_all(commands, &tiled);
                let mut tiles: Vec<(WindowId, Rectangle)> = Vec::new();
                let active: usize = self.active_tab_index();
                if active < tiled.len() {
                    let rect = VirtualOutputRelativeRect::with_y_offset(
                        &self.available_area(),
                        TAB_HEIGHT,
                    );
                    tiles.push((tiled[active], rect.as_rectangle()));
                }
                assert(tiles@ =~= w.tab_tile());
                tiles
            },
        };
        proof {
            assert forall|i: int| 0 <= i < tiles@.len() implies w.windows.contains(
                (#[trigger] tiles@[i]).0,
            ) by {
                assert(w.tiled().contains(tiles@[i].0)) by {
                    if w.layout_mode == LayoutMode::Tiling {
                        assert(tiles@[i].0 == w.tiled()[i]);
                    } else {
                        assert(tiles@[i].0 == w.tiled()[w.active_tab]);
                    }
                }
                lemma_filter_contains(w.windows, w.tiled_filter(), tiles@[i].0);
            }
        }
        push_place_all(commands, geometry, &tiles, offsets);
        self.record_rectangles(&tiles);
        self.set_needs_arrange(false);
        assert(commands@ =~= old(commands)@ + old(self)@.arranged(frame, dead@, offsets@).1);
    }
}

/// One workspace to arrange: its place, and the rectangle of the virtual output that
/// shows it.
pub struct PlanEntry {
    pub place: int,
    pub geometry: GlobalRect,
}

/// The workspaces that a list of virtual outputs shows, in order.
pub open spec fn plan_entries(shown: Seq<VirtualOutputView>) -> Seq<PlanEntry>
    decreases shown.len(),
{
    if shown.len() == 0 {
        Seq::empty()
    } else {
        let before = plan_entries(shown.drop_last());
        match shown.last().active {
            Some(ws) => before.push(PlanEntry { place: ws.0 - 1, geometry: shown.last().geometry }),
            None => before,
        }
    }
}

/// The area of a workspace: what exclusive zones leave of the output, or, where the
/// output shows several virtual outputs, the part of that in this one. Relative to the
/// virtual output.
pub open spec fn area_in(zone: Rectangle, geometry: GlobalRect, alone: bool) -> VirtualOutputRelativeRect {
    let global = if alone {
        zone
    } else {
        match zone.spec_intersection(geometry.0) {
            Some(common) => common,
            None => geometry.0,
        }
    };
    VirtualOutputRelativeRect(
        Rectangle { loc: global.loc.spec_minus(geometry.0.loc), size: global.size },
    )
}

/// Computes the area of a workspace.
pub(crate) fn compute_area(zone: &Rectangle, geometry: GlobalRect, alone: bool) -> (r: VirtualOutputRelativeRect)
    ensures
        r == area_in(*zone, geometry, alone),
{
    let bounds = geometry.as_rectangle();
    let global = if alone {
        *zone
    } else {
        match zone.intersection(&bounds) {
            Some(common) => common,
            None => bounds,
        }
    };
    VirtualOutputRelativeRect::from_loc_and_size(
        VirtualOutputRelativePoint(global.loc.minus(bounds.loc)),
        global.size,
    )
}

/// An output's zone free of exclusive zones, in global coordinates.
pub open spec fn global_zone(output: OutputView, zone: Rectangle) -> Rectangle {
    Rectangle { loc: zone.loc.spec_plus(output.position.0), size: zone.size }
}

/// What the arrangement of the `k`-th workspace of a plan has to know.
pub open spec fn frame_of(
    shown: Seq<VirtualOutputView>,
    output: OutputView,
    zone: Rectangle,
    shares: Seq<i32>,
    k: int,
) -> Frame {
    let entry = plan_entries(shown)[k];
    Frame {
        area: area_in(global_zone(output, zone), entry.geometry, shown.len() == 1),
        geometry: entry.geometry,
        fullscreen_size: match output.mode {
            Some(mode) => fullscreen_size_of(mode, output.transform, output.scale),
            None => entry.geometry.0.size,
        },
        master_share: shares[k] as int,
    }
}

impl ShellView {
    /// The shell once the first `k` workspaces that the output shows are arranged, and
    /// the commands that arrange them.
    pub open spec fn arrange(
        self,
        output: OutputView,
        zone: Rectangle,
        shares: Seq<i32>,
        dead: Seq<WindowId>,
        offsets: Seq<(WindowId, Point)>,
        k: int,
    ) -> (ShellView, Seq<Command>)
        decreases k,
    {
        if k <= 0 {
            (self, Seq::empty())
        } else {
            let (s, c) = self.arrange(output, zone, shares, dead, offsets, k - 1);
            let shown = shown_on(self.manager.outputs, output.name);
            let place = plan_entries(shown)[k - 1].place;
            let (w, more) = s.workspaces[place].arranged(
                frame_of(shown, output, zone, shares, k - 1),
                dead,
                offsets,
            );
            (s.with_workspace(place, w), c + more)
        }
    }
}

/// An arrangement of workspaces changes nothing but workspaces, and neither their number
/// nor their names.
pub proof fn lemma_arrange_frame(
    s: ShellView,
    output: OutputView,
    zone: Rectangle,
    shares: Seq<i32>,
    dead: Seq<WindowId>,
    offsets: Seq<(WindowId, Point)>,
    k: int,
)
    requires
        0 <= k <= plan_entries(shown_on(s.manager.outputs, output.name)).len(),
        forall|i: int|
            0 <= i < plan_entries(shown_on(s.manager.outputs, output.name)).len() ==> 0 <= (
            #[trigger] plan_entries(shown_on(s.manager.outputs, output.name))[i]).place
                < s.workspaces.len(),
    ensures
        ({
            let t = s.arrange(output, zone, shares, dead, offsets, k).0;
            &&& t.manager == s.manager
            &&& t.focused == s.focused
            &&& t.focused_output == s.focused_output
            &&& t.master_count == s.master_count
            &&& t.workspaces.len() == s.workspaces.len()
            &&& forall|i: int|
                0 <= i < s.workspaces.len() ==> (#[trigger] t.workspaces[i]).name
                    == s.workspaces[i].name
        }),
    decreases k,
{
    if k > 0 {
        lemma_arrange_frame(s, output, zone, shares, dead, offsets, k - 1);
    }
}

/// A window's content has the offset that is listed for it, the last one if there are several;
/// a window that is not listed has none.
pub proof fn law_offset(offsets: Seq<(WindowId, Point)>, window: WindowId, i: int)
    ensures
        0 <= i < offsets.len() && offsets[i].0 == window && (forall|j: int|
            i < j < offsets.len() ==> (#[trigger] offsets[j]).0 != window) ==> offset_of(
            offsets,
            window,
        ) == offsets[i].1,
        (forall|j: int| 0 <= j < offsets.len() ==> (#[trigger] offsets[j]).0 != window)
            ==> offset_of(offsets, window) == (Point { x: 0, y: 0 }),
    decreases offsets.len(),
{
    if offsets.len() > 0 {
        let rest = offsets.drop_last();
        law_offset(rest, window, i);
        assert(offsets[offsets.len() - 1] == offsets.last());
        assert forall|j: int| 0 <= j < rest.len() implies rest[j] == #[trigger] offsets[j] by {}
    }
}

/// The area of a workspace, moved by the corner of its virtual output, is what the exclusive
/// zones leave, if the output shows this virtual output alone. If it shows several, it is the
/// common part of that and the virtual output, or the whole virtual output if there is none.
pub proof fn law_area(zone: Rectangle, geometry: GlobalRect, alone: bool, p: Point)
    requires
        zone.regular(),
        geometry.0.regular(),
        -0x4000_0000 <= zone.loc.x <= 0x4000_0000,
        -0x4000_0000 <= zone.loc.y <= 0x4000_0000,
        -0x3fff_ffff <= geometry.0.loc.x <= 0x3fff_ffff,
        -0x3fff_ffff <= geometry.0.loc.y <= 0x3fff_ffff,
    ensures
        ({
            let area = area_in(zone, geometry, alone).0;
            let x = area.loc.x + geometry.0.loc.x;
            let y = area.loc.y + geometry.0.loc.y;
            let zone_has = zone.loc.x <= p.x < zone.loc.x + zone.size.w && zone.loc.y <= p.y
                < zone.loc.y + zone.size.h;
            let output_has = geometry.0.loc.x <= p.x < geometry.0.loc.x + geometry.0.size.w
                && geometry.0.loc.y <= p.y < geometry.0.loc.y + geometry.0.size.h;
            let area_has = x <= p.x < x + area.size.w && y <= p.y < y + area.size.h;
            &&& alone ==> x == zone.loc.x && y == zone.loc.y && area.size == zone.size
            &&& !alone && zone.spec_overlaps(geometry.0) ==> (area_has <==> zone_has && output_has)
            &&& !alone && !zone.spec_overlaps(geometry.0) ==> area == (Rectangle {
                loc: Point { x: 0, y: 0 },
                size: geometry.0.size,
            })
        }),
{
}

/// The workspaces to arrange are those that the virtual outputs show, in order, each with the
/// rectangle of its own.
pub proof fn law_plan(shown: Seq<VirtualOutputView>, v: VirtualOutputView)
    ensures
        ({
            let before = plan_entries(shown);
            let after = plan_entries(shown.push(v));
            &&& v.active is None ==> after == before
            &&& v.active matches Some(ws) ==> after.len() == before.len() + 1 && after.drop_last()
                == before && after.last().place + 1 == ws.0 && after.last().geometry == v.geometry
        }),
        plan_entries(Seq::empty()).len() == 0,
{
    assert(shown.push(v).drop_last() =~= shown);
    let before = plan_entries(shown);
    if v.active is Some {
        let after = plan_entries(shown.push(v));
        assert(after.drop_last() =~= before);
    }
}

} // verus!
