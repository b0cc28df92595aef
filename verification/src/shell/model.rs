//! What the shell holds, and what its operations do to it.

use vstd::prelude::*;

use crate::shell::output::OutputView;
use crate::shell::tiling::WindowId;
use crate::shell::virtual_output::{shown_on, ManagerView, RegionView, VirtualOutputView};
use crate::shell::workspace::{VirtualOutputId, WorkspaceId, WorkspaceView};
use crate::utils::coordinates::VirtualOutputRelativeRect;
use crate::utils::geometry::{Point, Rectangle, Size};
use crate::utils::lists::{first_position, without_all};
use crate::utils::search::first_below;
use crate::utils::text::decimal;

verus! {

/// What the program around the library has to do with a window or an output.
#[derive(Debug, Clone, Copy, PartialEq, Eq, Structural)]
pub enum Command {
    /// Show the window with its corner at a point of the global space.
    Show { window: WindowId, location: Point },
    /// Hide the window.
    Hide { window: WindowId },
    /// Show the window at a point and ask it to take a size: as a tiled window, without
    /// decorations, or as a fullscreen one.
    Place { window: WindowId, location: Point, size: Size, fullscreen: bool },
    /// Tell the window that it is no longer tiled and may decorate itself.
    Release { window: WindowId },
    /// Arrange the windows on the output.
    Arrange { output: u64 },
}

/// Shows each window at the same point.
pub open spec fn show_all(windows: Seq<WindowId>) -> Seq<Command> {
    Seq::new(
        windows.len(),
        |i: int| Command::Show { window: windows[i], location: Point { x: 0, y: 0 } },
    )
}

/// Hides each window.
pub open spec fn hide_all(windows: Seq<WindowId>) -> Seq<Command> {
    Seq::new(windows.len(), |i: int| Command::Hide { window: windows[i] })
}

/// Arranges the windows on each output that shows one of the regions.
pub open spec fn arrange_all(regions: Seq<RegionView>) -> Seq<Command> {
    Seq::new(regions.len(), |i: int| Command::Arrange { output: regions[i].output })
}

/// The outputs that show the regions.
pub open spec fn region_outputs(regions: Seq<RegionView>) -> Seq<u64> {
    Seq::new(regions.len(), |i: int| regions[i].output)
}

/// Identifier of the workspace at a place.
pub open spec fn workspace_id(index: int) -> WorkspaceId {
    WorkspaceId((index + 1) as u64)
}

/// Whether the workspace at a place holds the window.
pub open spec fn holds(workspaces: Seq<WorkspaceView>, window: WindowId) -> spec_fn(int) -> bool {
    |i: int| workspaces[i].windows.contains(window)
}

/// Whether the workspace at a place has the name.
pub open spec fn named(workspaces: Seq<WorkspaceView>, name: Seq<char>) -> spec_fn(int) -> bool {
    |i: int| workspaces[i].name == name
}

/// Whether the virtual output at a place shows the workspace.
pub open spec fn shows(outputs: Seq<VirtualOutputView>, id: WorkspaceId) -> spec_fn(int) -> bool {
    |i: int| outputs[i].active == Some(id)
}

/// Whether the virtual output at a place contains the point.
pub open spec fn covers(outputs: Seq<VirtualOutputView>, point: Point) -> spec_fn(int) -> bool {
    |i: int| outputs[i].geometry.0.spec_contains(point)
}

/// The notation of the numbers from one on, as names of workspaces.
pub open spec fn number_free(workspaces: Seq<WorkspaceView>) -> spec_fn(int) -> bool {
    |k: int| first_below(workspaces.len(), named(workspaces, decimal((k + 1) as nat))) is None
}

/// What the shell holds.
#[verifier::ext_equal]
pub struct ShellView {
    pub workspaces: Seq<WorkspaceView>,
    pub focused: Option<WindowId>,
    pub manager: ManagerView,
    pub focused_output: Option<VirtualOutputId>,
    pub master_count: usize,
}

impl ShellView {
    /// Place of the workspace of a name.
    pub open spec fn workspace_named(self, name: Seq<char>) -> Option<int> {
        first_below(self.workspaces.len(), named(self.workspaces, name))
    }

    /// Place of the first workspace that holds a window.
    pub open spec fn holder(self, window: WindowId) -> Option<int> {
        first_below(self.workspaces.len(), holds(self.workspaces, window))
    }

    /// Place of the first virtual output that shows a workspace.
    pub open spec fn owner(self, index: int) -> Option<int> {
        first_below(self.manager.outputs.len(), shows(self.manager.outputs, workspace_id(index)))
    }

    /// Whether some virtual output shows the workspace.
    pub open spec fn visible(self, index: int) -> bool {
        self.owner(index) is Some
    }

    /// Whether every virtual output shows a workspace that exists, if any, and there is
    /// room to number more.
    pub open spec fn actives_valid(self) -> bool {
        forall|j: int|
            0 <= j < self.manager.outputs.len() ==> ((
            #[trigger] self.manager.outputs[j]).active matches Some(id) ==> 1 <= id.0
                <= self.workspaces.len())
    }

    /// Whether no two workspaces have one name.
    pub open spec fn names_distinct(self) -> bool {
        forall|i: int, j: int|
            0 <= i < j < self.workspaces.len() ==> (#[trigger] self.workspaces[i]).name != (
            #[trigger] self.workspaces[j]).name
    }

    /// Whether no workspace is shown on two virtual outputs.
    pub open spec fn one_to_one(self) -> bool {
        forall|i: int, j: int|
            0 <= i < j < self.manager.outputs.len() && (
            #[trigger] self.manager.outputs[i]).active is Some ==> self.manager.outputs[i].active
                != (#[trigger] self.manager.outputs[j]).active
    }

    /// Whether no window is in two workspaces.
    pub open spec fn windows_apart(self) -> bool {
        forall|i: int, j: int, w: WindowId|
            #![trigger self.workspaces[i].windows.contains(w), self.workspaces[j]]
            0 <= i < self.workspaces.len() && 0 <= j < self.workspaces.len() && i != j
                && self.workspaces[i].windows.contains(w)
                ==> !self.workspaces[j].windows.contains(w)
    }

    /// Whether there is room for two more workspaces.
    pub open spec fn has_room(self) -> bool {
        self.workspaces.len() + 2 < u64::MAX
    }

    /// A shell without workspaces.
    pub open spec fn empty(master_count: usize) -> ShellView {
        ShellView {
            workspaces: Seq::empty(),
            focused: None,
            manager: ManagerView::empty(),
            focused_output: None,
            master_count,
        }
    }

    /// The shell with one workspace changed.
    pub open spec fn with_workspace(self, index: int, workspace: WorkspaceView) -> ShellView {
        ShellView { workspaces: self.workspaces.update(index, workspace), ..self }
    }

    /// The shell with other virtual outputs.
    pub open spec fn with_manager(self, manager: ManagerView) -> ShellView {
        ShellView { manager, ..self }
    }

    /// The shell with a workspace of the name: the one that is there, or a new one.
    pub open spec fn find_or_create(self, name: Seq<char>) -> (ShellView, int) {
        match self.workspace_named(name) {
            Some(i) => (self, i),
            None => (
                ShellView {
                    workspaces: self.workspaces.push(
                        WorkspaceView::empty(name, self.master_count),
                    ),
                    ..self
                },
                self.workspaces.len() as int,
            ),
        }
    }

    /// Workspaces other than `excluded` that no virtual output shows.
    pub open spec fn spare(self, excluded: int) -> spec_fn(int) -> bool {
        |i: int| i != excluded && !self.visible(i)
    }

    /// The number that a new workspace is named by: the first of one to a hundred that
    /// is no workspace's name, else one.
    pub open spec fn free_number(self) -> nat {
        match first_below(100, number_free(self.workspaces)) {
            Some(k) => (k + 1) as nat,
            None => 1,
        }
    }

    /// The shell with a workspace to put in the place of `excluded`: one that is not
    /// visible, else a new one.
    pub open spec fn find_fallback(self, excluded: int) -> (ShellView, int) {
        match first_below(self.workspaces.len(), self.spare(excluded)) {
            Some(i) => (self, i),
            None => self.find_or_create(decimal(self.free_number())),
        }
    }

    /// The shell with the workspace taken off the virtual output that shows it, unless
    /// that is `id`, and the commands for it.
    pub open spec fn release(self, id: VirtualOutputId, index: int) -> (ShellView, Seq<Command>) {
        match self.owner(index) {
            Some(j) => if self.manager.outputs[j].id != id {
                let owner = self.manager.outputs[j].id;
                let (s, fallback) = self.find_fallback(index);
                (
                    s.with_manager(s.manager.set_active(owner, Some(workspace_id(fallback)))),
                    hide_all(s.workspaces[index].windows) + show_all(
                        s.workspaces[fallback].windows,
                    ),
                )
            } else {
                (self, Seq::empty())
            },
            None => (self, Seq::empty()),
        }
    }

    /// Windows of the workspace that a virtual output shows.
    pub open spec fn shown_windows(self, id: VirtualOutputId) -> Seq<WindowId> {
        match self.manager.get(id) {
            Some(v) => match v.active {
                Some(ws) => self.workspaces[ws.0 - 1].windows,
                None => Seq::empty(),
            },
            None => Seq::empty(),
        }
    }

    /// The shell with the workspace shown on the virtual output, if there is such a
    /// virtual output, and marked for arrangement.
    pub open spec fn show(self, id: VirtualOutputId, index: int) -> ShellView {
        match self.manager.get(id) {
            Some(v) => self.with_manager(
                self.manager.set_active(id, Some(workspace_id(index))),
            ).with_workspace(
                index,
                WorkspaceView {
                    virtual_output: Some(id),
                    needs_arrange: true,
                    ..self.workspaces[index].update_output_geometry(
                        VirtualOutputRelativeRect(
                            Rectangle { loc: Point { x: 0, y: 0 }, size: v.geometry.0.size },
                        ),
                    )
                },
            ),
            None => self.with_workspace(
                index,
                WorkspaceView { needs_arrange: true, ..self.workspaces[index] },
            ),
        }
    }

    /// Arranges the first output that shows the virtual output.
    pub open spec fn arrange_first(self, id: VirtualOutputId) -> Seq<Command> {
        match self.manager.get(id) {
            Some(v) => if v.regions.len() > 0 {
                seq![Command::Arrange { output: v.regions[0].output }]
            } else {
                Seq::empty()
            },
            None => Seq::empty(),
        }
    }

    /// The shell with a virtual output switched to the workspace of a name, and the
    /// commands for it: the workspace leaves the virtual output that shows it, the old
    /// one is hidden, the new one shown and arranged.
    pub open spec fn switch_on_virtual(self, id: VirtualOutputId, name: Seq<char>) -> (ShellView, Seq<Command>) {
        let (s1, index) = self.find_or_create(name);
        let (s2, released) = s1.release(id, index);
        let s3 = s2.show(id, index);
        (
            s3,
            released + hide_all(s2.shown_windows(id)) + show_all(s3.workspaces[index].windows)
                + s3.arrange_first(id),
        )
    }

    /// Whether the `k`-th of the outputs can be added: there is room for its workspace and, if
    /// no virtual output shows it, it has a mode and there is an identifier for one.
    pub open spec fn can_add_output(self, outputs: Seq<OutputView>, k: int) -> bool {
        &&& self.has_room()
        &&& shown_on(self.manager.update_all(outputs).outputs, outputs[k].name).len() == 0
            ==> outputs[k].mode is Some && self.manager.next_id < u32::MAX
    }

    /// The shell with an output added: the virtual outputs are brought up to date and,
    /// if none shows the output, a new one is made for it that shows the first
    /// workspace.
    pub open spec fn add_output(self, outputs: Seq<OutputView>, k: int) -> (ShellView, Seq<Command>) {
        let s1 = self.with_manager(self.manager.update_all(outputs));
        if shown_on(s1.manager.outputs, outputs[k].name).len() == 0 {
            let id = VirtualOutputId(s1.manager.next_id as u32);
            s1.with_manager(s1.manager.create_default(outputs[k])).switch_on_virtual(id, decimal(1))
        } else {
            (s1, Seq::empty())
        }
    }

    /// The shell with a workspace shown on the virtual output, and that workspace's
    /// place: the one shown already, else the first.
    pub open spec fn ensure_workspace(self, id: VirtualOutputId) -> (ShellView, int) {
        match self.manager.get(id) {
            Some(v) => match v.active {
                Some(ws) => (self, ws.0 - 1),
                None => {
                    let (s, index) = self.find_or_create(decimal(1));
                    (
                        s.with_manager(s.manager.set_active(id, Some(workspace_id(index)))),
                        index,
                    )
                },
            },
            None => self.find_or_create(decimal(1)),
        }
    }

    /// The virtual output that shows the focused window.
    pub open spec fn focus_owner(self) -> Option<(int, int)> {
        match self.focused {
            Some(w) => match first_below(self.workspaces.len(), self.holds_visibly(w)) {
                Some(i) => Some((i, self.owner(i).unwrap())),
                None => None,
            },
            None => None,
        }
    }

    /// Whether the workspace at a place holds the window and is visible.
    pub open spec fn holds_visibly(self, window: WindowId) -> spec_fn(int) -> bool {
        |i: int| self.workspaces[i].windows.contains(window) && self.visible(i)
    }

    /// The shell with the focused virtual output brought up to date.
    pub open spec fn update_focused_output(self) -> ShellView {
        ShellView {
            focused_output: match self.focus_owner() {
                Some((i, j)) => Some(self.manager.outputs[j].id),
                None => None,
            },
            ..self
        }
    }

    /// The shell with a window focused.
    pub open spec fn set_focus(self, window: WindowId) -> ShellView {
        let s = ShellView { focused: Some(window), ..self }.update_focused_output();
        match s.holder(window) {
            Some(i) => s.with_workspace(i, s.workspaces[i].focus(window)),
            None => s,
        }
    }

    /// The shell with a window added to what a virtual output shows.
    pub open spec fn add_window_to_virtual_output(
        self,
        window: WindowId,
        id: VirtualOutputId,
        floating: bool,
    ) -> (ShellView, Seq<Command>) {
        let (s, index) = self.ensure_workspace(id);
        let workspace = WorkspaceView {
            virtual_output: Some(id),
            ..s.workspaces[index]
        }.add_window(window, floating).append_focus(window);
        let location = match s.manager.get(id) {
            Some(v) => v.geometry.0.loc,
            None => Point { x: 0, y: 0 },
        };
        let regions = match s.manager.get(id) {
            Some(v) => v.regions,
            None => Seq::empty(),
        };
        (
            ShellView { focused: Some(window), ..s.with_workspace(index, workspace) },
            seq![Command::Show { window, location }] + arrange_all(regions),
        )
    }

    /// The virtual output on an output at the pointer's place, else the first.
    pub open spec fn virtual_output_for(self, output: Seq<char>, pointer: Option<Point>) -> VirtualOutputId {
        let shown = shown_on(self.manager.outputs, output);
        match pointer {
            Some(point) => match first_below(shown.len(), covers(shown, point)) {
                Some(i) => shown[i].id,
                None => shown[0].id,
            },
            None => shown[0].id,
        }
    }

    /// The shell with a virtual output for the physical one, and its identifier: of those that
    /// the output shows, the one at the pointer's place or else the first; where it shows none,
    /// a new one.
    pub open spec fn ensure_virtual_output(self, output: OutputView, pointer: Option<Point>) -> (ShellView, VirtualOutputId) {
        let shown = shown_on(self.manager.outputs, output.name);
        if shown.len() > 0 {
            (self, self.virtual_output_for(output.name, pointer))
        } else {
            (
                self.with_manager(self.manager.create_default(output)),
                VirtualOutputId(self.manager.next_id as u32),
            )
        }
    }

    /// The shell with a window added to what an output shows at the pointer's place, and
    /// focused.
    pub open spec fn add_window(
        self,
        window: WindowId,
        output: OutputView,
        floating: bool,
        pointer: Option<Point>,
    ) -> (ShellView, Seq<Command>) {
        let (s1, id) = self.ensure_virtual_output(output, pointer);
        let (s2, index) = s1.ensure_workspace(id);
        let workspace = WorkspaceView {
            virtual_output: Some(id),
            ..s2.workspaces[index]
        }.add_window(window, floating);
        (
            s2.with_workspace(index, workspace).set_focus(window),
            seq![
                Command::Show { window, location: Point { x: 0, y: 0 } },
                Command::Arrange { output: output.id },
            ],
        )
    }

    /// The shell with a window removed from all workspaces; the dead windows leave their focus
    /// histories with it.
    pub open spec fn remove_window(self, window: WindowId, dead: Seq<WindowId>) -> ShellView {
        let s = ShellView {
            workspaces: Seq::new(
                self.workspaces.len(),
                |i: int| self.workspaces[i].remove_window(window, dead),
            ),
            ..self
        };
        if self.focused == Some(window) {
            ShellView { focused: None, ..s }.update_focused_output()
        } else {
            s
        }
    }

    /// Whether a virtual output shows a workspace that holds the window.
    pub open spec fn shows_window(self, v: VirtualOutputView, window: WindowId) -> bool {
        match v.active {
            Some(ws) => self.workspaces[ws.0 - 1].windows.contains(window),
            None => false,
        }
    }

    /// The outputs of the first `k` virtual outputs that show a workspace which holds the
    /// window.
    pub open spec fn outputs_showing(self, window: WindowId, k: int) -> Seq<u64>
        decreases k,
    {
        if k <= 0 {
            Seq::empty()
        } else {
            let before = self.outputs_showing(window, k - 1);
            let v = self.manager.outputs[k - 1];
            if self.shows_window(v, window) {
                before + region_outputs(v.regions)
            } else {
                before
            }
        }
    }

    /// The outputs that have to be drawn again once the window has left: those of the virtual
    /// outputs that show a workspace which holds it.
    pub open spec fn affected_outputs(self, window: WindowId) -> Seq<u64> {
        self.outputs_showing(window, self.manager.outputs.len() as int)
    }

    /// The shell with a window moved to the workspace of a name, and focused.
    pub open spec fn move_window(
        self,
        window: WindowId,
        name: Seq<char>,
        output: Seq<char>,
        floating: bool,
        dead: Seq<WindowId>,
    ) -> (ShellView, Seq<Command>) {
        let (s, index) = self.remove_window(window, dead).find_or_create(name);
        let shown = shown_on(s.manager.outputs, output);
        let mapped = first_below(shown.len(), shows(shown, workspace_id(index))) is Some;
        (
            s.with_workspace(index, s.workspaces[index].add_window(window, floating)).set_focus(
                window,
            ),
            seq![Command::Hide { window }] + (if mapped {
                seq![Command::Show { window, location: Point { x: 0, y: 0 } }]
            } else {
                Seq::empty()
            }),
        )
    }

    /// Virtual outputs of a list that show a workspace with a fullscreen window.
    pub open spec fn fullscreen_filter(self, shown: Seq<VirtualOutputView>) -> spec_fn(int) -> bool {
        |i: int|
            shown[i].active is Some && self.workspaces[shown[i].active.unwrap().0
                - 1].fullscreen is Some
    }

    /// The fullscreen window on an output.
    pub open spec fn fullscreen_on(self, output: Seq<char>) -> Option<WindowId> {
        let shown = shown_on(self.manager.outputs, output);
        match first_below(shown.len(), self.fullscreen_filter(shown)) {
            Some(i) => self.workspaces[shown[i].active.unwrap().0 - 1].fullscreen,
            None => None,
        }
    }

    /// The shell with a window made fullscreen, or no longer so.
    pub open spec fn set_fullscreen(self, window: WindowId, fullscreen: bool) -> ShellView {
        match self.holder(window) {
            Some(i) => self.with_workspace(
                i,
                self.workspaces[i].set_fullscreen(
                    if fullscreen {
                        Some(window)
                    } else if self.workspaces[i].fullscreen == Some(window) {
                        None
                    } else {
                        self.workspaces[i].fullscreen
                    },
                ),
            ),
            None => self,
        }
    }

    /// Place of the workspace that `toggle_fullscreen` changes: the one that holds the focused
    /// window, if the virtual output that it was last shown on shows a workspace.
    pub open spec fn fullscreen_target(self) -> Option<int> {
        match self.focused {
            Some(w) => match self.holder(w) {
                Some(i) => match self.workspaces[i].virtual_output {
                    Some(id) => match self.manager.get(id) {
                        Some(v) => match v.active {
                            Some(ws) => Some(i),
                            None => None,
                        },
                        None => None,
                    },
                    None => None,
                },
                None => None,
            },
            None => None,
        }
    }

    /// The shell with the focused window made fullscreen, or no longer so.
    pub open spec fn toggle_fullscreen(self) -> ShellView {
        match self.fullscreen_target() {
            Some(i) => self.with_workspace(
                i,
                self.workspaces[i].set_fullscreen(
                    if self.workspaces[i].fullscreen == self.focused {
                        None
                    } else {
                        self.focused
                    },
                ),
            ),
            None => self,
        }
    }

    /// The shell with a window changed from tiled to floating or back.
    pub open spec fn toggle_floating(self, window: WindowId) -> (ShellView, Seq<Command>) {
        match self.holder(window) {
            Some(i) => (
                self.with_workspace(i, self.workspaces[i].toggle_floating(window)),
                if self.workspaces[i].floating.contains(window) {
                    Seq::empty()
                } else {
                    seq![Command::Release { window }]
                },
            ),
            None => (self, Seq::empty()),
        }
    }

    /// What `zoom` exchanges: the place of a workspace, and in it those of the first master
    /// window and of the focused one, if that does not float and is another.
    pub open spec fn zoom_target(self) -> Option<(int, int, int)> {
        match self.focused {
            Some(w) => match self.holder(w) {
                Some(i) => match first_position(self.workspaces[i].windows, w) {
                    Some(k) => match self.workspaces[i].master() {
                        Some(m) => if m < k && !self.workspaces[i].floating.contains(w) {
                            Some((i, m, k))
                        } else {
                            None
                        },
                        None => None,
                    },
                    None => None,
                },
                None => None,
            },
            None => None,
        }
    }

    /// The window that gets the focus after the focused one, or before it.
    pub open spec fn neighbour(self, forward: bool, tiled: Seq<WindowId>) -> WindowId {
        match first_position(tiled, self.focused.unwrap()) {
            Some(k) => if forward {
                tiled[(k + 1) % (tiled.len() as int)]
            } else if k == 0 {
                tiled.last()
            } else {
                tiled[k - 1]
            },
            None => if forward {
                tiled[0]
            } else {
                tiled.last()
            },
        }
    }

    /// The shell with the focus moved on by one window, going round among the windows
    /// that do not float.
    pub open spec fn cycle_focus(self, forward: bool, dead: Seq<WindowId>) -> ShellView {
        match self.focused {
            Some(w) => match self.holder(w) {
                Some(i) => {
                    let s = self.with_workspace(i, self.workspaces[i].refresh(dead));
                    let tiled = s.workspaces[i].anchored();
                    if tiled.len() <= 1 {
                        s
                    } else {
                        s.set_focus(s.neighbour(forward, tiled))
                    }
                },
                None => self,
            },
            None => self,
        }
    }

    /// The focus histories of all visible workspaces, one after the other.
    pub open spec fn visible_history(self, k: int) -> Seq<WindowId>
        decreases k,
    {
        if k <= 0 {
            Seq::empty()
        } else {
            self.visible_history(k - 1) + (match self.manager.outputs[k - 1].active {
                Some(ws) => self.workspaces[ws.0 - 1].focus_stack,
                None => Seq::empty(),
            })
        }
    }

    /// The window focused last among those that are visible and alive.
    pub open spec fn last_focused(self, dead: Seq<WindowId>) -> Option<WindowId> {
        let alive = without_all(self.visible_history(self.manager.outputs.len() as int), dead);
        if alive.len() > 0 {
            Some(alive.last())
        } else {
            None
        }
    }

    /// The shell with the focus on the window focused last.
    pub open spec fn refresh_focus(self, dead: Seq<WindowId>) -> ShellView {
        ShellView { focused: self.last_focused(dead), ..self }.update_focused_output()
    }

    /// Places of the workspaces that an output shows.
    pub open spec fn workspaces_on(self, output: Seq<char>) -> Seq<int> {
        active_places(shown_on(self.manager.outputs, output))
    }

    /// The shell with every workspace that an output shows marked for arrangement.
    pub open spec fn mark_on(self, output: Seq<char>) -> ShellView {
        ShellView {
            workspaces: Seq::new(
                self.workspaces.len(),
                |i: int|
                    if self.workspaces_on(output).contains(i) {
                        WorkspaceView { needs_arrange: true, ..self.workspaces[i] }
                    } else {
                        self.workspaces[i]
                    },
            ),
            ..self
        }
    }

    /// Place of the workspace that the first virtual output on an output shows.
    pub open spec fn active_on(self, output: Seq<char>) -> Option<int> {
        let shown = shown_on(self.manager.outputs, output);
        if shown.len() > 0 {
            match shown[0].active {
                Some(ws) => Some(ws.0 - 1),
                None => None,
            }
        } else {
            None
        }
    }

    /// Place of the workspace shown at a point of an output.
    pub open spec fn workspace_at(self, output: Seq<char>, point: Point) -> Option<int> {
        let shown = shown_on(self.manager.outputs, output);
        match first_below(shown.len(), covers(shown, point)) {
            Some(i) => match shown[i].active {
                Some(ws) => Some(ws.0 - 1),
                None => None,
            },
            None => None,
        }
    }
}

/// Places of the workspaces that a list of virtual outputs shows.
pub open spec fn active_places(shown: Seq<VirtualOutputView>) -> Seq<int>
    decreases shown.len(),
{
    if shown.len() == 0 {
        Seq::empty()
    } else {
        let before = active_places(shown.drop_last());
        match shown.last().active {
            Some(ws) => before.push(ws.0 - 1),
            None => before,
        }
    }
}

} // verus!
