//! Windows, workspaces and virtual outputs.

pub mod arrange;
pub mod hit;
pub mod laws;
pub mod model;
pub mod operation_laws;
pub mod output;
pub mod popup;
pub mod render;
pub mod tabs;
pub mod tiling;
pub mod virtual_output;
pub mod workspace;
pub mod workspace_laws;

use vstd::prelude::*;

use crate::shell::arrange::{
    area_in, compute_area, frame_of, global_zone, lemma_arrange_frame, plan_entries, Frame,
};
use crate::shell::model::{
    active_places, arrange_all, covers, hide_all, holds, named, number_free, region_outputs,
    show_all, shows, workspace_id, Command, ShellView,
};
use crate::shell::output::{output_views, Output};
use crate::shell::tabs::{
    distance_in, find_tab, in_bar, pointer_distance, pointer_in_bar, tab_at, Pointer,
};
use crate::shell::tiling::{TilingLayout, WindowId};
use crate::shell::virtual_output::{
    each_once, ids_distinct, law_config_ids, lemma_shown_on_member, lemma_view_position, mentions, region_views, shown_on,
    ManagerView, RegionView, VirtualOutput, VirtualOutputManager, VirtualOutputView, VirtualRegion,
};
use crate::shell::workspace::{LayoutMode, VirtualOutputId, Workspace, WorkspaceId, WorkspaceView};
use crate::utils::coordinates::{GlobalRect, OutputRelativePoint, VirtualOutputRelativeRect};
use crate::utils::geometry::{Point, Rectangle};
use crate::utils::lists;
use crate::utils::search::{first_below, lemma_first_below, lemma_is_first_below, lemma_none_below};
use crate::utils::text::{decimal, decimal_text, same_text, split_spec};

verus! {

/// What a list of workspaces holds.
pub open spec fn workspace_views(workspaces: Seq<Workspace>) -> Seq<WorkspaceView> {
    Seq::new(workspaces.len(), |i: int| workspaces[i]@)
}

/// A copy of an optional text.
pub open spec fn text_view(text: Option<String>) -> Option<Seq<char>> {
    match text {
        Some(t) => Some(t@),
        None => None,
    }
}

/// The windows of the compositor, in their workspaces.
///
/// Workspaces are never removed. The one at place `i` has the identifier `i + 1`.
pub struct Shell {
    workspaces: Vec<Workspace>,
    focused_window: Option<WindowId>,
    virtual_output_manager: VirtualOutputManager,
    focused_virtual_output_id: Option<VirtualOutputId>,
    n_master: Option<String>,
}

impl View for Shell {
    type V = ShellView;

    closed spec fn view(&self) -> ShellView {
        ShellView {
            workspaces: workspace_views(self.workspaces@),
            focused: self.focused_window,
            manager: self.virtual_output_manager@,
            focused_output: self.focused_virtual_output_id,
            master_count: TilingLayout::master_setting(text_view(self.n_master)),
        }
    }
}

/// Appends commands that show each window at the origin.
fn push_show_all(commands: &mut Vec<Command>, windows: &Vec<WindowId>)
    ensures
        final(commands)@ == old(commands)@ + show_all(windows@),
{
    let mut i: usize = 0;
    assert(old(commands)@ + show_all(windows@).take(0) =~= old(commands)@);
    while i < windows.len()
        invariant
            i <= windows@.len(),
            commands@ == old(commands)@ + show_all(windows@).take(i as int),
        decreases windows@.len() - i,
    {
        commands.push(Command::Show { window: windows[i], location: Point { x: 0, y: 0 } });
        assert(show_all(windows@).take(i + 1) =~= show_all(windows@).take(i as int).push(
            show_all(windows@)[i as int],
        ));
        assert(commands@ =~= old(commands)@ + show_all(windows@).take(i + 1));
        i = i + 1;
    }
    assert(show_all(windows@).take(i as int) =~= show_all(windows@));
}

/// Appends commands that hide each window.
pub(crate) fn push_hide_all(commands: &mut Vec<Command>, windows: &Vec<WindowId>)
    ensures
        final(commands)@ == old(commands)@ + hide_all(windows@),
{
    let mut i: usize = 0;
    assert(old(commands)@ + hide_all(windows@).take(0) =~= old(commands)@);
    while i < windows.len()
        invariant
            i <= windows@.len(),
            commands@ == old(commands)@ + hide_all(windows@).take(i as int),
        decreases windows@.len() - i,
    {
        commands.push(Command::Hide { window: windows[i] });
        assert(hide_all(windows@).take(i + 1) =~= hide_all(windows@).take(i as int).push(
            hide_all(windows@)[i as int],
        ));
        assert(commands@ =~= old(commands)@ + hide_all(windows@).take(i + 1));
        i = i + 1;
    }
    assert(hide_all(windows@).take(i as int) =~= hide_all(windows@));
}

/// The outputs that show the regions.
fn outputs_of(regions: &Vec<VirtualRegion>) -> (r: Vec<u64>)
    ensures
        r@ == region_outputs(region_views(regions@)),
{
    let mut list: Vec<u64> = Vec::new();
    let mut i: usize = 0;
    while i < regions.len()
        invariant
            i <= regions@.len(),
            list@.len() == i,
            forall|j: int| 0 <= j < i ==> #[trigger] list@[j] == regions@[j].physical_output.id,
        decreases regions@.len() - i,
    {
        list.push(regions[i].physical_output.id);
        i = i + 1;
    }
    assert(list@ =~= region_outputs(region_views(regions@)));
    list
}

impl Shell {
    /// The invariant: all workspaces and the virtual outputs are consistent, no two
    /// workspaces have one name, and virtual outputs show workspaces that exist.
    pub closed spec fn wf(self) -> bool {
        &&& forall|i: int| 0 <= i < self.workspaces@.len() ==> (#[trigger] self.workspaces@[i]).wf()
        &&& self.virtual_output_manager.wf()
        &&& self@.names_distinct()
        &&& self@.actives_valid()
    }

    /// In a well-formed shell every workspace is consistent, no two workspaces have one name,
    /// virtual outputs show workspaces that exist, no two virtual outputs have one identifier,
    /// present or future, and none has two regions on one output.
    pub proof fn law_wf(self)
        requires
            self.wf(),
        ensures
            forall|i: int|
                0 <= i < self@.workspaces.len() ==> (#[trigger] self@.workspaces[i]).consistent(),
            self@.names_distinct(),
            self@.actives_valid(),
            ids_distinct(self@.manager.outputs),
            each_once(self@.manager.outputs),
            forall|i: int|
                0 <= i < self@.manager.outputs.len() ==> (#[trigger] self@.manager.outputs[i]).id.0
                    < self@.manager.next_id,
    {
        self.virtual_output_manager.lemma_ids();
        assert forall|i: int| 0 <= i < self@.workspaces.len() implies (
        #[trigger] self@.workspaces[i]).consistent() by {
            self.workspaces@[i].law_wf();
        }
    }

    /// A shell without workspaces. `n_master` is the text of the setting for the number
    /// of master windows, where there is one.
    pub fn new(n_master: Option<String>) -> (r: Shell)
        ensures
            r.wf(),
            r@ == ShellView::empty(TilingLayout::master_setting(text_view(n_master))),
    {
        let r = Shell {
            workspaces: Vec::new(),
            focused_window: None,
            virtual_output_manager: VirtualOutputManager::new(),
            focused_virtual_output_id: None,
            n_master,
        };
        assert(r@.workspaces =~= Seq::<WorkspaceView>::empty());
        r
    }

    /// The workspaces, in order of their identifiers.
    pub fn workspaces(&self) -> (r: &Vec<Workspace>)
        ensures
            workspace_views(r@) == self@.workspaces,
    {
        &self.workspaces
    }

    /// The focused window.
    pub fn focused_window(&self) -> (r: Option<WindowId>)
        ensures
            r == self@.focused,
    {
        self.focused_window
    }

    /// The virtual outputs.
    pub fn virtual_output_manager(&self) -> (r: &VirtualOutputManager)
        requires
            self.wf(),
        ensures
            r@ == self@.manager,
            r.wf(),
    {
        &self.virtual_output_manager
    }

    /// The virtual output that shows the focused window.
    pub fn focused_virtual_output_id(&self) -> (r: Option<VirtualOutputId>)
        ensures
            r == self@.focused_output,
    {
        self.focused_virtual_output_id
    }

    /// Place of the workspace with the identifier.
    fn place_of(&self, id: WorkspaceId) -> (r: Option<usize>)
        ensures
            match r {
                Some(i) => i < self@.workspaces.len() && id.0 == i + 1,
                None => id.0 == 0 || id.0 > self@.workspaces.len(),
            },
    {
        if id.0 >= 1 && id.0 <= self.workspaces.len() as u64 {
            Some((id.0 - 1) as usize)
        } else {
            None
        }
    }

    /// Place of the workspace of a name.
    fn find_named(&self, name: &str) -> (r: Option<usize>)
        ensures
            match r {
                Some(i) => i < self@.workspaces.len() && self@.workspace_named(name@) == Some(
                    i as int,
                ) && self@.workspaces[i as int].name == name@,
                None => self@.workspace_named(name@) is None && forall|j: int|
                    0 <= j < self@.workspaces.len() ==> (#[trigger] self@.workspaces[j]).name
                        != name@,
            },
    {
        let ghost p = named(self@.workspaces, name@);
        let mut i: usize = 0;
        while i < self.workspaces.len()
            invariant
                i <= self.workspaces@.len(),
                p == named(self@.workspaces, name@),
                forall|j: int| 0 <= j < i ==> !(#[trigger] p(j)),
            decreases self.workspaces@.len() - i,
        {
            if same_text(self.workspaces[i].name().as_str(), name) {
                proof {
                    assert(self@.workspaces[i as int].name == name@);
                    lemma_is_first_below(self@.workspaces.len(), p, i as int);
                }
                return Some(i);
            }
            assert(!p(i as int));
            i = i + 1;
        }
        proof {
            lemma_none_below(self@.workspaces.len(), p);
            assert forall|j: int| 0 <= j < self@.workspaces.len() implies (
            #[trigger] self@.workspaces[j]).name != name@ by {
                assert(!p(j));
            }
        }
        None
    }

    /// Place of the first workspace that holds a window.
    fn find_holder(&self, window: WindowId) -> (r: Option<usize>)
        ensures
            match r {
                Some(i) => i < self@.workspaces.len() && self@.holder(window) == Some(i as int)
                    && self@.workspaces[i as int].windows.contains(window),
                None => self@.holder(window) is None,
            },
    {
        let ghost p = holds(self@.workspaces, window);
        let mut i: usize = 0;
        while i < self.workspaces.len()
            invariant
                i <= self.workspaces@.len(),
                p == holds(self@.workspaces, window),
                forall|j: int| 0 <= j < i ==> !(#[trigger] p(j)),
            decreases self.workspaces@.len() - i,
        {
            if self.workspaces[i].contains(window) {
                proof {
                    assert(p(i as int));
                    lemma_is_first_below(self@.workspaces.len(), p, i as int);
                }
                return Some(i);
            }
            assert(!p(i as int));
            i = i + 1;
        }
        proof {
            lemma_none_below(self@.workspaces.len(), p);
        }
        None
    }

    /// Place of the first virtual output that shows the workspace.
    fn find_shower(&self, id: WorkspaceId) -> (r: Option<usize>)
        ensures
            match r {
                Some(j) => j < self@.manager.outputs.len() && first_below(
                    self@.manager.outputs.len(),
                    shows(self@.manager.outputs, id),
                ) == Some(j as int),
                None => first_below(
                    self@.manager.outputs.len(),
                    shows(self@.manager.outputs, id),
                ) is None,
            },
    {
        let ghost p = shows(self@.manager.outputs, id);
        let n: usize = self.virtual_output_manager.len();
        let mut j: usize = 0;
        while j < n
            invariant
                j <= n,
                n == self@.manager.outputs.len(),
                p == shows(self@.manager.outputs, id),
                forall|k: int| 0 <= k < j ==> !(#[trigger] p(k)),
            decreases n - j,
        {
            let shown = match self.virtual_output_manager.at(j).active_workspace() {
                Some(active) => active == id,
                None => false,
            };
            if shown {
                proof {
                    assert(p(j as int));
                    lemma_is_first_below(self@.manager.outputs.len(), p, j as int);
                }
                return Some(j);
            }
            assert(!p(j as int));
            j = j + 1;
        }
        proof {
            lemma_none_below(self@.manager.outputs.len(), p);
        }
        None
    }

    /// Place of the first virtual output that shows the workspace at a place.
    fn find_owner(&self, index: usize) -> (r: Option<usize>)
        requires
            index < u64::MAX,
        ensures
            match r {
                Some(j) => j < self@.manager.outputs.len() && self@.owner(index as int) == Some(
                    j as int,
                ),
                None => self@.owner(index as int) is None,
            },
    {
        let id = WorkspaceId(index as u64 + 1);
        assert(id == workspace_id(index as int));
        self.find_shower(id)
    }

    /// The virtual output that shows the workspace, if any.
    pub fn find_workspace_owner(&self, workspace: WorkspaceId) -> (r: Option<VirtualOutputId>)
        ensures
            r == (match first_below(
                self@.manager.outputs.len(),
                shows(self@.manager.outputs, workspace),
            ) {
                Some(j) => Some(self@.manager.outputs[j].id),
                None => None,
            }),
    {
        match self.find_shower(workspace) {
            Some(j) => Some(self.virtual_output_manager.at(j).id()),
            None => None,
        }
    }

    /// The workspace of a name: the one that is there, or a new one.
    pub fn find_or_create_workspace_id(&mut self, workspace_name: &str) -> (r: WorkspaceId)
        requires
            old(self).wf(),
            old(self)@.workspaces.len() < u64::MAX,
        ensures
            final(self).wf(),
            final(self)@ == old(self)@.find_or_create(workspace_name@).0,
            r == workspace_id(old(self)@.find_or_create(workspace_name@).1),
            1 <= r.0 <= final(self)@.workspaces.len(),
            final(self)@.workspaces[r.0 - 1].name == workspace_name@,
    {
        match self.find_named(workspace_name) {
            Some(i) => WorkspaceId(i as u64 + 1),
            None => {
                let setting = match &self.n_master {
                    Some(text) => Some(text.as_str()),
                    None => None,
                };
                let workspace = Workspace::new(String::from_str(workspace_name), setting);
                self.workspaces.push(workspace);
                proof {
                    assert(self@.workspaces =~= old(self)@.workspaces.push(
                        WorkspaceView::empty(workspace_name@, old(self)@.master_count),
                    ));
                    assert forall|i: int, j: int| 0 <= i < j < self@.workspaces.len() implies (
                    #[trigger] self@.workspaces[i]).name != (
                    #[trigger] self@.workspaces[j]).name by {
                        assert(self@.workspaces[i] == old(self)@.workspaces[i]);
                        if j < old(self)@.workspaces.len() {
                            assert(self@.workspaces[j] == old(self)@.workspaces[j]);
                        }
                    }
                    assert forall|i: int| 0 <= i < self.workspaces@.len() implies (
                    #[trigger] self.workspaces@[i]).wf() by {
                        if i < old(self).workspaces@.len() {
                            assert(self.workspaces@[i] == old(self).workspaces@[i]);
                        }
                    }
                }
                WorkspaceId(self.workspaces.len() as u64)
            },
        }
    }
}

impl Shell {
    /// The shell after one workspace changed in place.
    proof fn lemma_workspace_changed(before: Shell, after: Shell, i: int)
        requires
            before.wf(),
            0 <= i < before.workspaces@.len(),
            after.workspaces@ == before.workspaces@.update(i, after.workspaces@[i]),
            after.workspaces@[i].wf(),
            after.workspaces@[i]@.name == before.workspaces@[i]@.name,
            after.focused_window == before.focused_window,
            after.virtual_output_manager == before.virtual_output_manager,
            after.focused_virtual_output_id == before.focused_virtual_output_id,
            after.n_master == before.n_master,
        ensures
            after.wf(),
            after@ == before@.with_workspace(i, after.workspaces@[i]@),
    {
        assert(after@.workspaces =~= before@.workspaces.update(i, after.workspaces@[i]@));
        assert(after@ =~= before@.with_workspace(i, after.workspaces@[i]@));
        assert forall|k: int| 0 <= k < after.workspaces@.len() implies (
        #[trigger] after.workspaces@[k]).wf() by {
            if k != i {
                assert(after.workspaces@[k] == before.workspaces@[k]);
            }
        }
        assert forall|k: int| 0 <= k < after@.workspaces.len() implies (
        #[trigger] after@.workspaces[k]).name == before@.workspaces[k].name by {}
        assert forall|a: int, b: int| 0 <= a < b < after@.workspaces.len() implies (
        #[trigger] after@.workspaces[a]).name != (#[trigger] after@.workspaces[b]).name by {
            assert(before@.workspaces[a].name != before@.workspaces[b].name);
        }
    }

    /// The shell after a virtual output was switched to a workspace that exists.
    proof fn lemma_active_set(before: Shell, after: Shell, id: VirtualOutputId, index: int)
        requires
            before.wf(),
            0 <= index < before@.workspaces.len(),
            before@.workspaces.len() < u64::MAX,
            after.workspaces == before.workspaces,
            after.focused_window == before.focused_window,
            after.virtual_output_manager.wf(),
            after.virtual_output_manager@ == before.virtual_output_manager@.set_active(
                id,
                Some(workspace_id(index)),
            ),
            after.focused_virtual_output_id == before.focused_virtual_output_id,
            after.n_master == before.n_master,
        ensures
            after.wf(),
            after@ == before@.with_manager(
                before@.manager.set_active(id, Some(workspace_id(index))),
            ),
    {
        lemma_view_position(before@.manager.outputs, id);
        assert forall|j: int| 0 <= j < after@.manager.outputs.len() implies ((
        #[trigger] after@.manager.outputs[j]).active matches Some(ws) ==> 1 <= ws.0
            <= after@.workspaces.len()) by {
            assert(before@.manager.outputs[j].active matches Some(ws) ==> 1 <= ws.0
                <= before@.workspaces.len());
        }
    }

    /// Finds a workspace to put in the place of `exclude_workspace`: one that is not
    /// visible, else a new one.
    fn find_fallback_workspace_for_virtual_output(&mut self, exclude_workspace: usize) -> (r: usize)
        requires
            old(self).wf(),
            old(self)@.workspaces.len() < u64::MAX,
        ensures
            final(self).wf(),
            final(self)@ == old(self)@.find_fallback(exclude_workspace as int).0,
            r == old(self)@.find_fallback(exclude_workspace as int).1,
            r < final(self)@.workspaces.len(),
    {
        let ghost p = self@.spare(exclude_workspace as int);
        let mut i: usize = 0;
        while i < self.workspaces.len()
            invariant
                i <= self.workspaces@.len(),
                *self == *old(self),
                self.wf(),
                self@.workspaces.len() < u64::MAX,
                p == self@.spare(exclude_workspace as int),
                forall|j: int| 0 <= j < i ==> !(#[trigger] p(j)),
            decreases self.workspaces@.len() - i,
        {
            if i != exclude_workspace && self.find_owner(i).is_none() {
                proof {
                    assert(p(i as int));
                    lemma_is_first_below(self@.workspaces.len(), p, i as int);
                }
                return i;
            }
            assert(!p(i as int));
            i = i + 1;
        }
        proof {
            lemma_none_below(self@.workspaces.len(), p);
        }
        let number: u64 = self.find_free_number();
        let name = decimal_text(number);
        let id = self.find_or_create_workspace_id(name.as_str());
        proof {
            let (s, index) = old(self)@.find_or_create(name@);
            lemma_first_below(
                old(self)@.workspaces.len(),
                named(old(self)@.workspaces, name@),
            );
            assert(0 <= index < s.workspaces.len());
            assert(self.workspaces.len() == self@.workspaces.len());
        }
        (id.0 - 1) as usize
    }

    /// The first number from one to a hundred that names no workspace, else one.
    fn find_free_number(&self) -> (r: u64)
        ensures
            r == self@.free_number(),
    {
        let ghost p = number_free(self@.workspaces);
        let mut k: u64 = 0;
        while k < 100
            invariant
                k <= 100,
                p == number_free(self@.workspaces),
                forall|j: int| 0 <= j < k ==> !(#[trigger] p(j)),
            decreases 100 - k,
        {
            let name = decimal_text(k + 1);
            if self.find_named(name.as_str()).is_none() {
                proof {
                    assert(p(k as int));
                    lemma_is_first_below(100, p, k as int);
                }
                return k + 1;
            }
            assert(!p(k as int));
            k = k + 1;
        }
        proof {
            lemma_none_below(100, p);
        }
        1
    }

    /// Takes the workspace off the virtual output that shows it, unless that is
    /// `virtual_id`, and puts another one there.
    fn release(&mut self, virtual_id: VirtualOutputId, index: usize, commands: &mut Vec<Command>)
        requires
            old(self).wf(),
            old(self)@.workspaces.len() + 1 < u64::MAX,
            index < old(self)@.workspaces.len(),
        ensures
            final(self).wf(),
            final(self)@ == old(self)@.release(virtual_id, index as int).0,
            final(commands)@ == old(commands)@ + old(self)@.release(virtual_id, index as int).1,
            final(self)@.workspaces.len() >= old(self)@.workspaces.len(),
            final(self)@.workspaces.len() <= old(self)@.workspaces.len() + 1,
    {
        let owner = match self.find_owner(index) {
            Some(j) => self.virtual_output_manager.at(j).id(),
            None => {
                assert(commands@ =~= old(commands)@ + Seq::<Command>::empty());
                return;
            },
        };
        if owner == virtual_id {
            assert(commands@ =~= old(commands)@ + Seq::<Command>::empty());
            return;
        }
        let fallback: usize = self.find_fallback_workspace_for_virtual_output(index);
        let ghost s = self@;
        push_hide_all(commands, self.workspaces[index].windows());
        push_show_all(commands, self.workspaces[fallback].windows());
        assert(commands@ =~= old(commands)@ + (hide_all(s.workspaces[index as int].windows)
            + show_all(s.workspaces[fallback as int].windows)));
        let ghost before = *self;
        self.virtual_output_manager.set_active_workspace(
            owner,
            Some(WorkspaceId(fallback as u64 + 1)),
        );
        proof {
            assert(WorkspaceId((fallback + 1) as u64) == workspace_id(fallback as int));
            Shell::lemma_active_set(before, *self, owner, fallback as int);
        }
    }

    /// Switches a virtual output to the workspace of a name, so that no other virtual
    /// output shows it.
    pub fn switch_workspace_on_virtual(&mut self, virtual_id: VirtualOutputId, workspace_name: &str) -> (r: Vec<Command>)
        requires
            old(self).wf(),
            old(self)@.has_room(),
        ensures
            final(self).wf(),
            final(self)@ == old(self)@.switch_on_virtual(virtual_id, workspace_name@).0,
            r@ == old(self)@.switch_on_virtual(virtual_id, workspace_name@).1,
            final(self)@.workspaces.len() <= old(self)@.workspaces.len() + 2,
    {
        let mut commands: Vec<Command> = Vec::new();
        let id = self.find_or_create_workspace_id(workspace_name);
        assert(self.workspaces.len() == self@.workspaces.len());
        let index: usize = (id.0 - 1) as usize;
        proof {
            lemma_first_below(
                old(self)@.workspaces.len(),
                named(old(self)@.workspaces, workspace_name@),
            );
            assert(index == old(self)@.find_or_create(workspace_name@).1);
        }
        let ghost s1 = self@;
        self.release(virtual_id, index, &mut commands);
        let ghost s2 = self@;
        let ghost released = commands@;
        match self.virtual_output_manager.get(virtual_id) {
            Some(v) => {
                match v.active_workspace() {
                    Some(old_id) => {
                        assert(self.workspaces.len() == self@.workspaces.len());
                        push_hide_all(
                            &mut commands,
                            self.workspaces[(old_id.0 - 1) as usize].windows(),
                        );
                    },
                    None => {},
                }
            },
            None => {},
        }
        assert(commands@ =~= released + hide_all(s2.shown_windows(virtual_id)));
        let geometry = match self.virtual_output_manager.get(virtual_id) {
            Some(v) => Some(v.logical_geometry()),
            None => None,
        };
        match geometry {
            Some(geometry) => {
                let ghost before = *self;
                self.virtual_output_manager.set_active_workspace(virtual_id, Some(id));
                proof {
                    Shell::lemma_active_set(before, *self, virtual_id, index as int);
                }
                let ghost before = *self;
                self.workspaces[index].update_output_geometry(
                    VirtualOutputRelativeRect::from(geometry),
                );
                self.workspaces[index].set_virtual_output(virtual_id);
                self.workspaces[index].set_needs_arrange(true);
                proof {
                    assert(self.workspaces@ =~= before.workspaces@.update(
                        index as int,
                        self.workspaces@[index as int],
                    ));
                    Shell::lemma_workspace_changed(before, *self, index as int);
                }
            },
            None => {
                let ghost before = *self;
                self.workspaces[index].set_needs_arrange(true);
                proof {
                    assert(self.workspaces@ =~= before.workspaces@.update(
                        index as int,
                        self.workspaces@[index as int],
                    ));
                    Shell::lemma_workspace_changed(before, *self, index as int);
                }
            },
        }
        let ghost s3 = self@;
        assert(s3 =~= s2.show(virtual_id, index as int));
        push_show_all(&mut commands, self.workspaces[index].windows());
        let ghost shown = commands@;
        match self.virtual_output_manager.get(virtual_id) {
            Some(v) => {
                let regions = v.regions();
                if regions.len() > 0 {
                    commands.push(Command::Arrange { output: regions[0].physical_output.id });
                    assert(region_views(regions@)[0].output == regions@[0].physical_output.id);
                }
            },
            None => {},
        }
        assert(commands@ =~= shown + s3.arrange_first(virtual_id));
        commands
    }
}

impl Shell {
    /// Brings the virtual outputs up to date with the physical outputs.
    fn update_virtual_outputs(&mut self, outputs: &Vec<Output>)
        requires
            old(self).wf(),
        ensures
            final(self).wf(),
            final(self)@ == old(self)@.with_manager(
                old(self)@.manager.update_all(output_views(outputs@)),
            ),
    {
        self.virtual_output_manager.update_all(outputs);
        proof {
            assert forall|j: int| 0 <= j < self@.manager.outputs.len() implies ((
            #[trigger] self@.manager.outputs[j]).active matches Some(ws) ==> 1 <= ws.0
                <= self@.workspaces.len()) by {
                assert(old(self)@.manager.outputs[j].active matches Some(ws) ==> 1 <= ws.0
                    <= old(self)@.workspaces.len());
            }
        }
    }

    /// Makes a whole output a virtual output of its own.
    fn create_default_output(&mut self, output: &Output) -> (r: VirtualOutputId)
        requires
            old(self).wf(),
            old(self)@.manager.next_id < u32::MAX,
            output@.mode is Some,
        ensures
            final(self).wf(),
            final(self)@ == old(self)@.with_manager(old(self)@.manager.create_default(output@)),
            r == VirtualOutputId(old(self)@.manager.next_id as u32),
    {
        let id = self.virtual_output_manager.create_default(output);
        proof {
            assert forall|j: int| 0 <= j < self@.manager.outputs.len() implies ((
            #[trigger] self@.manager.outputs[j]).active matches Some(ws) ==> 1 <= ws.0
                <= self@.workspaces.len()) by {
                if j < old(self)@.manager.outputs.len() {
                    assert(self@.manager.outputs[j] == old(self)@.manager.outputs[j]);
                }
            }
        }
        id
    }

    /// Adds the `k`-th of the outputs that are there now.
    pub fn add_output(&mut self, outputs: &Vec<Output>, k: usize) -> (r: Vec<Command>)
        requires
            old(self).wf(),
            k < outputs@.len(),
            old(self)@.can_add_output(output_views(outputs@), k as int),
        ensures
            final(self).wf(),
            final(self)@ == old(self)@.add_output(output_views(outputs@), k as int).0,
            r@ == old(self)@.add_output(output_views(outputs@), k as int).1,
    {
        assert(output_views(outputs@)[k as int] == outputs@[k as int]@);
        self.update_virtual_outputs(outputs);
        let none_shown = self.virtual_output_manager.virtual_outputs_for_physical(
            outputs[k].name.as_str(),
        ).len() == 0;
        if none_shown {
            let id = self.create_default_output(&outputs[k]);
            let first = decimal_text(1);
            self.switch_workspace_on_virtual(id, first.as_str())
        } else {
            Vec::new()
        }
    }

    /// Whether there is room for what an output or a window may need: workspaces, as many as
    /// asked for, and a virtual output on the output, unless it has one.
    pub fn has_room_on(&self, output: &Output, workspaces: u64) -> (r: bool)
        requires
            self.wf(),
        ensures
            r == (self@.workspaces.len() + workspaces < u64::MAX && (shown_on(
                self@.manager.outputs,
                output@.name,
            ).len() == 0 ==> output@.mode is Some && self@.manager.next_id < u32::MAX)),
    {
        let count: u64 = self.workspaces.len() as u64;
        assert(count == self@.workspaces.len());
        if count >= u64::MAX - workspaces {
            return false;
        }
        let shown = self.virtual_output_manager.virtual_outputs_for_physical(
            output.name.as_str(),
        );
        shown.len() > 0 || (output.mode.is_some() && self.virtual_output_manager.has_next_id())
    }

    /// Takes note that outputs have moved or changed their mode.
    pub fn update_output_position(&mut self, outputs: &Vec<Output>)
        requires
            old(self).wf(),
        ensures
            final(self).wf(),
            final(self)@ == old(self)@.with_manager(
                old(self)@.manager.update_all(output_views(outputs@)),
            ),
    {
        self.update_virtual_outputs(outputs);
    }

    /// Replaces the virtual outputs by those of a configuration, if there is one.
    pub fn load_virtual_outputs(&mut self, config: Option<&str>, outputs: &Vec<Output>)
        requires
            old(self).wf(),
            config matches Some(text) ==> {
                &&& split_spec(text@, ';').len() + outputs@.len() < u32::MAX
                &&& forall|i: int|
                    0 <= i < outputs@.len() && !mentions(
                        split_spec(text@, ';'),
                        (#[trigger] outputs@[i])@.name,
                    ) ==> outputs@[i]@.mode is Some
            },
        ensures
            final(self).wf(),
            final(self)@ == (match config {
                Some(text) => old(self)@.with_manager(
                    ManagerView::from_config(text@, output_views(outputs@)),
                ),
                None => old(self)@,
            }),
    {
        self.virtual_output_manager.load_config(config, outputs);
        proof {
            match config {
                Some(text) => {
                    assert forall|j: int| 0 <= j < self@.manager.outputs.len() implies ((
                    #[trigger] self@.manager.outputs[j]).active matches Some(ws) ==> 1 <= ws.0
                        <= self@.workspaces.len()) by {
                        law_config_ids(text@, output_views(outputs@), j);
                    }
                },
                None => {},
            }
        }
    }

    /// The virtual output that contains a point of the global space. `point` is the
    /// point rounded down.
    pub fn virtual_output_at_point(&self, point: Point) -> (r: Option<VirtualOutputId>)
        ensures
            r == (match first_below(
                self@.manager.outputs.len(),
                covers(self@.manager.outputs, point),
            ) {
                Some(i) => Some(self@.manager.outputs[i].id),
                None => None,
            }),
    {
        let ghost p = covers(self@.manager.outputs, point);
        let n: usize = self.virtual_output_manager.len();
        let mut i: usize = 0;
        while i < n
            invariant
                i <= n,
                n == self@.manager.outputs.len(),
                p == covers(self@.manager.outputs, point),
                forall|k: int| 0 <= k < i ==> !(#[trigger] p(k)),
            decreases n - i,
        {
            let v = self.virtual_output_manager.at(i);
            if v.logical_geometry().contains(point) {
                proof {
                    assert(p(i as int));
                    lemma_is_first_below(n as nat, p, i as int);
                }
                return Some(v.id());
            }
            assert(!p(i as int));
            i = i + 1;
        }
        proof {
            lemma_none_below(n as nat, p);
        }
        None
    }

    /// Place, among the virtual outputs on an output, of the first that contains a point.
    fn find_covering(&self, output: &str, point: Point) -> (r: Option<&VirtualOutput>)
        requires
            self.wf(),
        ensures
            ({
                let shown = shown_on(self@.manager.outputs, output@);
                match first_below(shown.len(), covers(shown, point)) {
                    Some(i) => r is Some && r.unwrap()@ == shown[i] && 0 <= i < shown.len(),
                    None => r is None,
                }
            }),
    {
        let shown = self.virtual_output_manager.virtual_outputs_for_physical(output);
        let ghost views = shown_on(self@.manager.outputs, output@);
        let ghost p = covers(views, point);
        let mut i: usize = 0;
        while i < shown.len()
            invariant
                i <= shown@.len(),
                shown@.len() == views.len(),
                views == shown_on(self@.manager.outputs, output@),
                forall|k: int| 0 <= k < shown@.len() ==> (#[trigger] shown@[k])@ == views[k],
                p == covers(views, point),
                forall|k: int| 0 <= k < i ==> !(#[trigger] p(k)),
            decreases shown@.len() - i,
        {
            let v = shown[i];
            if v.logical_geometry().contains(point) {
                proof {
                    assert(p(i as int));
                    lemma_is_first_below(views.len(), p, i as int);
                }
                return Some(v);
            }
            assert(!p(i as int));
            i = i + 1;
        }
        proof {
            lemma_none_below(views.len(), p);
        }
        None
    }

    /// The virtual output that contains a point of an output. `point` is the point
    /// rounded to the nearest pixel.
    pub fn virtual_output_at_position(&self, output: &str, point: Point) -> (r: Option<VirtualOutputId>)
        requires
            self.wf(),
        ensures
            ({
                let shown = shown_on(self@.manager.outputs, output@);
                r == (match first_below(shown.len(), covers(shown, point)) {
                    Some(i) => Some(shown[i].id),
                    None => None,
                })
            }),
    {
        match self.find_covering(output, point) {
            Some(v) => Some(v.id()),
            None => None,
        }
    }

    /// The workspace and the virtual output that show the focused window, with the
    /// workspace's name.
    pub fn focused_virtual_output(&self) -> (r: Option<(VirtualOutputId, WorkspaceId, String)>)
        requires
            self@.workspaces.len() < u64::MAX,
        ensures
            match self@.focus_owner() {
                Some((i, j)) => r matches Some((v, w, name)) && v == self@.manager.outputs[j].id && w
                    == workspace_id(i) && name@ == self@.workspaces[i].name,
                None => r is None,
            },
    {
        match self.find_focus_owner() {
            Some((i, j)) => {
                Some(
                    (
                        self.virtual_output_manager.at(j).id(),
                        WorkspaceId(i as u64 + 1),
                        self.workspaces[i].name().clone(),
                    ),
                )
            },
            None => None,
        }
    }

    /// Places of the workspace and the virtual output that show the focused window.
    fn find_focus_owner(&self) -> (r: Option<(usize, usize)>)
        requires
            self@.workspaces.len() < u64::MAX,
        ensures
            match r {
                Some((i, j)) => self@.focus_owner() == Some((i as int, j as int)) && i
                    < self@.workspaces.len() && j < self@.manager.outputs.len(),
                None => self@.focus_owner() is None,
            },
    {
        let window = match self.focused_window {
            Some(window) => window,
            None => {
                return None;
            },
        };
        let ghost p = self@.holds_visibly(window);
        let mut i: usize = 0;
        while i < self.workspaces.len()
            invariant
                i <= self.workspaces@.len(),
                self@.workspaces.len() < u64::MAX,
                self@.focused == Some(window),
                p == self@.holds_visibly(window),
                forall|k: int| 0 <= k < i ==> !(#[trigger] p(k)),
            decreases self.workspaces@.len() - i,
        {
            if self.workspaces[i].contains(window) {
                match self.find_owner(i) {
                    Some(j) => {
                        proof {
                            assert(p(i as int));
                            lemma_is_first_below(self@.workspaces.len(), p, i as int);
                        }
                        return Some((i, j));
                    },
                    None => {},
                }
            }
            assert(!p(i as int));
            i = i + 1;
        }
        proof {
            lemma_none_below(self@.workspaces.len(), p);
        }
        None
    }

    /// Takes note of the virtual output that shows the focused window.
    pub fn update_focused_virtual_output(&mut self)
        requires
            old(self).wf(),
            old(self)@.workspaces.len() < u64::MAX,
        ensures
            final(self).wf(),
            final(self)@ == old(self)@.update_focused_output(),
    {
        let id = match self.find_focus_owner() {
            Some((_, j)) => Some(self.virtual_output_manager.at(j).id()),
            None => None,
        };
        self.focused_virtual_output_id = id;
        assert(self@ =~= old(self)@.update_focused_output());
    }

    /// Focuses a window.
    pub fn set_focus(&mut self, window: WindowId)
        requires
            old(self).wf(),
            old(self)@.workspaces.len() < u64::MAX,
        ensures
            final(self).wf(),
            final(self)@ == old(self)@.set_focus(window),
    {
        self.focused_window = Some(window);
        self.update_focused_virtual_output();
        match self.find_holder(window) {
            Some(i) => {
                let ghost before = *self;
                self.workspaces[i].focus(window);
                proof {
                    assert(self.workspaces@ =~= before.workspaces@.update(
                        i as int,
                        self.workspaces@[i as int],
                    ));
                    Shell::lemma_workspace_changed(before, *self, i as int);
                }
            },
            None => {},
        }
    }
}

/// What adding a window does to the place of things: it is there afterwards.
proof fn lemma_added(w: WorkspaceView, window: WindowId, floating: bool)
    ensures
        w.add_window(window, floating).windows.contains(window),
        w.add_window(window, floating).name == w.name,
{
    if !w.windows.contains(window) {
        let grown = w.windows.push(window);
        assert(grown[grown.len() - 1] == window);
    }
}

impl Shell {
    /// Makes sure that the virtual output shows a workspace, and gives its place.
    fn ensure_workspace(&mut self, id: VirtualOutputId) -> (r: usize)
        requires
            old(self).wf(),
            old(self)@.workspaces.len() + 1 < u64::MAX,
        ensures
            final(self).wf(),
            final(self)@ == old(self)@.ensure_workspace(id).0,
            r == old(self)@.ensure_workspace(id).1,
            r < final(self)@.workspaces.len(),
            final(self)@.workspaces.len() <= old(self)@.workspaces.len() + 1,
    {
        let (found, active) = match self.virtual_output_manager.get(id) {
            Some(v) => (true, v.active_workspace()),
            None => (false, None),
        };
        match active {
            Some(workspace) => {
                assert(self.workspaces.len() == self@.workspaces.len());
                (workspace.0 - 1) as usize
            },
            None => {
                let first = decimal_text(1);
                let workspace = self.find_or_create_workspace_id(first.as_str());
                assert(self.workspaces.len() == self@.workspaces.len());
                let index: usize = (workspace.0 - 1) as usize;
                proof {
                    lemma_first_below(
                        old(self)@.workspaces.len(),
                        named(old(self)@.workspaces, decimal(1)),
                    );
                }
                let ghost before = *self;
                if found {
                    self.virtual_output_manager.set_active_workspace(id, Some(workspace));
                    proof {
                        Shell::lemma_active_set(before, *self, id, index as int);
                    }
                }
                index
            },
        }
    }

    /// Adds a window to what a virtual output shows. A window with a parent floats.
    pub fn add_window_to_virtual_output(
        &mut self,
        window: WindowId,
        virtual_output_id: VirtualOutputId,
        has_parent: bool,
    ) -> (r: Vec<Command>)
        requires
            old(self).wf(),
            old(self)@.has_room(),
        ensures
            final(self).wf(),
            final(self)@ == old(self)@.add_window_to_virtual_output(
                window,
                virtual_output_id,
                has_parent,
            ).0,
            r@ == old(self)@.add_window_to_virtual_output(window, virtual_output_id, has_parent).1,
    {
        let index: usize = self.ensure_workspace(virtual_output_id);
        let ghost s = self@;
        let ghost before = *self;
        self.workspaces[index].set_virtual_output(virtual_output_id);
        proof {
            lemma_added(self.workspaces@[index as int]@, window, has_parent);
        }
        self.workspaces[index].add_window(window, has_parent);
        self.workspaces[index].append_focus(window);
        proof {
            assert(self.workspaces@ =~= before.workspaces@.update(
                index as int,
                self.workspaces@[index as int],
            ));
            Shell::lemma_workspace_changed(before, *self, index as int);
        }
        self.focused_window = Some(window);
        let mut commands: Vec<Command> = Vec::new();
        match self.virtual_output_manager.get(virtual_output_id) {
            Some(v) => {
                commands.push(
                    Command::Show { window, location: v.logical_geometry().location().as_point() },
                );
                let outputs = outputs_of(v.regions());
                let ghost all = arrange_all(v@.regions);
                let mut i: usize = 0;
                assert(all.take(0) =~= Seq::<Command>::empty());
                assert(commands@ + all.take(0) =~= commands@);
                let ghost start = commands@;
                while i < outputs.len()
                    invariant
                        i <= outputs@.len(),
                        outputs@ == region_outputs(v@.regions),
                        all == arrange_all(v@.regions),
                        commands@ == start + all.take(i as int),
                    decreases outputs@.len() - i,
                {
                    commands.push(Command::Arrange { output: outputs[i] });
                    proof {
                        assert(all.take(i + 1) =~= all.take(i as int).push(all[i as int]));
                        assert(commands@ =~= start + all.take(i + 1));
                    }
                    i = i + 1;
                }
                assert(all.take(i as int) =~= all);
                assert(start =~= seq![start[0]]);
            },
            None => {
                commands.push(Command::Show { window, location: Point { x: 0, y: 0 } });
                assert(commands@ =~= commands@ + arrange_all(Seq::<RegionView>::empty()));
                assert(commands@ =~= seq![commands@[0]]);
            },
        }
        assert(self@ =~= old(self)@.add_window_to_virtual_output(
            window,
            virtual_output_id,
            has_parent,
        ).0);
        commands
    }

    /// Adds a window to what an output shows, and focuses it. A window with a parent
    /// floats. `pointer` is where the pointer is, rounded to the nearest pixel: it decides
    /// between several virtual outputs; where it is on none of them, the first is taken.
    pub fn add_window(
        &mut self,
        window: WindowId,
        output: &Output,
        has_parent: bool,
        pointer: Option<Point>,
    ) -> (r: Vec<Command>)
        requires
            old(self).wf(),
            old(self)@.has_room(),
            shown_on(old(self)@.manager.outputs, output@.name).len() == 0 ==> output@.mode is Some
                && old(self)@.manager.next_id < u32::MAX,
        ensures
            final(self).wf(),
            final(self)@ == old(self)@.add_window(window, output@, has_parent, pointer).0,
            r@ == old(self)@.add_window(window, output@, has_parent, pointer).1,
    {
        let under = match pointer {
            Some(point) => self.virtual_output_at_position(output.name.as_str(), point),
            None => None,
        };
        let first = {
            let shown = self.virtual_output_manager.virtual_outputs_for_physical(
                output.name.as_str(),
            );
            if shown.len() > 0 {
                Some(shown[0].id())
            } else {
                None
            }
        };
        let id = match first {
            Some(first) => match under {
                Some(id) => id,
                None => first,
            },
            None => self.create_default_output(output),
        };
        let index: usize = self.ensure_workspace(id);
        let ghost before = *self;
        self.workspaces[index].set_virtual_output(id);
        proof {
            lemma_added(self.workspaces@[index as int]@, window, has_parent);
        }
        self.workspaces[index].add_window(window, has_parent);
        proof {
            assert(self.workspaces@ =~= before.workspaces@.update(
                index as int,
                self.workspaces@[index as int],
            ));
            Shell::lemma_workspace_changed(before, *self, index as int);
        }
        self.set_focus(window);
        let mut commands: Vec<Command> = Vec::new();
        commands.push(Command::Show { window, location: Point { x: 0, y: 0 } });
        commands.push(Command::Arrange { output: output.id });
        assert(commands@ =~= old(self)@.add_window(window, output@, has_parent, pointer).1);
        commands
    }

    /// The outputs of the virtual outputs that show a workspace which holds the window.
    fn find_affected(&self, window: WindowId) -> (r: Vec<u64>)
        requires
            self.wf(),
        ensures
            r@ == self@.affected_outputs(window),
    {
        let n: usize = self.virtual_output_manager.len();
        let mut affected: Vec<u64> = Vec::new();
        let mut k: usize = 0;
        assert(self.workspaces.len() == self@.workspaces.len());
        while k < n
            invariant
                k <= n,
                n == self@.manager.outputs.len(),
                self.wf(),
                self.workspaces.len() == self@.workspaces.len(),
                affected@ == self@.outputs_showing(window, k as int),
            decreases n - k,
        {
            let v = self.virtual_output_manager.at(k);
            match v.active_workspace() {
                Some(ws) => {
                    if self.workspaces[(ws.0 - 1) as usize].contains(window) {
                        let mut outputs = outputs_of(v.regions());
                        affected.append(&mut outputs);
                    }
                },
                None => {},
            }
            k = k + 1;
        }
        affected
    }

    /// Removes a window from all workspaces, hides it, and gives the outputs that showed a
    /// workspace which held it, which have to be arranged and drawn again.
    pub fn remove_window(&mut self, window: WindowId, dead: &Vec<WindowId>) -> (r: (Vec<Command>, Vec<u64>))
        requires
            old(self).wf(),
            old(self)@.workspaces.len() < u64::MAX,
        ensures
            final(self).wf(),
            final(self)@ == old(self)@.remove_window(window, dead@),
            r.0@ == seq![Command::Hide { window }],
            r.1@ == old(self)@.affected_outputs(window),
    {
        let affected = self.find_affected(window);
        let stop: usize = self.workspaces.len();
        assert(stop == self@.workspaces.len());
        let mut i: usize = 0;
        while i < stop
            invariant
                i <= stop,
                stop == self@.workspaces.len(),
                self.wf(),
                self@.focused == old(self)@.focused,
                self@.manager == old(self)@.manager,
                self@.focused_output == old(self)@.focused_output,
                self@.master_count == old(self)@.master_count,
                self@.workspaces.len() == old(self)@.workspaces.len(),
                forall|k: int|
                    0 <= k < i ==> #[trigger] self@.workspaces[k]
                        == old(self)@.workspaces[k].remove_window(window, dead@),
                forall|k: int|
                    i <= k < self@.workspaces.len() ==> #[trigger] self@.workspaces[k]
                        == old(self)@.workspaces[k],
            decreases stop - i,
        {
            let ghost before = *self;
            self.workspaces[i].remove_window(window, dead);
            proof {
                assert(self.workspaces@ =~= before.workspaces@.update(
                    i as int,
                    self.workspaces@[i as int],
                ));
                Shell::lemma_workspace_changed(before, *self, i as int);
                assert(before@.workspaces[i as int] == old(self)@.workspaces[i as int]);
                assert forall|k: int| 0 <= k < self@.workspaces.len() && k
                    != i implies #[trigger] self@.workspaces[k] == before@.workspaces[k] by {}
            }
            i = i + 1;
        }
        let was_focused = match self.focused_window {
            Some(focused) => focused == window,
            None => false,
        };
        let ghost removed = Seq::new(
            old(self)@.workspaces.len(),
            |k: int| old(self)@.workspaces[k].remove_window(window, dead@),
        );
        assert(self@.workspaces =~= removed);
        if was_focused {
            self.focused_window = None;
            self.update_focused_virtual_output();
        }
        assert(self@ =~= old(self)@.remove_window(window, dead@));
        let mut commands: Vec<Command> = Vec::new();
        commands.push(Command::Hide { window });
        assert(commands@ =~= seq![Command::Hide { window }]);
        (commands, affected)
    }

    /// Moves a window to the workspace of a name, and focuses it. A window with a parent
    /// floats.
    pub fn move_window_to_workspace(
        &mut self,
        window: WindowId,
        workspace_name: &str,
        output: &str,
        has_parent: bool,
        dead: &Vec<WindowId>,
    ) -> (r: Vec<Command>)
        requires
            old(self).wf(),
            old(self)@.has_room(),
        ensures
            final(self).wf(),
            final(self)@ == old(self)@.move_window(
                window,
                workspace_name@,
                output@,
                has_parent,
                dead@,
            ).0,
            r@ == old(self)@.move_window(window, workspace_name@, output@, has_parent, dead@).1,
    {
        let (mut commands, _) = self.remove_window(window, dead);
        let ghost removed = self@;
        let id = self.find_or_create_workspace_id(workspace_name);
        assert(self.workspaces.len() == self@.workspaces.len());
        let index: usize = (id.0 - 1) as usize;
        proof {
            lemma_first_below(removed.workspaces.len(), named(removed.workspaces, workspace_name@));
            assert(index == removed.find_or_create(workspace_name@).1);
        }
        let ghost before = *self;
        proof {
            lemma_added(self.workspaces@[index as int]@, window, has_parent);
        }
        self.workspaces[index].add_window(window, has_parent);
        proof {
            assert(self.workspaces@ =~= before.workspaces@.update(
                index as int,
                self.workspaces@[index as int],
            ));
            Shell::lemma_workspace_changed(before, *self, index as int);
        }
        let mapped = {
            let shown = self.virtual_output_manager.virtual_outputs_for_physical(output);
            let ghost views = shown_on(self@.manager.outputs, output@);
            any_shows(&shown, Ghost(views), id)
        };
        if mapped {
            commands.push(Command::Show { window, location: Point { x: 0, y: 0 } });
        }
        self.set_focus(window);
        assert(commands@ =~= old(self)@.move_window(
            window,
            workspace_name@,
            output@,
            has_parent,
            dead@,
        ).1);
        commands
    }
}

/// Whether one of the virtual outputs shows the workspace.
fn any_shows(shown: &Vec<&VirtualOutput>, Ghost(views): Ghost<Seq<VirtualOutputView>>, id: WorkspaceId) -> (r: bool)
    requires
        shown@.len() == views.len(),
        forall|k: int| 0 <= k < shown@.len() ==> (#[trigger] shown@[k])@ == views[k],
    ensures
        r == (first_below(views.len(), shows(views, id)) is Some),
{
    let ghost p = shows(views, id);
    let mut i: usize = 0;
    while i < shown.len()
        invariant
            i <= shown@.len(),
            shown@.len() == views.len(),
            forall|k: int| 0 <= k < shown@.len() ==> (#[trigger] shown@[k])@ == views[k],
            p == shows(views, id),
            forall|k: int| 0 <= k < i ==> !(#[trigger] p(k)),
        decreases shown@.len() - i,
    {
        let found = match shown[i].active_workspace() {
            Some(active) => active == id,
            None => false,
        };
        if found {
            proof {
                assert(p(i as int));
                lemma_is_first_below(views.len(), p, i as int);
            }
            return true;
        }
        assert(!p(i as int));
        i = i + 1;
    }
    proof {
        lemma_none_below(views.len(), p);
    }
    false
}

/// A list of one command: arrange the windows on the output.
fn arrange_only(output: u64) -> (r: Vec<Command>)
    ensures
        r@ == seq![Command::Arrange { output }],
{
    let mut commands: Vec<Command> = Vec::new();
    commands.push(Command::Arrange { output });
    assert(commands@ =~= seq![Command::Arrange { output }]);
    commands
}

impl Shell {
    /// Virtual outputs on an output show workspaces that exist.
    pub proof fn lemma_shown_valid(self, output: Seq<char>)
        requires
            self.wf(),
        ensures
            forall|i: int|
                0 <= i < shown_on(self@.manager.outputs, output).len() ==> ((#[trigger] shown_on(
                    self@.manager.outputs,
                    output,
                )[i]).active matches Some(ws) ==> 1 <= ws.0 <= self@.workspaces.len()),
    {
        assert forall|i: int|
            0 <= i < shown_on(self@.manager.outputs, output).len() implies ((#[trigger] shown_on(
            self@.manager.outputs,
            output,
        )[i]).active matches Some(ws) ==> 1 <= ws.0 <= self@.workspaces.len()) by {
            lemma_shown_on_member(self@.manager.outputs, output, i);
        }
    }

    /// The fullscreen window on an output, if any.
    pub fn get_fullscreen(&self, output: &str) -> (r: Option<WindowId>)
        requires
            self.wf(),
        ensures
            r == self@.fullscreen_on(output@),
    {
        let shown = self.virtual_output_manager.virtual_outputs_for_physical(output);
        let ghost views = shown_on(self@.manager.outputs, output@);
        let ghost p = self@.fullscreen_filter(views);
        proof {
            self.lemma_shown_valid(output@);
            assert(self.workspaces.len() == self@.workspaces.len());
        }
        let mut i: usize = 0;
        while i < shown.len()
            invariant
                i <= shown@.len(),
                shown@.len() == views.len(),
                views == shown_on(self@.manager.outputs, output@),
                self.workspaces.len() == self@.workspaces.len(),
                forall|k: int| 0 <= k < shown@.len() ==> (#[trigger] shown@[k])@ == views[k],
                forall|k: int|
                    0 <= k < views.len() ==> ((#[trigger] views[k]).active matches Some(ws) ==> 1
                        <= ws.0 <= self@.workspaces.len()),
                p == self@.fullscreen_filter(views),
                forall|k: int| 0 <= k < i ==> !(#[trigger] p(k)),
            decreases shown@.len() - i,
        {
            assert(shown@[i as int]@ == views[i as int]);
            match shown[i].active_workspace() {
                Some(ws) => {
                    let place: usize = (ws.0 - 1) as usize;
                    match self.workspaces[place].fullscreen() {
                        Some(window) => {
                            proof {
                                assert(p(i as int));
                                lemma_is_first_below(views.len(), p, i as int);
                            }
                            return Some(window);
                        },
                        None => {},
                    }
                },
                None => {},
            }
            assert(!p(i as int));
            i = i + 1;
        }
        proof {
            lemma_none_below(views.len(), p);
        }
        None
    }

    /// Makes a window fullscreen, or no longer so.
    pub fn set_fullscreen(&mut self, window: WindowId, fullscreen: bool, output: u64) -> (r: Vec<Command>)
        requires
            old(self).wf(),
        ensures
            final(self).wf(),
            final(self)@ == old(self)@.set_fullscreen(window, fullscreen),
            r@ == seq![Command::Arrange { output }],
    {
        match self.find_holder(window) {
            Some(i) => {
                let ghost before = *self;
                let current = self.workspaces[i].fullscreen();
                let next = if fullscreen {
                    Some(window)
                } else {
                    match current {
                        Some(f) => if f == window {
                            None
                        } else {
                            Some(f)
                        },
                        None => None,
                    }
                };
                self.workspaces[i].set_fullscreen(next);
                proof {
                    assert(self.workspaces@ =~= before.workspaces@.update(
                        i as int,
                        self.workspaces@[i as int],
                    ));
                    Shell::lemma_workspace_changed(before, *self, i as int);
                }
            },
            None => {},
        }
        arrange_only(output)
    }

    /// Makes the focused window fullscreen, or no longer so.
    pub fn toggle_fullscreen(&mut self, output: u64) -> (r: Vec<Command>)
        requires
            old(self).wf(),
        ensures
            final(self).wf(),
            final(self)@ == old(self)@.toggle_fullscreen(),
            r@ == (if old(self)@.focused is Some {
                seq![Command::Arrange { output }]
            } else {
                Seq::empty()
            }),
    {
        let window = match self.focused_window {
            Some(window) => window,
            None => {
                return Vec::new();
            },
        };
        let target: Option<usize> = match self.find_holder(window) {
            Some(i) => match self.workspaces[i].virtual_output_id() {
                Some(id) => match self.virtual_output_manager.get(id) {
                    Some(v) => match v.active_workspace() {
                        Some(_) => Some(i),
                        None => None,
                    },
                    None => None,
                },
                None => None,
            },
            None => None,
        };
        match target {
            Some(i) => {
                let ghost before = *self;
                let is_fullscreen = match self.workspaces[i].fullscreen() {
                    Some(f) => f == window,
                    None => false,
                };
                let next = if is_fullscreen {
                    None
                } else {
                    Some(window)
                };
                self.workspaces[i].set_fullscreen(next);
                proof {
                    assert(self.workspaces@ =~= before.workspaces@.update(
                        i as int,
                        self.workspaces@[i as int],
                    ));
                    Shell::lemma_workspace_changed(before, *self, i as int);
                }
            },
            None => {},
        }
        arrange_only(output)
    }

    /// Changes a window from tiled to floating or back.
    pub fn toggle_floating(&mut self, window: WindowId, output: u64) -> (r: Vec<Command>)
        requires
            old(self).wf(),
        ensures
            final(self).wf(),
            final(self)@ == old(self)@.toggle_floating(window).0,
            r@ == old(self)@.toggle_floating(window).1.push(Command::Arrange { output }),
    {
        let mut commands: Vec<Command> = Vec::new();
        match self.find_holder(window) {
            Some(i) => {
                let ghost before = *self;
                let floats = self.workspaces[i].toggle_floating(window);
                proof {
                    assert(self.workspaces@ =~= before.workspaces@.update(
                        i as int,
                        self.workspaces@[i as int],
                    ));
                    Shell::lemma_workspace_changed(before, *self, i as int);
                }
                if floats {
                    commands.push(Command::Release { window });
                }
            },
            None => {},
        }
        assert(commands@ =~= old(self)@.toggle_floating(window).1);
        commands.push(Command::Arrange { output });
        commands
    }

    /// Lets the focused window and the first master window of its workspace change places. A
    /// floating window stays where it is.
    pub fn zoom(&mut self, output: u64) -> (r: Vec<Command>)
        requires
            old(self).wf(),
        ensures
            final(self).wf(),
            match old(self)@.zoom_target() {
                Some((i, m, k)) => final(self)@ == old(self)@.with_workspace(
                    i,
                    old(self)@.workspaces[i].exchange(m, k),
                ) && r@ == seq![Command::Arrange { output }],
                None => final(self)@ == old(self)@ && r@ == Seq::<Command>::empty(),
            },
    {
        let window = match self.focused_window {
            Some(window) => window,
            None => {
                return Vec::new();
            },
        };
        let i: usize = match self.find_holder(window) {
            Some(i) => i,
            None => {
                return Vec::new();
            },
        };
        let k: usize = match lists::position(self.workspaces[i].windows(), window) {
            Some(k) => k,
            None => {
                return Vec::new();
            },
        };
        let m: usize = match self.workspaces[i].find_master() {
            Some(m) => m,
            None => {
                return Vec::new();
            },
        };
        if m >= k || self.workspaces[i].is_floating(window) {
            return Vec::new();
        }
        let ghost before = *self;
        self.workspaces[i].exchange(m, k);
        proof {
            assert(self.workspaces@ =~= before.workspaces@.update(
                i as int,
                self.workspaces@[i as int],
            ));
            Shell::lemma_workspace_changed(before, *self, i as int);
        }
        arrange_only(output)
    }

    /// Moves the focus on by one window, forward or back.
    fn cycle_focus(&mut self, forward: bool, dead: &Vec<WindowId>)
        requires
            old(self).wf(),
            old(self)@.workspaces.len() < u64::MAX,
        ensures
            final(self).wf(),
            final(self)@ == old(self)@.cycle_focus(forward, dead@),
    {
        let window = match self.focused_window {
            Some(window) => window,
            None => {
                return;
            },
        };
        let i: usize = match self.find_holder(window) {
            Some(i) => i,
            None => {
                return;
            },
        };
        let ghost before = *self;
        self.workspaces[i].refresh(dead);
        proof {
            assert(self.workspaces@ =~= before.workspaces@.update(
                i as int,
                self.workspaces@[i as int],
            ));
            Shell::lemma_workspace_changed(before, *self, i as int);
        }
        let tiled = self.workspaces[i].anchored_windows();
        let n: usize = tiled.len();
        if n <= 1 {
            return;
        }
        let next = match lists::position(&tiled, window) {
            Some(k) => if forward {
                tiled[(k + 1) % n]
            } else if k == 0 {
                tiled[n - 1]
            } else {
                tiled[k - 1]
            },
            None => if forward {
                tiled[0]
            } else {
                tiled[n - 1]
            },
        };
        self.set_focus(next);
    }

    /// Focuses the next window in tiling order, going round at the end.
    pub fn focus_next(&mut self, dead: &Vec<WindowId>)
        requires
            old(self).wf(),
            old(self)@.workspaces.len() < u64::MAX,
        ensures
            final(self).wf(),
            final(self)@ == old(self)@.cycle_focus(true, dead@),
    {
        self.cycle_focus(true, dead);
    }

    /// Focuses the previous window in tiling order, going round at the start.
    pub fn focus_prev(&mut self, dead: &Vec<WindowId>)
        requires
            old(self).wf(),
            old(self)@.workspaces.len() < u64::MAX,
        ensures
            final(self).wf(),
            final(self)@ == old(self)@.cycle_focus(false, dead@),
    {
        self.cycle_focus(false, dead);
    }

    /// The window to send a close request to.
    pub fn close_focused(&self) -> (r: Option<WindowId>)
        ensures
            r == self@.focused,
    {
        self.focused_window
    }

    /// Focuses the window focused last among those that are visible and alive, and gives
    /// it.
    pub fn refresh_focus(&mut self, dead: &Vec<WindowId>) -> (r: Option<WindowId>)
        requires
            old(self).wf(),
            old(self)@.workspaces.len() < u64::MAX,
        ensures
            final(self).wf(),
            final(self)@ == old(self)@.refresh_focus(dead@),
            r == old(self)@.last_focused(dead@),
    {
        let n: usize = self.virtual_output_manager.len();
        let mut history: Vec<WindowId> = Vec::new();
        let mut k: usize = 0;
        assert(self.workspaces.len() == self@.workspaces.len());
        while k < n
            invariant
                k <= n,
                n == self@.manager.outputs.len(),
                self.wf(),
                *self == *old(self),
                self.workspaces.len() == self@.workspaces.len(),
                history@ == self@.visible_history(k as int),
            decreases n - k,
        {
            match self.virtual_output_manager.at(k).active_workspace() {
                Some(ws) => {
                    let stack = self.workspaces[(ws.0 - 1) as usize].focus_stack();
                    let mut copy = lists::copy_list(stack);
                    let ghost before = history@;
                    history.append(&mut copy);
                    assert(history@ =~= before + stack@);
                },
                None => {
                    assert(history@ =~= history@ + Seq::<WindowId>::empty());
                },
            }
            k = k + 1;
        }
        let alive = lists::remove_all(&history, dead);
        let focused = if alive.len() > 0 {
            Some(alive[alive.len() - 1])
        } else {
            None
        };
        self.focused_window = focused;
        self.update_focused_virtual_output();
        focused
    }

    /// The name of a workspace.
    pub fn get_workspace_name(&self, id: WorkspaceId) -> (r: Option<String>)
        ensures
            if 1 <= id.0 <= self@.workspaces.len() {
                r matches Some(name) && name@ == self@.workspaces[id.0 - 1].name
            } else {
                r is None
            },
    {
        match self.place_of(id) {
            Some(i) => Some(self.workspaces[i].name().clone()),
            None => None,
        }
    }

    /// The outputs that show the focused window's virtual output.
    pub fn focused_physical_outputs(&self) -> (r: Vec<u64>)
        requires
            self@.workspaces.len() < u64::MAX,
        ensures
            r@ == (match self@.focus_owner() {
                Some((i, j)) => region_outputs(self@.manager.outputs[j].regions),
                None => Seq::empty(),
            }),
    {
        match self.find_focus_owner() {
            Some((_, j)) => outputs_of(self.virtual_output_manager.at(j).regions()),
            None => Vec::new(),
        }
    }

    /// Places of the workspaces that an output shows, in order.
    fn places_on(&self, output: &str) -> (r: Vec<usize>)
        requires
            self.wf(),
        ensures
            r@.len() == self@.workspaces_on(output@).len(),
            forall|i: int|
                0 <= i < r@.len() ==> #[trigger] r@[i] == self@.workspaces_on(output@)[i] && r@[i]
                    < self@.workspaces.len(),
    {
        let shown = self.virtual_output_manager.virtual_outputs_for_physical(output);
        let ghost views = shown_on(self@.manager.outputs, output@);
        proof {
            self.lemma_shown_valid(output@);
            assert(self.workspaces.len() == self@.workspaces.len());
        }
        let mut places: Vec<usize> = Vec::new();
        let mut i: usize = 0;
        while i < shown.len()
            invariant
                i <= shown@.len(),
                shown@.len() == views.len(),
                views == shown_on(self@.manager.outputs, output@),
                self.workspaces.len() == self@.workspaces.len(),
                forall|k: int| 0 <= k < shown@.len() ==> (#[trigger] shown@[k])@ == views[k],
                forall|k: int|
                    0 <= k < views.len() ==> ((#[trigger] views[k]).active matches Some(ws) ==> 1
                        <= ws.0 <= self@.workspaces.len()),
                places@.len() == active_places(views.take(i as int)).len(),
                forall|k: int|
                    0 <= k < places@.len() ==> #[trigger] places@[k] == active_places(
                        views.take(i as int),
                    )[k] && places@[k] < self@.workspaces.len(),
            decreases shown@.len() - i,
        {
            proof {
                assert(views.take(i + 1).drop_last() =~= views.take(i as int));
                assert(views.take(i + 1).last() == shown@[i as int]@);
            }
            match shown[i].active_workspace() {
                Some(ws) => {
                    places.push((ws.0 - 1) as usize);
                },
                None => {},
            }
            i = i + 1;
        }
        assert(views.take(i as int) =~= views);
        places
    }

    /// The names of the workspaces that an output shows, in order.
    pub fn workspace_names_on_output(&self, output: &str) -> (r: Vec<String>)
        requires
            self.wf(),
        ensures
            r@.len() == self@.workspaces_on(output@).len(),
            forall|i: int|
                0 <= i < r@.len() ==> (#[trigger] r@[i])@ == self@.workspaces[self@.workspaces_on(
                    output@,
                )[i]].name,
    {
        let places = self.places_on(output);
        let mut names: Vec<String> = Vec::new();
        let mut i: usize = 0;
        while i < places.len()
            invariant
                i <= places@.len(),
                places@.len() == self@.workspaces_on(output@).len(),
                forall|k: int|
                    0 <= k < places@.len() ==> #[trigger] places@[k] == self@.workspaces_on(
                        output@,
                    )[k] && places@[k] < self@.workspaces.len(),
                names@.len() == i,
                forall|k: int|
                    0 <= k < i ==> (#[trigger] names@[k])@
                        == self@.workspaces[self@.workspaces_on(output@)[k]].name,
            decreases places@.len() - i,
        {
            names.push(self.workspaces[places[i]].name().clone());
            i = i + 1;
        }
        names
    }

    /// Whether a workspace that an output shows has to be arranged.
    pub fn any_workspace_needs_arrange_on_output(&self, output: &str) -> (r: bool)
        requires
            self.wf(),
        ensures
            r == exists|i: int|
                0 <= i < self@.workspaces_on(output@).len()
                    && self@.workspaces[#[trigger] self@.workspaces_on(output@)[i]].needs_arrange,
    {
        let places = self.places_on(output);
        let mut i: usize = 0;
        while i < places.len()
            invariant
                i <= places@.len(),
                places@.len() == self@.workspaces_on(output@).len(),
                forall|k: int|
                    0 <= k < places@.len() ==> #[trigger] places@[k] == self@.workspaces_on(
                        output@,
                    )[k] && places@[k] < self@.workspaces.len(),
                forall|k: int|
                    0 <= k < i ==> !self@.workspaces[#[trigger] self@.workspaces_on(
                        output@,
                    )[k]].needs_arrange,
            decreases places@.len() - i,
        {
            if self.workspaces[places[i]].needs_arrange() {
                assert(self@.workspaces[self@.workspaces_on(output@)[i as int]].needs_arrange);
                return true;
            }
            i = i + 1;
        }
        false
    }

    /// Marks every workspace that an output shows for arrangement, and nothing else.
    pub fn mark_workspaces_on_output(&mut self, output: &str)
        requires
            old(self).wf(),
        ensures
            final(self).wf(),
            final(self)@ == old(self)@.mark_on(output@),
    {
        let places = self.places_on(output);
        let ghost marked = old(self)@.workspaces_on(output@);
        let mut k: usize = 0;
        while k < places.len()
            invariant
                k <= places@.len(),
                places@.len() == marked.len(),
                marked == old(self)@.workspaces_on(output@),
                forall|j: int|
                    0 <= j < places@.len() ==> #[trigger] places@[j] == marked[j] && places@[j]
                        < old(self)@.workspaces.len(),
                self.wf(),
                self@.focused == old(self)@.focused,
                self@.manager == old(self)@.manager,
                self@.focused_output == old(self)@.focused_output,
                self@.master_count == old(self)@.master_count,
                self@.workspaces.len() == old(self)@.workspaces.len(),
                forall|i: int|
                    0 <= i < self@.workspaces.len() ==> #[trigger] self@.workspaces[i] == (
                    if marked.take(k as int).contains(i) {
                        WorkspaceView { needs_arrange: true, ..old(self)@.workspaces[i] }
                    } else {
                        old(self)@.workspaces[i]
                    }),
            decreases places@.len() - k,
        {
            let place: usize = places[k];
            let ghost before = *self;
            self.workspaces[place].set_needs_arrange(true);
            proof {
                assert(self.workspaces@ =~= before.workspaces@.update(
                    place as int,
                    self.workspaces@[place as int],
                ));
                Shell::lemma_workspace_changed(before, *self, place as int);
                let a = marked.take(k as int);
                let b = marked.take(k + 1);
                assert forall|i: int| b.contains(i) == (a.contains(i) || i == place) by {
                    if b.contains(i) {
                        let m = choose|m: int| 0 <= m < b.len() && b[m] == i;
                        if m < k {
                            assert(a[m] == i);
                        }
                    }
                    if a.contains(i) {
                        let m = choose|m: int| 0 <= m < a.len() && a[m] == i;
                        assert(b[m] == i);
                    }
                    assert(b[k as int] == place);
                }
                assert forall|i: int| 0 <= i < self@.workspaces.len() implies #[trigger]
                    self@.workspaces[i] == (if b.contains(i) {
                        WorkspaceView { needs_arrange: true, ..old(self)@.workspaces[i] }
                    } else {
                        old(self)@.workspaces[i]
                    }) by {
                    if i != place {
                        assert(self@.workspaces[i] == before@.workspaces[i]);
                    } else {
                        assert(before@.workspaces[i] == (if a.contains(i) {
                            WorkspaceView { needs_arrange: true, ..old(self)@.workspaces[i] }
                        } else {
                            old(self)@.workspaces[i]
                        }));
                    }
                }
            }
            k = k + 1;
        }
        assert(marked.take(k as int) =~= marked);
        assert(self@.workspaces =~= Seq::new(
            old(self)@.workspaces.len(),
            |i: int|
                if old(self)@.workspaces_on(output@).contains(i) {
                    WorkspaceView { needs_arrange: true, ..old(self)@.workspaces[i] }
                } else {
                    old(self)@.workspaces[i]
                },
        ));
    }

    /// Switches the first virtual output on an output to the workspace of a name.
    pub fn switch_to_workspace(&mut self, output: &str, name: &str) -> (r: Vec<Command>)
        requires
            old(self).wf(),
            old(self)@.has_room(),
        ensures
            final(self).wf(),
            ({
                let shown = shown_on(old(self)@.manager.outputs, output@);
                if shown.len() > 0 {
                    final(self)@ == old(self)@.switch_on_virtual(shown[0].id, name@).0 && r@ == old(
                        self,
                    )@.switch_on_virtual(shown[0].id, name@).1
                } else {
                    final(self)@ == old(self)@ && r@ == Seq::<Command>::empty()
                }
            }),
    {
        let first = {
            let shown = self.virtual_output_manager.virtual_outputs_for_physical(output);
            if shown.len() > 0 {
                Some(shown[0].id())
            } else {
                None
            }
        };
        match first {
            Some(id) => self.switch_workspace_on_virtual(id, name),
            None => Vec::new(),
        }
    }
}

/// The tab that a click hits: the workspace's place and the tab's index.
pub open spec fn clicked_tab(s: ShellView, output: Seq<char>, pointer: Pointer) -> Option<(int, int)> {
    match s.workspace_at(output, pointer.round) {
        Some(w) => {
            let workspace = s.workspaces[w];
            let area = workspace.available_area.0;
            if workspace.layout_mode == LayoutMode::Tabbed && in_bar(area, pointer) {
                match tab_at(
                    area.size.w as int,
                    workspace.tiled().len(),
                    distance_in(area, pointer),
                ) {
                    Some(i) => Some((w, i)),
                    None => None,
                }
            } else {
                None
            }
        },
        None => None,
    }
}

/// The shell after a click on a tab: the tab is active and its window focused.
pub open spec fn after_tab_click(s: ShellView, place: int, tab: int) -> ShellView {
    ShellView {
        focused: Some(s.workspaces[place].tiled()[tab]),
        ..s.with_workspace(place, s.workspaces[place].choose_tab(tab))
    }.update_focused_output()
}

impl Shell {
    /// Handles a click at a point of an output, and says whether it hit a tab.
    pub fn handle_tab_click(&mut self, output: &str, pointer: &Pointer) -> (r: bool)
        requires
            old(self).wf(),
            old(self)@.workspaces.len() < u64::MAX,
        ensures
            final(self).wf(),
            match clicked_tab(old(self)@, output@, *pointer) {
                Some((place, tab)) => r && final(self)@ == after_tab_click(old(self)@, place, tab),
                None => !r && final(self)@ == old(self)@,
            },
    {
        let place: usize = match self.find_place_at(output, pointer.round) {
            Some(i) => i,
            None => {
                return false;
            },
        };
        let tabbed = match self.workspaces[place].layout_mode() {
            LayoutMode::Tabbed => true,
            LayoutMode::Tiling => false,
        };
        if !tabbed {
            return false;
        }
        let area = self.workspaces[place].available_area().as_rectangle();
        if !pointer_in_bar(&area, pointer) {
            return false;
        }
        let count: usize = self.workspaces[place].tiled_windows().len();
        match find_tab(area.size.w, count, pointer_distance(&area, pointer)) {
            Some(tab) => {
                let ghost before = *self;
                let window = self.workspaces[place].click_tab(tab);
                proof {
                    assert(self.workspaces@ =~= before.workspaces@.update(
                        place as int,
                        self.workspaces@[place as int],
                    ));
                    Shell::lemma_workspace_changed(before, *self, place as int);
                }
                self.focused_window = Some(window);
                self.update_focused_virtual_output();
                true
            },
            None => false,
        }
    }

    /// Place of the workspace shown at a point of an output.
    fn find_place_at(&self, output: &str, point: Point) -> (r: Option<usize>)
        requires
            self.wf(),
        ensures
            match r {
                Some(i) => i < self@.workspaces.len() && self@.workspace_at(output@, point) == Some(
                    i as int,
                ),
                None => self@.workspace_at(output@, point) is None,
            },
    {
        proof {
            self.lemma_shown_valid(output@);
            assert(self.workspaces.len() == self@.workspaces.len());
        }
        match self.find_covering(output, point) {
            Some(v) => match v.active_workspace() {
                Some(ws) => Some((ws.0 - 1) as usize),
                None => None,
            },
            None => None,
        }
    }

    /// The workspace at a place, for changing it. The invariant stays as long as the
    /// workspace keeps its own and its name.
    fn workspace_mut(&mut self, i: usize) -> (r: &mut Workspace)
        requires
            old(self).wf(),
            i < old(self)@.workspaces.len(),
        ensures
            r@ == old(self)@.workspaces[i as int],
            r.wf(),
            final(self)@ == old(self)@.with_workspace(i as int, final(r)@),
            final(r).wf() && final(r)@.name == old(self)@.workspaces[i as int].name
                ==> final(self).wf(),
    {
        let ghost start = self.workspaces@;
        proof {
            assert forall|x: Workspace| #[trigger]
                workspace_views(start.update(i as int, x)) == workspace_views(start).update(
                    i as int,
                    x@,
                ) by {
                assert(workspace_views(start.update(i as int, x)) =~= workspace_views(
                    start,
                ).update(i as int, x@));
            }
            assert forall|x: Workspace, k: int|
                #![trigger start.update(i as int, x)[k]]
                0 <= k < start.len() && x.wf() implies start.update(i as int, x)[k].wf() by {}
            assert forall|x: Workspace|
                #![trigger workspace_views(start).update(i as int, x@)]
                x@.name == start[i as int]@.name implies ShellView {
                workspaces: workspace_views(start).update(i as int, x@),
                ..old(self)@
            }.names_distinct() by {
                let s = ShellView {
                    workspaces: workspace_views(start).update(i as int, x@),
                    ..old(self)@
                };
                assert forall|a: int, b: int| 0 <= a < b < s.workspaces.len() implies (
                #[trigger] s.workspaces[a]).name != (#[trigger] s.workspaces[b]).name by {
                    assert(old(self)@.workspaces[a].name != old(self)@.workspaces[b].name);
                }
            }
        }
        &mut self.workspaces[i]
    }
}

impl Shell {
    /// The workspace that holds a window, for changing it.
    /// The invariant stays as long as the workspace keeps its own and its name.
    pub fn workspace_containing_window_mut(&mut self, window: WindowId) -> (r: Option<&mut Workspace>)
        requires
            old(self).wf(),
        ensures
            match old(self)@.holder(window) {
                Some(i) => {
                    &&& r is Some
                    &&& r.unwrap()@ == old(self)@.workspaces[i]
                    &&& r.unwrap().wf()
                    &&& final(self)@ == old(self)@.with_workspace(i, final(r.unwrap())@)
                    &&& final(r.unwrap()).wf() && final(r.unwrap())@.name
                        == old(self)@.workspaces[i].name ==> final(self).wf()
                },
                None => r is None && final(self)@ == old(self)@ && final(self).wf(),
            },
    {
        match self.find_holder(window) {
            Some(i) => Some(self.workspace_mut(i)),
            None => None,
        }
    }

    /// The workspace that holds the focused window, for changing it.
    /// The invariant stays as long as the workspace keeps its own and its name.
    pub fn focused_workspace_mut(&mut self) -> (r: Option<&mut Workspace>)
        requires
            old(self).wf(),
        ensures
            match focused_holder(old(self)@) {
                Some(i) => {
                    &&& r is Some
                    &&& r.unwrap()@ == old(self)@.workspaces[i]
                    &&& r.unwrap().wf()
                    &&& final(self)@ == old(self)@.with_workspace(i, final(r.unwrap())@)
                    &&& final(r.unwrap()).wf() && final(r.unwrap())@.name
                        == old(self)@.workspaces[i].name ==> final(self).wf()
                },
                None => r is None && final(self)@ == old(self)@ && final(self).wf(),
            },
    {
        match self.focused_window {
            Some(window) => match self.find_holder(window) {
                Some(i) => Some(self.workspace_mut(i)),
                None => None,
            },
            None => None,
        }
    }

    /// The workspace shown at a point of an output, for changing it.
    /// The invariant stays as long as the workspace keeps its own and its name.
    pub fn workspace_at_position_mut(&mut self, output: &str, point: Point) -> (r: Option<&mut Workspace>)
        requires
            old(self).wf(),
        ensures
            match old(self)@.workspace_at(output@, point) {
                Some(i) => {
                    &&& r is Some
                    &&& r.unwrap()@ == old(self)@.workspaces[i]
                    &&& r.unwrap().wf()
                    &&& final(self)@ == old(self)@.with_workspace(i, final(r.unwrap())@)
                    &&& final(r.unwrap()).wf() && final(r.unwrap())@.name
                        == old(self)@.workspaces[i].name ==> final(self).wf()
                },
                None => r is None && final(self)@ == old(self)@ && final(self).wf(),
            },
    {
        match self.find_place_at(output, point) {
            Some(i) => Some(self.workspace_mut(i)),
            None => None,
        }
    }
}

/// Place of the workspace that holds the focused window.
pub open spec fn focused_holder(s: ShellView) -> Option<int> {
    match s.focused {
        Some(w) => s.holder(w),
        None => None,
    }
}

impl Shell {
    /// The workspaces that an output shows, with the rectangles of the virtual outputs
    /// that show them.
    fn plan(&self, output: &str) -> (r: (Vec<(usize, GlobalRect)>, bool))
        requires
            self.wf(),
        ensures
            ({
                let shown = shown_on(self@.manager.outputs, output@);
                let entries = plan_entries(shown);
                &&& r.0@.len() == entries.len()
                &&& forall|i: int|
                    0 <= i < r.0@.len() ==> (#[trigger] r.0@[i]).0 == entries[i].place && r.0@[i].1
                        == entries[i].geometry && r.0@[i].0 < self@.workspaces.len()
                &&& r.1 == (shown.len() == 1)
            }),
    {
        let shown = self.virtual_output_manager.virtual_outputs_for_physical(output);
        let ghost views = shown_on(self@.manager.outputs, output@);
        proof {
            self.lemma_shown_valid(output@);
            assert(self.workspaces.len() == self@.workspaces.len());
        }
        let mut entries: Vec<(usize, GlobalRect)> = Vec::new();
        let mut i: usize = 0;
        while i < shown.len()
            invariant
                i <= shown@.len(),
                shown@.len() == views.len(),
                self.workspaces.len() == self@.workspaces.len(),
                forall|k: int| 0 <= k < shown@.len() ==> (#[trigger] shown@[k])@ == views[k],
                forall|k: int|
                    0 <= k < views.len() ==> ((#[trigger] views[k]).active matches Some(ws) ==> 1
                        <= ws.0 <= self@.workspaces.len()),
                entries@.len() == plan_entries(views.take(i as int)).len(),
                forall|k: int|
                    0 <= k < entries@.len() ==> (#[trigger] entries@[k]).0 == plan_entries(
                        views.take(i as int),
                    )[k].place && entries@[k].1 == plan_entries(views.take(i as int))[k].geometry
                        && entries@[k].0 < self@.workspaces.len(),
            decreases shown@.len() - i,
        {
            proof {
                assert(views.take(i + 1).drop_last() =~= views.take(i as int));
                assert(views.take(i + 1).last() == shown@[i as int]@);
            }
            match shown[i].active_workspace() {
                Some(ws) => {
                    entries.push(((ws.0 - 1) as usize, shown[i].logical_geometry()));
                },
                None => {},
            }
            i = i + 1;
        }
        assert(views.take(i as int) =~= views);
        (entries, shown.len() == 1)
    }

    /// The workspaces that an output shows and the area of each, in the order in which
    /// `arrange_windows_on_output` takes the master shares. `zone` is the part of the
    /// output free of exclusive zones.
    pub fn arrangement_areas(&self, output: &Output, zone: Rectangle) -> (r: Vec<
        (WorkspaceId, VirtualOutputRelativeRect),
    >)
        requires
            self.wf(),
            self@.workspaces.len() < u64::MAX,
        ensures
            ({
                let shown = shown_on(self@.manager.outputs, output@.name);
                let entries = plan_entries(shown);
                &&& r@.len() == entries.len()
                &&& forall|i: int|
                    0 <= i < r@.len() ==> #[trigger] r@[i] == (
                        workspace_id(entries[i].place),
                        area_in(
                            global_zone(output@, zone),
                            entries[i].geometry,
                            shown.len() == 1,
                        ),
                    )
            }),
    {
        let (entries, alone) = self.plan(output.name.as_str());
        let zone_global = Rectangle {
            loc: OutputRelativePoint(zone.loc).to_global(output.position).as_point(),
            size: zone.size,
        };
        let mut areas: Vec<(WorkspaceId, VirtualOutputRelativeRect)> = Vec::new();
        let mut i: usize = 0;
        while i < entries.len()
            invariant
                i <= entries@.len(),
                self@.workspaces.len() < u64::MAX,
                ({
                    let shown = shown_on(self@.manager.outputs, output@.name);
                    let plan = plan_entries(shown);
                    &&& entries@.len() == plan.len()
                    &&& alone == (shown.len() == 1)
                    &&& forall|i: int|
                        0 <= i < entries@.len() ==> (#[trigger] entries@[i]).0 == plan[i].place
                            && entries@[i].1 == plan[i].geometry && entries@[i].0
                            < self@.workspaces.len()
                    &&& areas@.len() == i
                    &&& forall|k: int|
                        0 <= k < i ==> #[trigger] areas@[k] == (
                            workspace_id(plan[k].place),
                            area_in(
                                global_zone(output@, zone),
                                plan[k].geometry,
                                shown.len() == 1,
                            ),
                        )
                }),
                zone_global == global_zone(output@, zone),
            decreases entries@.len() - i,
        {
            let (place, geometry) = entries[i];
            areas.push(
                (WorkspaceId(place as u64 + 1), compute_area(&zone_global, geometry, alone)),
            );
            i = i + 1;
        }
        areas
    }

    /// Arranges the workspaces that an output shows. `zone` is the part of the output free
    /// of exclusive zones; `shares` holds the width that the master factor gives the
    /// master column of each workspace of `arrangement_areas`; `offsets` lists where
    /// windows have their content.
    pub fn arrange_windows_on_output(
        &mut self,
        output: &Output,
        zone: Rectangle,
        shares: &Vec<i32>,
        dead: &Vec<WindowId>,
        offsets: &Vec<(WindowId, Point)>,
    ) -> (r: Vec<Command>)
        requires
            old(self).wf(),
            shares@.len() == plan_entries(
                shown_on(old(self)@.manager.outputs, output@.name),
            ).len(),
        ensures
            final(self).wf(),
            final(self)@ == old(self)@.arrange(
                output@,
                zone,
                shares@,
                dead@,
                offsets@,
                shares@.len() as int,
            ).0,
            r@ == old(self)@.arrange(
                output@,
                zone,
                shares@,
                dead@,
                offsets@,
                shares@.len() as int,
            ).1,
    {
        let (entries, alone) = self.plan(output.name.as_str());
        let zone_global = Rectangle {
            loc: OutputRelativePoint(zone.loc).to_global(output.position).as_point(),
            size: zone.size,
        };
        let ghost shown = shown_on(self@.manager.outputs, output@.name);
        let ghost plan = plan_entries(shown);
        assert forall|k: int| 0 <= k < plan.len() implies 0 <= (#[trigger] plan[k]).place
            < self@.workspaces.len() by {
            assert(entries@[k].0 == plan[k].place);
        }
        let mut commands: Vec<Command> = Vec::new();
        let mut i: usize = 0;
        while i < entries.len()
            invariant
                i <= entries@.len(),
                self.wf(),
                shown == shown_on(old(self)@.manager.outputs, output@.name),
                plan == plan_entries(shown),
                shares@.len() == plan.len(),
                entries@.len() == plan.len(),
                alone == (shown.len() == 1),
                zone_global == global_zone(output@, zone),
                forall|k: int|
                    0 <= k < entries@.len() ==> (#[trigger] entries@[k]).0 == plan[k].place
                        && entries@[k].1 == plan[k].geometry && entries@[k].0
                        < old(self)@.workspaces.len(),
                forall|k: int|
                    0 <= k < plan.len() ==> 0 <= (#[trigger] plan[k]).place
                        < old(self)@.workspaces.len(),
                self@ == old(self)@.arrange(output@, zone, shares@, dead@, offsets@, i as int).0,
                commands@ == old(self)@.arrange(
                    output@,
                    zone,
                    shares@,
                    dead@,
                    offsets@,
                    i as int,
                ).1,
            decreases entries@.len() - i,
        {
            proof {
                lemma_arrange_frame(
                    old(self)@,
                    output@,
                    zone,
                    shares@,
                    dead@,
                    offsets@,
                    i as int,
                );
            }
            let (place, geometry) = entries[i];
            let area = compute_area(&zone_global, geometry, alone);
            let size = output.fullscreen_size(geometry.size());
            let ghost before = *self;
            self.workspaces[place].arrange(
                area,
                geometry,
                size,
                shares[i],
                dead,
                offsets,
                &mut commands,
            );
            proof {
                assert(frame_of(shown, output@, zone, shares@, i as int) == (Frame {
                    area,
                    geometry,
                    fullscreen_size: size,
                    master_share: shares@[i as int] as int,
                }));
                assert(self.workspaces@ =~= before.workspaces@.update(
                    place as int,
                    self.workspaces@[place as int],
                ));
                Shell::lemma_workspace_changed(before, *self, place as int);
            }
            i = i + 1;
        }
        commands
    }

    /// Asks for the windows on all outputs to be arranged.
    pub fn arrange(&self, outputs: &Vec<Output>) -> (r: Vec<Command>)
        ensures
            r@ == Seq::new(
                outputs@.len(),
                |i: int| Command::Arrange { output: outputs@[i]@.id },
            ),
    {
        let mut commands: Vec<Command> = Vec::new();
        let mut i: usize = 0;
        while i < outputs.len()
            invariant
                i <= outputs@.len(),
                commands@.len() == i,
                forall|k: int|
                    0 <= k < i ==> #[trigger] commands@[k] == (Command::Arrange {
                        output: outputs@[k]@.id,
                    }),
            decreases outputs@.len() - i,
        {
            commands.push(Command::Arrange { output: outputs[i].id });
            i = i + 1;
        }
        assert(commands@ =~= Seq::new(
            outputs@.len(),
            |i: int| Command::Arrange { output: outputs@[i]@.id },
        ));
        commands
    }
}

impl Shell {
    /// Place of the workspace that the first virtual output on an output shows.
    pub(crate) fn find_active(&self, output: &str) -> (r: Option<usize>)
        requires
            self.wf(),
        ensures
            match r {
                Some(i) => i < self@.workspaces.len() && self@.active_on(output@) == Some(i as int),
                None => self@.active_on(output@) is None,
            },
    {
        proof {
            self.lemma_shown_valid(output@);
            assert(self.workspaces.len() == self@.workspaces.len());
        }
        let shown = self.virtual_output_manager.virtual_outputs_for_physical(output);
        if shown.len() > 0 {
            assert(shown@[0]@ == shown_on(self@.manager.outputs, output@)[0]);
            match shown[0].active_workspace() {
                Some(ws) => Some((ws.0 - 1) as usize),
                None => None,
            }
        } else {
            None
        }
    }

    /// The workspace that the first virtual output on an output shows, for changing it.
    /// The invariant stays as long as the workspace keeps its own and its name.
    pub fn active_workspace_mut(&mut self, output: &str) -> (r: Option<&mut Workspace>)
        requires
            old(self).wf(),
        ensures
            match old(self)@.active_on(output@) {
                Some(i) => {
                    &&& r is Some
                    &&& 0 <= i < old(self)@.workspaces.len()
                    &&& r.unwrap()@ == old(self)@.workspaces[i]
                    &&& r.unwrap().wf()
                    &&& final(self)@ == old(self)@.with_workspace(i, final(r.unwrap())@)
                    &&& final(r.unwrap()).wf() && final(r.unwrap())@.name
                        == old(self)@.workspaces[i].name ==> final(self).wf()
                },
                None => r is None && final(self)@ == old(self)@ && final(self).wf(),
            },
    {
        match self.find_active(output) {
            Some(i) => Some(self.workspace_mut(i)),
            None => None,
        }
    }
}

impl Shell {
    /// Whether the workspace that the first virtual output on an output shows has to be
    /// arranged.
    pub fn active_needs_arrange(&self, output: &str) -> (r: bool)
        requires
            self.wf(),
        ensures
            r == (self@.active_on(output@) matches Some(i) && self@.workspaces[i].needs_arrange),
    {
        match self.find_active(output) {
            Some(i) => self.workspaces[i].needs_arrange(),
            None => false,
        }
    }

    /// Whether windows are moving by themselves; there are no such animations.
    pub fn animations_going(&self) -> (r: bool)
        ensures
            !r,
    {
        false
    }
}

} // verus!
