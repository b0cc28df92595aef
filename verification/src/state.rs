//! The compositor's state, and what happens to it when clients and devices do something.
//!
//! Each operation returns the effects that the program around the library has to carry out,
//! in order.

use vstd::prelude::*;

use crate::shell::hit::{shown_output, Element, OutputArea};
use crate::shell::laws::law_remove_window;
use crate::shell::model::{Command, ShellView};
use crate::shell::output::{output_views, Output, OutputView, Scale};
use crate::shell::tiling::WindowId;
use crate::shell::virtual_output::shown_on;
use crate::shell::workspace::WorkspaceView;
use crate::shell::Shell;
use crate::utils::geometry::{Point, Size};
use crate::utils::lists;
use crate::utils::search;

verus! {

/// What the program has to do.
#[derive(Debug, Clone, Copy, PartialEq, Eq, Structural)]
pub enum Effect {
    /// Carry out a command of the shell.
    Do(Command),
    /// Give a surface the keyboard.
    FocusSurface(u64),
    /// Give a window's surface the keyboard.
    FocusWindow(WindowId),
    /// Take the keyboard from whoever has it.
    ClearFocus,
    /// Tell a surface that it may draw its next frame on the output.
    SendFrame { surface: u64, output: u64 },
    /// Bring the bookkeeping of what is on the screen up to date.
    Refresh,
    /// Draw the output.
    Render(u64),
    /// Take the layer surface off the output, and arrange the output's layers.
    UnmapLayer(u64),
    /// Ask a window to be fullscreen at a size.
    ConfigureFullscreen(Size),
    /// Ask a window to be fullscreen no more, at a size.
    ConfigureNormal(Size),
}

/// Carries out the commands.
pub open spec fn do_all(commands: Seq<Command>) -> Seq<Effect> {
    Seq::new(commands.len(), |i: int| Effect::Do(commands[i]))
}

/// Draws the outputs.
pub open spec fn render_all(outputs: Seq<u64>) -> Seq<Effect> {
    Seq::new(outputs.len(), |i: int| Effect::Render(outputs[i]))
}

/// The effect, if it is due.
pub open spec fn effect_if(due: bool, effect: Effect) -> Seq<Effect> {
    if due {
        seq![effect]
    } else {
        Seq::empty()
    }
}

fn push_commands(effects: &mut Vec<Effect>, commands: &Vec<Command>)
    ensures
        final(effects)@ == old(effects)@ + do_all(commands@),
{
    let mut i: usize = 0;
    assert(effects@ =~= old(effects)@ + do_all(commands@.take(0)));
    while i < commands.len()
        invariant
            i <= commands@.len(),
            effects@ == old(effects)@ + do_all(commands@.take(i as int)),
        decreases commands@.len() - i,
    {
        effects.push(Effect::Do(commands[i]));
        assert(effects@ =~= old(effects)@ + do_all(commands@.take(i + 1)));
        i = i + 1;
    }
    assert(commands@.take(i as int) =~= commands@);
}

fn push_renders(effects: &mut Vec<Effect>, outputs: &Vec<u64>)
    ensures
        final(effects)@ == old(effects)@ + render_all(outputs@),
{
    let mut i: usize = 0;
    assert(effects@ =~= old(effects)@ + render_all(outputs@.take(0)));
    while i < outputs.len()
        invariant
            i <= outputs@.len(),
            effects@ == old(effects)@ + render_all(outputs@.take(i as int)),
        decreases outputs@.len() - i,
    {
        effects.push(Effect::Render(outputs[i]));
        assert(effects@ =~= old(effects)@ + render_all(outputs@.take(i + 1)));
        i = i + 1;
    }
    assert(outputs@.take(i as int) =~= outputs@);
}

/// A window that was announced and has not shown anything yet.
#[derive(Debug, Clone, Copy, PartialEq, Eq, Structural)]
pub struct PendingWindow {
    pub surface: u64,
    pub window: WindowId,
}

/// What is known when a surface that is no layer shows its next contents.
pub struct Commit {
    pub surface: u64,
    /// Whether the surface has contents.
    pub has_buffer: bool,
    /// Whether its window wants to be fullscreen.
    pub fullscreen: bool,
    /// Whether its window has a parent.
    pub has_parent: bool,
    /// Where the pointer is, rounded to the nearest pixel.
    pub pointer: Point,
    /// The windows on the screen.
    pub elements: Vec<Element>,
    /// The outputs and the parts of the global space that they show.
    pub areas: Vec<OutputArea>,
    /// The windows that the surface belongs to.
    pub owners: Vec<WindowId>,
    /// The windows that its parent surface belongs to, where it has one.
    pub parent_owners: Option<Vec<WindowId>>,
    /// Whether the contents have changed the geometry of the window on the screen whose own
    /// surface this is, where there is one.
    pub toplevel_changed: Option<bool>,
}

/// What is known when a surface shows its next contents.
pub ghost struct CommitView {
    pub surface: u64,
    pub has_buffer: bool,
    pub fullscreen: bool,
    pub has_parent: bool,
    pub pointer: Point,
    pub elements: Seq<Element>,
    pub areas: Seq<OutputArea>,
    pub owners: Seq<WindowId>,
    pub parent_owners: Option<Seq<WindowId>>,
    pub toplevel_changed: Option<bool>,
}

impl View for Commit {
    type V = CommitView;

    open spec fn view(&self) -> CommitView {
        CommitView {
            surface: self.surface,
            has_buffer: self.has_buffer,
            fullscreen: self.fullscreen,
            has_parent: self.has_parent,
            pointer: self.pointer,
            elements: self.elements@,
            areas: self.areas@,
            owners: self.owners@,
            parent_owners: match self.parent_owners {
                Some(owners) => Some(owners@),
                None => None,
            },
            toplevel_changed: self.toplevel_changed,
        }
    }
}

impl CommitView {
    /// The output that the surface is shown on: its own, or else its parent's.
    pub open spec fn output(self) -> Option<u64> {
        match shown_output(self.areas, self.elements, self.owners) {
            Some(output) => Some(output),
            None => match self.parent_owners {
                Some(owners) => shown_output(self.areas, self.elements, owners),
                None => None,
            },
        }
    }
}

/// The compositor's state.
pub struct State {
    shell: Shell,
    outputs: Vec<Output>,
    pending_windows: Vec<PendingWindow>,
    needs_focus_refresh: bool,
    should_stop: bool,
    session_active: bool,
}

/// The compositor's state.
#[verifier::ext_equal]
pub ghost struct StateView {
    pub shell: ShellView,
    pub outputs: Seq<OutputView>,
    pub pending: Seq<PendingWindow>,
    pub needs_focus_refresh: bool,
    pub should_stop: bool,
    pub session_active: bool,
}

impl View for State {
    type V = StateView;

    closed spec fn view(&self) -> StateView {
        StateView {
            shell: self.shell@,
            outputs: output_views(self.outputs@),
            pending: self.pending_windows@,
            needs_focus_refresh: self.needs_focus_refresh,
            should_stop: self.should_stop,
            session_active: self.session_active,
        }
    }
}

/// Whether the pending window at a place is the surface's.
pub open spec fn pending_is(pending: Seq<PendingWindow>, surface: u64) -> spec_fn(int) -> bool {
    |i: int| pending[i].surface == surface
}

/// Whether the output at a place is the one.
pub open spec fn output_is(outputs: Seq<OutputView>, id: u64) -> spec_fn(int) -> bool {
    |i: int| outputs[i].id == id
}

/// The shell with the active workspace of an output marked for arrangement.
pub open spec fn mark_active(s: ShellView, output: Seq<char>) -> ShellView {
    match s.active_on(output) {
        Some(i) => s.with_workspace(
            i,
            WorkspaceView { needs_arrange: true, ..s.workspaces[i] },
        ),
        None => s,
    }
}

impl StateView {
    /// Where the pending window of a surface stands.
    pub open spec fn pending_place(self, surface: u64) -> Option<int> {
        search::first_below(self.pending.len(), pending_is(self.pending, surface))
    }

    /// Where an output stands.
    pub open spec fn output_place(self, id: u64) -> Option<int> {
        search::first_below(self.outputs.len(), output_is(self.outputs, id))
    }

    /// The first output.
    pub open spec fn first_output(self) -> Option<u64> {
        if self.outputs.len() > 0 {
            Some(self.outputs[0].id)
        } else {
            None
        }
    }

    /// The scale of the first output, or one.
    pub open spec fn first_scale(self) -> Scale {
        if self.outputs.len() > 0 {
            self.outputs[0].scale
        } else {
            Scale(256)
        }
    }

    /// Whether the output can be added.
    pub open spec fn can_add(self, output: OutputView) -> bool {
        self.shell.can_add_output(self.outputs.push(output), self.outputs.len() as int)
    }

    /// Whether a window can be added to the first output: there is room for its workspaces and
    /// its virtual output.
    pub open spec fn can_map(self) -> bool {
        &&& self.shell.has_room()
        &&& self.outputs.len() > 0 && shown_on(
            self.shell.manager.outputs,
            self.outputs[0].name,
        ).len() == 0 ==> self.outputs[0].mode is Some && self.shell.manager.next_id < u32::MAX
    }

    /// The state with the active workspace of an output marked for arrangement, if the output
    /// is known.
    pub open spec fn marked(self, output: Option<u64>) -> StateView {
        match output {
            Some(id) => match self.output_place(id) {
                Some(k) => StateView {
                    shell: mark_active(self.shell, self.outputs[k].name),
                    ..self
                },
                None => self,
            },
            None => self,
        }
    }

    /// A layer surface shows its next contents: the output is drawn, after its windows are
    /// marked for arrangement, if the layers have moved.
    pub open spec fn layer_commit(
        self,
        k: int,
        surface: u64,
        changed: bool,
        wants_focus: bool,
    ) -> (StateView, Seq<Effect>) {
        let output = self.outputs[k].id;
        (
            if changed {
                StateView { shell: mark_active(self.shell, self.outputs[k].name), ..self }
            } else {
                self
            },
            effect_if(changed, Effect::Render(output)) + effect_if(
                wants_focus,
                Effect::FocusSurface(surface),
            ) + seq![Effect::SendFrame { surface, output }, Effect::Render(output)],
        )
    }

    /// A pending window has its first contents: it is put on the first output, at the pointer's
    /// place, and gets the keyboard.
    pub open spec fn map_pending(self, i: int, c: CommitView) -> (StateView, Seq<Effect>) {
        let window = self.pending[i].window;
        let output = self.outputs[0];
        let (s1, shown) = self.shell.add_window(window, output, c.has_parent, Some(c.pointer));
        let s2 = if c.fullscreen {
            s1.set_fullscreen(window, true)
        } else {
            s1
        };
        (
            StateView { shell: s2, pending: self.pending.remove(i), ..self },
            do_all(shown) + effect_if(
                c.fullscreen,
                Effect::Do(Command::Arrange { output: output.id }),
            ) + seq![
                Effect::FocusSurface(c.surface),
                Effect::SendFrame { surface: c.surface, output: output.id },
                Effect::Render(output.id),
            ],
        )
    }

    /// Any other surface shows its next contents: the output that shows it is drawn. A window
    /// that has changed its geometry has its workspace arranged.
    pub open spec fn surface_commit(self, c: CommitView) -> (StateView, Seq<Effect>) {
        let output = c.output();
        (
            if c.toplevel_changed == Some(true) {
                self.marked(output)
            } else {
                self
            },
            (match output {
                Some(id) => effect_if(
                    c.toplevel_changed is Some,
                    Effect::SendFrame { surface: c.surface, output: id },
                ),
                None => Seq::empty(),
            }) + seq![Effect::Refresh] + (match output {
                Some(id) => seq![Effect::Render(id)],
                None => Seq::empty(),
            }),
        )
    }

    /// A surface that is no layer shows its next contents. A pending window that has contents
    /// for the first time is mapped; without an output for it, it goes on waiting, behind the
    /// others.
    pub open spec fn commit(self, c: CommitView) -> (StateView, Seq<Effect>) {
        match self.pending_place(c.surface) {
            Some(i) => if c.has_buffer {
                if self.outputs.len() > 0 {
                    self.map_pending(i, c)
                } else {
                    StateView {
                        pending: self.pending.remove(i).push(self.pending[i]),
                        ..self
                    }.surface_commit(c)
                }
            } else {
                self.surface_commit(c)
            },
            None => self.surface_commit(c),
        }
    }

    /// A window is gone. If it had the keyboard, nobody has it until the focus is next
    /// refreshed.
    pub open spec fn destroyed(self, window: WindowId, dead: Seq<WindowId>) -> (
        StateView,
        Seq<Effect>,
    ) {
        let was_focused = self.shell.focused == Some(window);
        (
            StateView {
                shell: self.shell.remove_window(window, dead),
                needs_focus_refresh: self.needs_focus_refresh || was_focused,
                ..self
            },
            seq![Effect::Do(Command::Hide { window })] + effect_if(
                was_focused,
                Effect::ClearFocus,
            ) + render_all(self.shell.affected_outputs(window)),
        )
    }

    /// The shell once a window is fullscreen, or no longer so, and what to do: nothing, while
    /// there is no window or no output.
    pub open spec fn set_fullscreen(self, window: Option<WindowId>, fullscreen: bool) -> (
        StateView,
        Seq<Effect>,
    ) {
        if window is Some && self.outputs.len() > 0 {
            (
                StateView {
                    shell: self.shell.set_fullscreen(window.unwrap(), fullscreen),
                    ..self
                },
                seq![Effect::Do(Command::Arrange { output: self.outputs[0].id })],
            )
        } else {
            (self, Seq::empty())
        }
    }

    /// The output that a window is to fill: the one that is asked for, or else the one that
    /// shows it, or else the first.
    pub open spec fn fullscreen_output(self, wanted: Option<u64>, shown: Option<u64>) -> Option<u64> {
        match wanted {
            Some(id) => Some(id),
            None => match shown {
                Some(id) => Some(id),
                None => self.first_output(),
            },
        }
    }

    /// The state once the keyboard focus was brought up to date, and what to do: nothing, while
    /// who has it is alive; else the window focused last gets it.
    pub open spec fn refresh_focus(self, focus_alive: bool, dead: Seq<WindowId>) -> (
        StateView,
        Seq<Effect>,
    ) {
        if focus_alive {
            (self, Seq::empty())
        } else {
            (
                StateView { shell: self.shell.refresh_focus(dead), ..self },
                match self.shell.last_focused(dead) {
                    Some(window) => seq![Effect::FocusWindow(window)] + (match self.first_output() {
                        Some(id) => seq![Effect::Render(id)],
                        None => Seq::empty(),
                    }),
                    None => seq![Effect::ClearFocus],
                },
            )
        }
    }
}

fn push_if(effects: &mut Vec<Effect>, due: bool, effect: Effect)
    ensures
        final(effects)@ == old(effects)@ + effect_if(due, effect),
{
    if due {
        effects.push(effect);
    }
    assert(effects@ =~= old(effects)@ + effect_if(due, effect));
}

/// What a new window is asked to be: active, at a size unless it is to be fullscreen.
#[derive(Debug, Clone, Copy, PartialEq, Eq, Structural)]
pub struct InitialConfigure {
    pub activated: bool,
    pub size: Option<Size>,
}

/// What the event loop does next.
#[derive(Debug, Clone, Copy, PartialEq, Eq, Structural)]
pub enum Tick {
    /// Stop.
    Stop,
    /// Send out what is pending, and bring the focus up to date if so said.
    Continue { refresh_focus: bool },
}

/// What to do with input devices.
#[derive(Debug, Clone, Copy, PartialEq, Eq, Structural)]
pub enum SessionChange {
    ResumeInput,
    SuspendInput,
}

impl State {
    /// Whether the shell is well-formed.
    pub closed spec fn wf(&self) -> bool {
        self.shell.wf()
    }

    /// A state without outputs and windows.
    pub fn new(shell: Shell) -> (r: State)
        requires
            shell.wf(),
        ensures
            r.wf(),
            r@ == (StateView {
                shell: shell@,
                outputs: Seq::empty(),
                pending: Seq::empty(),
                needs_focus_refresh: false,
                should_stop: false,
                session_active: false,
            }),
    {
        let r = State {
            shell,
            outputs: Vec::new(),
            pending_windows: Vec::new(),
            needs_focus_refresh: false,
            should_stop: false,
            session_active: false,
        };
        assert(r@.outputs =~= Seq::<OutputView>::empty());
        r
    }

    /// The shell.
    pub fn shell(&self) -> (r: &Shell)
        ensures
            r@ == self@.shell,
            self.wf() ==> r.wf(),
    {
        &self.shell
    }

    /// The shell, to be changed.
    pub fn shell_mut(&mut self) -> (r: &mut Shell)
        requires
            old(self).wf(),
        ensures
            r@ == old(self)@.shell,
            r.wf(),
            final(self)@ == (StateView { shell: final(r)@, ..old(self)@ }),
            final(r).wf() ==> final(self).wf(),
    {
        &mut self.shell
    }

    /// The outputs.
    pub fn outputs(&self) -> (r: &Vec<Output>)
        ensures
            output_views(r@) == self@.outputs,
    {
        &self.outputs
    }

    /// Whether the session is active.
    pub fn is_session_active(&self) -> (r: bool)
        ensures
            r == self@.session_active,
    {
        self.session_active
    }

    /// Takes note that the session was activated or paused.
    pub fn session_active(&mut self, active: bool) -> (r: SessionChange)
        requires
            old(self).wf(),
        ensures
            final(self).wf(),
            final(self)@ == (StateView { session_active: active, ..old(self)@ }),
            r == (if active {
                SessionChange::ResumeInput
            } else {
                SessionChange::SuspendInput
            }),
    {
        self.session_active = active;
        if active {
            SessionChange::ResumeInput
        } else {
            SessionChange::SuspendInput
        }
    }

    /// Asks the event loop to stop.
    pub fn stop(&mut self)
        requires
            old(self).wf(),
        ensures
            final(self).wf(),
            final(self)@ == (StateView { should_stop: true, ..old(self)@ }),
    {
        self.should_stop = true;
    }

    /// What the event loop does next. The focus is brought up to date once for each time that
    /// it was asked for.
    pub fn tick(&mut self) -> (r: Tick)
        requires
            old(self).wf(),
        ensures
            final(self).wf(),
            old(self)@.should_stop ==> r == Tick::Stop && final(self)@ == old(self)@,
            !old(self)@.should_stop ==> r == (Tick::Continue {
                refresh_focus: old(self)@.needs_focus_refresh,
            }) && final(self)@ == (StateView { needs_focus_refresh: false, ..old(self)@ }),
    {
        if self.should_stop {
            return Tick::Stop;
        }
        let refresh_focus = self.needs_focus_refresh;
        self.needs_focus_refresh = false;
        Tick::Continue { refresh_focus }
    }

    /// Whether an output can be added as it comes from a device: with a mode, and without
    /// virtual outputs on it.
    pub fn can_add_output(&self, output: &Output) -> (r: bool)
        requires
            self.wf(),
        ensures
            r == (self@.shell.has_room() && self@.shell.manager.next_id < u32::MAX
                && output@.mode is Some),
            r ==> self@.can_add(output@),
    {
        let count: u64 = self.shell.workspaces().len() as u64;
        assert(count == self@.shell.workspaces.len());
        count < u64::MAX - 2 && self.shell.virtual_output_manager().has_next_id()
            && output.mode.is_some()
    }

    /// Whether a window can be added to the first output, if there is one.
    pub fn can_map_window(&self) -> (r: bool)
        requires
            self.wf(),
        ensures
            r == self@.can_map(),
    {
        if self.outputs.len() > 0 {
            self.shell.has_room_on(&self.outputs[0], 2)
        } else {
            let count: u64 = self.shell.workspaces().len() as u64;
            assert(count == self@.shell.workspaces.len());
            count < u64::MAX - 2
        }
    }

    /// Takes note that an output has moved or changed its mode, if it is a known one.
    pub fn update_output_position(&mut self, output: Output)
        requires
            old(self).wf(),
        ensures
            final(self).wf(),
            final(self)@ == (match old(self)@.output_place(output@.id) {
                Some(k) => {
                    let outputs = old(self)@.outputs.update(k, output@);
                    StateView {
                        shell: old(self)@.shell.with_manager(
                            old(self)@.shell.manager.update_all(outputs),
                        ),
                        outputs,
                        ..old(self)@
                    }
                },
                None => old(self)@,
            }),
    {
        match self.find_output(output.id) {
            Some(k) => {
                self.outputs.set(k, output);
                assert(output_views(self.outputs@) =~= old(self)@.outputs.update(
                    k as int,
                    output@,
                ));
                self.shell.update_output_position(&self.outputs);
            },
            None => {},
        }
    }

    /// Adds an output: to the shell, and to the outputs.
    pub fn add_output(&mut self, output: Output) -> (r: Vec<Effect>)
        requires
            old(self).wf(),
            old(self)@.can_add(output@),
        ensures
            final(self).wf(),
            ({
                let outputs = old(self)@.outputs.push(output@);
                let (shell, commands) = old(self)@.shell.add_output(outputs, outputs.len() - 1);
                &&& final(self)@ == (StateView { shell, outputs, ..old(self)@ })
                &&& r@ == do_all(commands).push(Effect::Render(output@.id))
            }),
    {
        let id: u64 = output.id;
        let k: usize = self.outputs.len();
        self.outputs.push(output);
        proof {
            assert(output_views(self.outputs@) =~= old(self)@.outputs.push(output@));
        }
        let commands = self.shell.add_output(&self.outputs, k);
        let mut effects: Vec<Effect> = Vec::new();
        push_commands(&mut effects, &commands);
        effects.push(Effect::Render(id));
        proof {
            assert(effects@ =~= do_all(commands@).push(Effect::Render(id)));
        }
        effects
    }

    fn find_output(&self, id: u64) -> (r: Option<usize>)
        ensures
            match r {
                Some(i) => self@.output_place(id) == Some(i as int) && i < self@.outputs.len()
                    && self@.outputs[i as int].id == id,
                None => self@.output_place(id) is None,
            },
    {
        let ghost p = output_is(self@.outputs, id);
        let mut i: usize = 0;
        while i < self.outputs.len()
            invariant
                i <= self@.outputs.len(),
                p == output_is(self@.outputs, id),
                forall|j: int| 0 <= j < i ==> !(#[trigger] p(j)),
            decreases self@.outputs.len() - i,
        {
            if self.outputs[i].id == id {
                proof {
                    search::lemma_is_first_below(self@.outputs.len(), p, i as int);
                }
                return Some(i);
            }
            i = i + 1;
        }
        proof {
            search::lemma_none_below(self@.outputs.len(), p);
        }
        None
    }

    /// Where the pending window of a surface stands, with the window.
    pub fn find_pending(&self, surface: u64) -> (r: Option<(usize, WindowId)>)
        ensures
            match r {
                Some((i, window)) => self@.pending_place(surface) == Some(i as int) && i
                    < self@.pending.len() && self@.pending[i as int].window == window,
                None => self@.pending_place(surface) is None,
            },
    {
        let ghost p = pending_is(self@.pending, surface);
        let mut i: usize = 0;
        while i < self.pending_windows.len()
            invariant
                i <= self@.pending.len(),
                p == pending_is(self@.pending, surface),
                forall|j: int| 0 <= j < i ==> !(#[trigger] p(j)),
            decreases self@.pending.len() - i,
        {
            if self.pending_windows[i].surface == surface {
                proof {
                    search::lemma_is_first_below(self@.pending.len(), p, i as int);
                }
                return Some((i, self.pending_windows[i].window));
            }
            i = i + 1;
        }
        proof {
            search::lemma_none_below(self@.pending.len(), p);
        }
        None
    }

    fn mark_output(&mut self, k: usize)
        requires
            old(self).wf(),
            k < old(self)@.outputs.len(),
        ensures
            final(self).wf(),
            final(self)@ == (StateView {
                shell: mark_active(old(self)@.shell, old(self)@.outputs[k as int].name),
                ..old(self)@
            }),
    {
        let name = self.outputs[k].name.as_str();
        match self.shell.active_workspace_mut(name) {
            Some(workspace) => {
                workspace.set_needs_arrange(true);
            },
            None => {},
        }
    }

    /// The first output that has the layer surface, where one does. `has_layer` says of each
    /// output whether it does.
    pub fn layer_output(&self, has_layer: &Vec<bool>) -> (r: Option<usize>)
        ensures
            match r {
                Some(k) => k < has_layer@.len() && has_layer@[k as int] && forall|j: int|
                    0 <= j < k ==> !has_layer@[j],
                None => forall|j: int| 0 <= j < has_layer@.len() ==> !has_layer@[j],
            },
    {
        let mut i: usize = 0;
        while i < has_layer.len()
            invariant
                i <= has_layer@.len(),
                forall|j: int| 0 <= j < i ==> !has_layer@[j],
            decreases has_layer@.len() - i,
        {
            if has_layer[i] {
                return Some(i);
            }
            i = i + 1;
        }
        None
    }

    /// Handles the next contents of a layer surface on an output. `changed` is whether the
    /// layers have moved.
    pub fn commit_layer(&mut self, k: usize, surface: u64, changed: bool, wants_focus: bool) -> (r:
        Vec<Effect>)
        requires
            old(self).wf(),
            k < old(self)@.outputs.len(),
        ensures
            final(self).wf(),
            final(self)@ == old(self)@.layer_commit(k as int, surface, changed, wants_focus).0,
            r@ == old(self)@.layer_commit(k as int, surface, changed, wants_focus).1,
    {
        let mut effects: Vec<Effect> = Vec::new();
        let output: u64 = self.outputs[k].id;
        if changed {
            self.mark_output(k);
        }
        push_if(&mut effects, changed, Effect::Render(output));
        push_if(&mut effects, wants_focus, Effect::FocusSurface(surface));
        effects.push(Effect::SendFrame { surface, output });
        effects.push(Effect::Render(output));
        assert(effects@ =~= old(self)@.layer_commit(k as int, surface, changed, wants_focus).1);
        effects
    }

    fn map_pending(&mut self, i: usize, c: &Commit) -> (r: Vec<Effect>)
        requires
            old(self).wf(),
            i < old(self)@.pending.len(),
            old(self)@.outputs.len() > 0,
            old(self)@.can_map(),
        ensures
            final(self).wf(),
            final(self)@ == old(self)@.map_pending(i as int, c@).0,
            r@ == old(self)@.map_pending(i as int, c@).1,
    {
        let mut effects: Vec<Effect> = Vec::new();
        let pending = self.pending_windows.remove(i);
        let window: WindowId = pending.window;
        let output: u64 = self.outputs[0].id;
        let commands = self.shell.add_window(
            window,
            &self.outputs[0],
            c.has_parent,
            Some(c.pointer),
        );
        push_commands(&mut effects, &commands);
        if c.fullscreen {
            let more = self.shell.set_fullscreen(window, true, output);
            proof {
                assert(more@[0] == Command::Arrange { output });
            }
        }
        push_if(&mut effects, c.fullscreen, Effect::Do(Command::Arrange { output }));
        effects.push(Effect::FocusSurface(c.surface));
        effects.push(Effect::SendFrame { surface: c.surface, output });
        effects.push(Effect::Render(output));
        assert(effects@ =~= old(self)@.map_pending(i as int, c@).1);
        effects
    }

    fn surface_output(&self, c: &Commit) -> (r: Option<u64>)
        ensures
            r == c@.output(),
    {
        match self.shell.visible_output_for_surface(&c.areas, &c.elements, &c.owners) {
            Some(output) => Some(output),
            None => match &c.parent_owners {
                Some(owners) => self.shell.visible_output_for_surface(
                    &c.areas,
                    &c.elements,
                    owners,
                ),
                None => None,
            },
        }
    }

    fn surface_commit(&mut self, c: &Commit) -> (r: Vec<Effect>)
        requires
            old(self).wf(),
        ensures
            final(self).wf(),
            final(self)@ == old(self)@.surface_commit(c@).0,
            r@ == old(self)@.surface_commit(c@).1,
    {
        let mut effects: Vec<Effect> = Vec::new();
        let output = self.surface_output(c);
        let changed = match c.toplevel_changed {
            Some(changed) => changed,
            None => false,
        };
        match output {
            Some(id) => {
                push_if(
                    &mut effects,
                    c.toplevel_changed.is_some(),
                    Effect::SendFrame { surface: c.surface, output: id },
                );
                if changed {
                    match self.find_output(id) {
                        Some(k) => {
                            self.mark_output(k);
                        },
                        None => {},
                    }
                }
            },
            None => {},
        }
        effects.push(Effect::Refresh);
        match output {
            Some(id) => {
                effects.push(Effect::Render(id));
            },
            None => {},
        }
        assert(effects@ =~= old(self)@.surface_commit(c@).1);
        effects
    }

    /// Handles the next contents of a surface that is no layer. There has to be room for a
    /// window that is shown with them for the first time.
    pub fn commit(&mut self, c: &Commit) -> (r: Vec<Effect>)
        requires
            old(self).wf(),
            c@.has_buffer && old(self)@.pending_place(c@.surface) is Some ==> old(
                self,
            )@.can_map(),
        ensures
            final(self).wf(),
            final(self)@ == old(self)@.commit(c@).0,
            r@ == old(self)@.commit(c@).1,
    {
        match self.find_pending(c.surface) {
            Some((i, _)) => {
                if c.has_buffer {
                    if self.outputs.len() > 0 {
                        return self.map_pending(i, c);
                    }
                    let pending = self.pending_windows.remove(i);
                    self.pending_windows.push(pending);
                }
            },
            None => {},
        }
        self.surface_commit(c)
    }

    /// Takes in a new window. It is pending until it has contents.
    pub fn new_toplevel(&mut self, surface: u64, window: WindowId, fullscreen: bool) -> (r:
        InitialConfigure)
        requires
            old(self).wf(),
        ensures
            final(self).wf(),
            final(self)@ == (StateView {
                pending: old(self)@.pending.push(PendingWindow { surface, window }),
                ..old(self)@
            }),
            r == (InitialConfigure {
                activated: true,
                size: if fullscreen {
                    None
                } else {
                    Some(Size { w: 800, h: 600 })
                },
            }),
    {
        self.pending_windows.push(PendingWindow { surface, window });
        InitialConfigure {
            activated: true,
            size: if fullscreen {
                None
            } else {
                Some(Size { w: 800, h: 600 })
            },
        }
    }

    /// Removes a window that is gone, if it was on the screen.
    pub fn toplevel_destroyed(&mut self, window: Option<WindowId>, dead: &Vec<WindowId>) -> (r: Vec<
        Effect,
    >)
        requires
            old(self).wf(),
            old(self)@.shell.workspaces.len() < u64::MAX,
        ensures
            final(self).wf(),
            match window {
                Some(window) => final(self)@ == old(self)@.destroyed(window, dead@).0 && r@ == old(
                    self,
                )@.destroyed(window, dead@).1,
                None => final(self)@ == old(self)@ && r@ == Seq::<Effect>::empty(),
            },
    {
        let mut effects: Vec<Effect> = Vec::new();
        match window {
            Some(window) => {
                let was_focused = match self.shell.focused_window() {
                    Some(focused) => focused == window,
                    None => false,
                };
                let (commands, outputs) = self.shell.remove_window(window, dead);
                push_commands(&mut effects, &commands);
                push_if(&mut effects, was_focused, Effect::ClearFocus);
                if was_focused {
                    self.needs_focus_refresh = true;
                }
                push_renders(&mut effects, &outputs);
                assert(effects@ =~= old(self)@.destroyed(window, dead@).1);
            },
            None => {},
        }
        effects
    }

    fn set_fullscreen(&mut self, window: Option<WindowId>, fullscreen: bool) -> (r: Vec<Effect>)
        requires
            old(self).wf(),
        ensures
            final(self).wf(),
            final(self)@ == old(self)@.set_fullscreen(window, fullscreen).0,
            r@ == old(self)@.set_fullscreen(window, fullscreen).1,
    {
        let mut effects: Vec<Effect> = Vec::new();
        match window {
            Some(window) => {
                if self.outputs.len() > 0 {
                    let output: u64 = self.outputs[0].id;
                    let commands = self.shell.set_fullscreen(window, fullscreen, output);
                    push_commands(&mut effects, &commands);
                }
            },
            None => {},
        }
        assert(effects@ =~= old(self)@.set_fullscreen(window, fullscreen).1);
        effects
    }

    /// Handles a window's wish to be fullscreen: on the output that it names, or else the one
    /// that shows it, or else the first. `window` is the window, if it is on the screen; one
    /// that is not becomes fullscreen once it is. Nothing happens without an output.
    pub fn fullscreen_request(
        &mut self,
        wanted: Option<u64>,
        shown: Option<u64>,
        window: Option<WindowId>,
    ) -> (r: Vec<Effect>)
        requires
            old(self).wf(),
            old(self)@.fullscreen_output(wanted, shown) matches Some(id) ==> (old(
                self,
            )@.output_place(id) matches Some(k) && old(self)@.outputs[k].mode is Some),
        ensures
            final(self).wf(),
            match old(self)@.fullscreen_output(wanted, shown) {
                Some(id) => {
                    let k = old(self)@.output_place(id).unwrap();
                    let size = old(self)@.outputs[k].requested_size().unwrap();
                    let (next, effects) = old(self)@.set_fullscreen(window, true);
                    final(self)@ == next && r@ == seq![Effect::ConfigureFullscreen(size)] + effects
                },
                None => final(self)@ == old(self)@ && r@ == Seq::<Effect>::empty(),
            },
    {
        let output = match wanted {
            Some(id) => Some(id),
            None => match shown {
                Some(id) => Some(id),
                None => {
                    if self.outputs.len() > 0 {
                        Some(self.outputs[0].id)
                    } else {
                        None
                    }
                },
            },
        };
        let mut effects: Vec<Effect> = Vec::new();
        match output {
            Some(id) => {
                match self.find_output(id) {
                    Some(k) => {
                        match self.outputs[k].requested_size() {
                            Some(size) => {
                                effects.push(Effect::ConfigureFullscreen(size));
                            },
                            None => {},
                        }
                    },
                    None => {},
                }
                let ghost first = effects@;
                let mut more = self.set_fullscreen(window, true);
                let ghost rest = more@;
                effects.append(&mut more);
                assert(effects@ =~= first + rest);
            },
            None => {},
        }
        effects
    }

    /// Handles a window's wish to be fullscreen no more, if it is on the screen.
    pub fn unfullscreen_request(&mut self, window: Option<WindowId>) -> (r: Vec<Effect>)
        requires
            old(self).wf(),
        ensures
            final(self).wf(),
            final(self)@ == old(self)@.set_fullscreen(window, false).0,
            r@ == effect_if(
                window is Some,
                Effect::ConfigureNormal(Size { w: 800, h: 600 }),
            ) + old(self)@.set_fullscreen(window, false).1,
    {
        let mut effects: Vec<Effect> = Vec::new();
        push_if(
            &mut effects,
            window.is_some(),
            Effect::ConfigureNormal(Size { w: 800, h: 600 }),
        );
        let ghost first = effects@;
        let mut more = self.set_fullscreen(window, false);
        let ghost rest = more@;
        effects.append(&mut more);
        assert(effects@ =~= first + rest);
        assert(first =~= effect_if(
            window is Some,
            Effect::ConfigureNormal(Size { w: 800, h: 600 }),
        ));
        effects
    }

    /// Brings the keyboard focus up to date. `focus_alive` is whether somebody has it who is
    /// alive.
    pub fn refresh_focus(&mut self, focus_alive: bool, dead: &Vec<WindowId>) -> (r: Vec<Effect>)
        requires
            old(self).wf(),
            old(self)@.shell.workspaces.len() < u64::MAX,
        ensures
            final(self).wf(),
            final(self)@ == old(self)@.refresh_focus(focus_alive, dead@).0,
            r@ == old(self)@.refresh_focus(focus_alive, dead@).1,
    {
        let mut effects: Vec<Effect> = Vec::new();
        if focus_alive {
            return effects;
        }
        match self.shell.refresh_focus(dead) {
            Some(window) => {
                effects.push(Effect::FocusWindow(window));
                if self.outputs.len() > 0 {
                    effects.push(Effect::Render(self.outputs[0].id));
                }
            },
            None => {
                effects.push(Effect::ClearFocus);
            },
        }
        assert(effects@ =~= old(self)@.refresh_focus(focus_alive, dead@).1);
        effects
    }

    /// The output that a new layer surface goes to: the one that it names, or else the first.
    pub fn new_layer_surface(&self, wanted: Option<u64>) -> (r: Option<u64>)
        ensures
            r == (match wanted {
                Some(id) => Some(id),
                None => self@.first_output(),
            }),
    {
        match wanted {
            Some(id) => Some(id),
            None => {
                if self.outputs.len() > 0 {
                    Some(self.outputs[0].id)
                } else {
                    None
                }
            },
        }
    }

    /// Takes note that a layer surface of an output is gone: all that the output shows has to
    /// be arranged, and the focus brought up to date.
    pub fn layer_destroyed(&mut self, k: usize) -> (r: Vec<Effect>)
        requires
            old(self).wf(),
            k < old(self)@.outputs.len(),
        ensures
            final(self).wf(),
            ({
                let s = old(self)@;
                let output = s.outputs[k as int];
                &&& final(self)@ == (StateView {
                    shell: s.shell.mark_on(output.name),
                    needs_focus_refresh: true,
                    ..s
                })
                &&& r@ == seq![Effect::UnmapLayer(output.id), Effect::Render(output.id)]
            }),
    {
        let mut effects: Vec<Effect> = Vec::new();
        let id: u64 = self.outputs[k].id;
        let name = self.outputs[k].name.as_str();
        self.shell.mark_workspaces_on_output(name);
        self.needs_focus_refresh = true;
        effects.push(Effect::UnmapLayer(id));
        effects.push(Effect::Render(id));
        assert(effects@ =~= seq![Effect::UnmapLayer(id), Effect::Render(id)]);
        effects
    }

    /// The scale that a surface is told to draw at: that of the output that shows it, or else
    /// of the first output, or else one.
    pub fn new_fractional_scale(&self, shown: Option<u64>) -> (r: Scale)
        ensures
            r == (match shown {
                Some(id) => match self@.output_place(id) {
                    Some(k) => self@.outputs[k].scale,
                    None => self@.first_scale(),
                },
                None => self@.first_scale(),
            }),
    {
        let place = match shown {
            Some(id) => self.find_output(id),
            None => None,
        };
        match place {
            Some(k) => self.outputs[k].scale,
            None => {
                if self.outputs.len() > 0 {
                    self.outputs[0].scale
                } else {
                    Scale::identity()
                }
            },
        }
    }
}

/// A window that was announced comes on the screen with its first contents: it is no longer
/// pending, it is focused, and its surface gets the keyboard. The other pending windows go on
/// waiting.
pub proof fn law_announced_then_shown(s: StateView, pending: PendingWindow, c: CommitView)
    requires
        s.pending_place(pending.surface) is None,
        s.outputs.len() > 0,
        c.surface == pending.surface,
        c.has_buffer,
    ensures
        ({
            let announced = StateView { pending: s.pending.push(pending), ..s };
            let (t, effects) = announced.commit(c);
            &&& t.pending == s.pending
            &&& t.shell.focused == Some(pending.window)
            &&& effects.contains(Effect::FocusSurface(c.surface))
            &&& effects.contains(Effect::Render(s.outputs[0].id))
        }),
{
    let announced = StateView { pending: s.pending.push(pending), ..s };
    let p = pending_is(s.pending, c.surface);
    let q = pending_is(announced.pending, c.surface);
    let last = s.pending.len() as int;
    search::lemma_first_below(s.pending.len(), p);
    assert forall|j: int| 0 <= j < last implies !(#[trigger] q(j)) by {
        assert(!p(j));
    }
    assert(q(last));
    search::lemma_is_first_below(announced.pending.len(), q, last);
    let (t, effects) = announced.commit(c);
    assert(t.pending =~= s.pending);
    let n = effects.len();
    assert(effects[n - 3] == Effect::FocusSurface(c.surface));
    assert(effects[n - 1] == Effect::Render(s.outputs[0].id));
}

/// A window that has no contents yet goes on waiting, whatever its surface does.
pub proof fn law_pending_until_contents(s: StateView, c: CommitView)
    requires
        !c.has_buffer,
    ensures
        s.commit(c).0.pending == s.pending,
{
}

/// A window that is gone is in no workspace and has no focus. If it had the focus, the event
/// loop brings the focus up to date.
pub proof fn law_destroyed(s: StateView, window: WindowId, dead: Seq<WindowId>)
    requires
        s.shell.windows_apart(),
    ensures
        ({
            let t = s.destroyed(window, dead).0;
            &&& t.shell.focused != Some(window)
            &&& t.shell.windows_apart()
            &&& forall|i: int|
                0 <= i < t.shell.workspaces.len() ==> !(
                #[trigger] t.shell.workspaces[i]).windows.contains(window)
            &&& s.shell.focused == Some(window) ==> t.needs_focus_refresh
        }),
{
    law_remove_window(s.shell, window, dead);
}

/// A refreshed focus is on a window that is alive, or on none.
pub proof fn law_refreshed_focus_alive(s: StateView, dead: Seq<WindowId>)
    ensures
        s.refresh_focus(false, dead).0.shell.focused matches Some(window) ==> !dead.contains(
            window,
        ),
{
    let history = s.shell.visible_history(s.shell.manager.outputs.len() as int);
    let alive = lists::without_all(history, dead);
    if alive.len() > 0 {
        let window = alive.last();
        assert(alive.contains(window));
        lists::lemma_filter_contains(history, lists::not_among(dead), window);
    }
}

/// A layer surface that shows its next contents is told to go on, and its output is drawn. If the
/// layers have moved, the workspace that the output shows first is marked for arrangement and
/// drawn once more before; a surface that wants the keyboard gets it. No other workspace changes.
pub proof fn law_layer_committed(
    s: StateView,
    k: int,
    surface: u64,
    changed: bool,
    wants_focus: bool,
    j: int,
)
    requires
        0 <= k < s.outputs.len(),
        0 <= j < s.shell.workspaces.len(),
        s.shell.active_on(s.outputs[k].name) matches Some(i) ==> 0 <= i < s.shell.workspaces.len(),
    ensures
        ({
            let (t, effects) = s.layer_commit(k, surface, changed, wants_focus);
            let id = s.outputs[k].id;
            let n = effects.len();
            &&& n >= 2
            &&& effects[n - 1] == Effect::Render(id)
            &&& effects[n - 2] == (Effect::SendFrame { surface, output: id })
            &&& changed ==> effects[0] == Effect::Render(id)
            &&& wants_focus ==> n >= 3 && effects[n - 3] == Effect::FocusSurface(surface)
            &&& n == 2 + (if changed {
                1int
            } else {
                0
            }) + (if wants_focus {
                1int
            } else {
                0
            })
            &&& t.pending == s.pending
            &&& !changed ==> t == s
            &&& changed && s.shell.active_on(s.outputs[k].name) == Some(j)
                ==> t.shell.workspaces[j].needs_arrange && t.shell.workspaces[j].windows
                == s.shell.workspaces[j].windows
            &&& s.shell.active_on(s.outputs[k].name) != Some(j) ==> t.shell.workspaces[j]
                == s.shell.workspaces[j]
        }),
{
}

/// A pending window that has contents goes to the first output, at the pointer's place, and floats
/// if it has a parent. If it wants to be fullscreen it is made so and the output is arranged once
/// more. Then its surface gets the keyboard and is told to go on, and the output is drawn.
pub proof fn law_window_mapped(s: StateView, i: int, c: CommitView)
    requires
        0 <= i < s.pending.len(),
        s.outputs.len() > 0,
    ensures
        ({
            let (t, effects) = s.map_pending(i, c);
            let window = s.pending[i].window;
            let o = s.outputs[0];
            let (added, shown) = s.shell.add_window(window, o, c.has_parent, Some(c.pointer));
            let n = effects.len();
            &&& t.pending == s.pending.remove(i)
            &&& t.outputs == s.outputs
            &&& !c.fullscreen ==> t.shell == added
            &&& c.fullscreen ==> t.shell == added.set_fullscreen(window, true)
            &&& n == shown.len() + 3 + (if c.fullscreen {
                1int
            } else {
                0
            })
            &&& forall|k: int| 0 <= k < shown.len() ==> #[trigger] effects[k] == Effect::Do(shown[k])
            &&& c.fullscreen ==> effects[n - 4] == Effect::Do(Command::Arrange { output: o.id })
            &&& effects[n - 3] == Effect::FocusSurface(c.surface)
            &&& effects[n - 2] == (Effect::SendFrame { surface: c.surface, output: o.id })
            &&& effects[n - 1] == Effect::Render(o.id)
        }),
{
}

/// A surface of a window on the screen that shows its next contents has its output drawn, and is
/// told to go on if it is a window's own; a popup goes by its parent. A window that has changed
/// its geometry has the workspace that the output shows first marked for arrangement.
pub proof fn law_surface_committed(s: StateView, c: CommitView, k: int)
    ensures
        ({
            let (t, effects) = s.surface_commit(c);
            let own = shown_output(c.areas, c.elements, c.owners);
            let parent = match c.parent_owners {
                Some(owners) => shown_output(c.areas, c.elements, owners),
                None => None,
            };
            let output = if own is Some {
                own
            } else {
                parent
            };
            &&& c.output() == output
            &&& output is None ==> effects == seq![Effect::Refresh]
            &&& output matches Some(id) ==> effects.len() >= 2 && effects.last() == Effect::Render(
                id,
            ) && effects[effects.len() - 2] == Effect::Refresh
            &&& output matches Some(id) ==> (c.toplevel_changed is Some ==> effects.len() == 3
                && effects[0] == (Effect::SendFrame { surface: c.surface, output: id }))
            &&& output is Some && c.toplevel_changed is None ==> effects.len() == 2
            &&& c.toplevel_changed != Some(true) ==> t == s
            &&& c.toplevel_changed == Some(true) && output is None ==> t == s
            &&& t.pending == s.pending
            &&& t.shell.focused == s.shell.focused
            &&& c.toplevel_changed == Some(true) && 0 <= k < s.outputs.len() && output == Some(
                s.outputs[k].id,
            ) && (forall|j: int| 0 <= j < k ==> (#[trigger] s.outputs[j]).id != s.outputs[k].id)
                ==> t.shell == mark_active(s.shell, s.outputs[k].name)
        }),
{
    if 0 <= k < s.outputs.len() && (forall|j: int|
        0 <= j < k ==> (#[trigger] s.outputs[j]).id != s.outputs[k].id) {
        let p = output_is(s.outputs, s.outputs[k].id);
        assert(p(k));
        assert forall|j: int| 0 <= j < k implies !(#[trigger] p(j)) by {
            assert(s.outputs[j].id != s.outputs[k].id);
        }
        search::lemma_is_first_below(s.outputs.len(), p, k);
    }
}

/// Marking the workspace that an output shows first changes nothing else.
pub proof fn law_active_marked(s: ShellView, output: Seq<char>, i: int)
    requires
        0 <= i < s.workspaces.len(),
        s.active_on(output) matches Some(k) ==> 0 <= k < s.workspaces.len(),
    ensures
        ({
            let t = mark_active(s, output);
            &&& t.workspaces.len() == s.workspaces.len()
            &&& s.active_on(output) == Some(i) ==> t.workspaces[i] == (WorkspaceView {
                needs_arrange: true,
                ..s.workspaces[i]
            })
            &&& s.active_on(output) != Some(i) ==> t.workspaces[i] == s.workspaces[i]
            &&& t.focused == s.focused
            &&& t.manager == s.manager
        }),
{
}

/// A pending window that has contents while there is no output goes on waiting, behind the others.
/// A surface that no window waits for is treated like any other.
pub proof fn law_commit_without_output(s: StateView, c: CommitView, i: int)
    requires
        s.outputs.len() == 0,
        c.has_buffer,
        0 <= i < s.pending.len(),
        s.pending[i].surface == c.surface,
        forall|j: int| 0 <= j < i ==> (#[trigger] s.pending[j]).surface != c.surface,
    ensures
        s.commit(c).0.pending == s.pending.remove(i).push(s.pending[i]),
{
    let p = pending_is(s.pending, c.surface);
    assert(p(i));
    assert forall|j: int| 0 <= j < i implies !(#[trigger] p(j)) by {
        assert(s.pending[j].surface != c.surface);
    }
    search::lemma_is_first_below(s.pending.len(), p, i);
}

/// What is done when a window is gone: it is hidden, the keyboard is taken if it had it, and the
/// outputs that showed it are drawn, in this order.
pub proof fn law_destroyed_effects(s: StateView, window: WindowId, dead: Seq<WindowId>, k: int)
    ensures
        ({
            let (t, effects) = s.destroyed(window, dead);
            let affected = s.shell.affected_outputs(window);
            let had = s.shell.focused == Some(window);
            let n: int = if had {
                2
            } else {
                1
            };
            &&& effects.len() == n + affected.len()
            &&& effects[0] == Effect::Do(Command::Hide { window })
            &&& had ==> effects[1] == Effect::ClearFocus
            &&& 0 <= k < affected.len() ==> effects[n + k] == Effect::Render(affected[k])
            &&& t.needs_focus_refresh == (s.needs_focus_refresh || had)
            &&& t.pending == s.pending
            &&& t.outputs == s.outputs
        }),
{
}

/// A window is to fill the output that is asked for, or else the one that shows it, or else the
/// first. Making it fullscreen, or no longer so, has the first output arranged; without a window
/// or an output nothing happens.
pub proof fn law_fullscreen_asked(
    s: StateView,
    wanted: Option<u64>,
    shown: Option<u64>,
    window: Option<WindowId>,
    fullscreen: bool,
)
    ensures
        wanted is Some ==> s.fullscreen_output(wanted, shown) == wanted,
        wanted is None && shown is Some ==> s.fullscreen_output(wanted, shown) == shown,
        wanted is None && shown is None && s.outputs.len() > 0 ==> s.fullscreen_output(wanted, shown)
            == Some(s.outputs[0].id),
        wanted is None && shown is None && s.outputs.len() == 0 ==> s.fullscreen_output(
            wanted,
            shown,
        ) is None,
        ({
            let (t, effects) = s.set_fullscreen(window, fullscreen);
            &&& window is Some && s.outputs.len() > 0 ==> t.shell == s.shell.set_fullscreen(
                window.unwrap(),
                fullscreen,
            ) && effects == seq![Effect::Do(Command::Arrange { output: s.outputs[0].id })]
            &&& window is None || s.outputs.len() == 0 ==> t == s && effects.len() == 0
        }),
{
}

/// While who has the keyboard is alive, it stays. Else the window focused last gets it and the
/// first output is drawn, or, if there is no such window, nobody has it.
pub proof fn law_focus_refreshed(s: StateView, dead: Seq<WindowId>)
    ensures
        s.refresh_focus(true, dead) == (s, Seq::<Effect>::empty()),
        ({
            let (t, effects) = s.refresh_focus(false, dead);
            &&& t.shell.focused == s.shell.last_focused(dead)
            &&& t.shell.focused matches Some(window) ==> effects.len() > 0 && effects[0]
                == Effect::FocusWindow(window)
            &&& t.shell.focused is Some && s.outputs.len() > 0 ==> effects.len() == 2 && effects[1]
                == Effect::Render(s.outputs[0].id)
            &&& t.shell.focused is None ==> effects == seq![Effect::ClearFocus]
        }),
{
}

} // verus!
