//! What input means: keys, buttons and scrolling.

pub mod devices;
pub mod events;
pub mod keybindings;
pub mod launch;
pub mod laws;

use vstd::prelude::*;

use crate::input::keybindings::{Action, ActionView};
use crate::shell::laws::{
    law_add_window, law_remove_window, law_switch_keeps_outputs, lemma_find_or_create,
    lemma_switch_moves_nothing, valid, windows_before,
};
use crate::shell::model::{named, workspace_id, Command, ShellView};
use crate::shell::output::{Output, OutputView};
use crate::shell::tiling::WindowId;
use crate::shell::virtual_output::{
    ids_of, lemma_position_of_member, lemma_shown_on_member, lemma_view_position, regions_on,
    shown_on,
};
use crate::shell::workspace::{WorkspaceId, WorkspaceView};
use crate::shell::Shell;
use crate::utils::search::lemma_is_first_below;
use crate::utils::text::decimal;

verus! {

/// What to do with the keyboard focus.
#[derive(Debug, Clone, Copy, PartialEq, Eq, Structural)]
pub enum FocusChange {
    Keep,
    Give(WindowId),
    Clear,
}

/// What else an action asks of the program.
#[derive(Debug, Clone, Copy, PartialEq, Eq, Structural)]
pub enum Request {
    Nothing,
    /// Send the window a close request.
    Close(WindowId),
    /// Widen the master column of the workspace by a step.
    WidenMaster(WorkspaceId),
    /// Narrow the master column of the workspace by a step.
    NarrowMaster(WorkspaceId),
    LaunchTerminal,
    LaunchMenu,
    SwitchTerminal(i32),
    Quit,
}

/// What the program has to do for an action.
#[derive(Debug)]
pub struct Reaction {
    pub commands: Vec<Command>,
    pub focus: FocusChange,
    pub render: Option<u64>,
    pub request: Request,
}

/// What a reaction holds.
#[verifier::ext_equal]
pub struct ReactionView {
    pub commands: Seq<Command>,
    pub focus: FocusChange,
    pub render: Option<u64>,
    pub request: Request,
}

impl View for Reaction {
    type V = ReactionView;

    open spec fn view(&self) -> ReactionView {
        ReactionView {
            commands: self.commands@,
            focus: self.focus,
            render: self.render,
            request: self.request,
        }
    }
}

/// Nothing to do.
pub open spec fn no_reaction() -> ReactionView {
    ReactionView {
        commands: Seq::empty(),
        focus: FocusChange::Keep,
        render: None,
        request: Request::Nothing,
    }
}

/// Gives the focused window the keyboard, if there is one.
pub open spec fn follow_focus(s: ShellView) -> FocusChange {
    match s.focused {
        Some(w) => FocusChange::Give(w),
        None => FocusChange::Keep,
    }
}

/// The shell with the active workspace of an output changed as given, if there is one.
pub open spec fn change_active(s: ShellView, output: Seq<char>, change: spec_fn(WorkspaceView) -> WorkspaceView) -> ShellView {
    match s.active_on(output) {
        Some(i) => s.with_workspace(i, change(s.workspaces[i])),
        None => s,
    }
}

/// The shell after going to the next or the previous tab of the active workspace: the
/// window of that tab is focused.
pub open spec fn turn_tab(s: ShellView, output: Seq<char>, forward: bool) -> ShellView {
    match s.active_on(output) {
        Some(i) => {
            let w = s.workspaces[i];
            if w.has_tabs() {
                let index = if forward {
                    w.next_index()
                } else {
                    w.prev_index()
                };
                s.with_workspace(i, w.choose_tab(index)).set_focus(w.tiled()[index])
            } else {
                s
            }
        },
        None => s,
    }
}

/// The shell after its focused window was moved to the workspace of a name, which the
/// output then shows, and the commands for it.
pub open spec fn carry_window(
    s: ShellView,
    window: WindowId,
    name: Seq<char>,
    output: OutputView,
    has_parent: bool,
    dead: Seq<WindowId>,
) -> (ShellView, Seq<Command>) {
    let s1 = s.remove_window(window, dead);
    let shown = shown_on(s1.manager.outputs, output.name);
    let (s2, switched) = if shown.len() > 0 {
        s1.switch_on_virtual(shown[0].id, name)
    } else {
        (s1, Seq::empty())
    };
    let (s3, added) = s2.add_window(window, output, has_parent, None);
    (s3, seq![Command::Hide { window }] + switched + added)
}

/// What an action does, where there is an output.
pub open spec fn act_on(
    s: ShellView,
    action: ActionView,
    output: OutputView,
    has_parent: bool,
    dead: Seq<WindowId>,
) -> (ShellView, ReactionView) {
    let redraw = ReactionView { render: Some(output.id), ..no_reaction() };
    match action {
        ActionView::FocusNext => {
            let t = s.cycle_focus(true, dead);
            (t, ReactionView { focus: follow_focus(t), ..no_reaction() })
        },
        ActionView::FocusPrev => {
            let t = s.cycle_focus(false, dead);
            (t, ReactionView { focus: follow_focus(t), ..no_reaction() })
        },
        ActionView::Zoom => match s.zoom_target() {
            Some((i, m, k)) => (
                s.with_workspace(i, s.workspaces[i].exchange(m, k)),
                ReactionView { commands: seq![Command::Arrange { output: output.id }], ..redraw },
            ),
            None => (s, redraw),
        },
        ActionView::ToggleFloating => match s.focused {
            Some(w) => (
                s.toggle_floating(w).0,
                ReactionView {
                    commands: s.toggle_floating(w).1.push(Command::Arrange { output: output.id }),
                    ..redraw
                },
            ),
            None => (s, no_reaction()),
        },
        ActionView::Fullscreen => (
            s.toggle_fullscreen(),
            ReactionView {
                commands: if s.focused is Some {
                    seq![Command::Arrange { output: output.id }]
                } else {
                    Seq::empty()
                },
                ..redraw
            },
        ),
        ActionView::IncreaseMasterWidth => (
            change_active(s, output.name, |w: WorkspaceView| WorkspaceView { needs_arrange: true, ..w }),
            ReactionView {
                request: match s.active_on(output.name) {
                    Some(i) => Request::WidenMaster(workspace_id(i)),
                    None => Request::Nothing,
                },
                ..redraw
            },
        ),
        ActionView::DecreaseMasterWidth => (
            change_active(s, output.name, |w: WorkspaceView| WorkspaceView { needs_arrange: true, ..w }),
            ReactionView {
                request: match s.active_on(output.name) {
                    Some(i) => Request::NarrowMaster(workspace_id(i)),
                    None => Request::Nothing,
                },
                ..redraw
            },
        ),
        ActionView::IncreaseMasterCount => (
            change_active(s, output.name, |w: WorkspaceView| w.inc_n_master(1)),
            redraw,
        ),
        ActionView::DecreaseMasterCount => (
            change_active(s, output.name, |w: WorkspaceView| w.inc_n_master(-1i32)),
            redraw,
        ),
        ActionView::ToggleLayoutMode => (
            change_active(s, output.name, |w: WorkspaceView| w.toggle_layout_mode()),
            redraw,
        ),
        ActionView::NextTab => {
            let t = turn_tab(s, output.name, true);
            (t, ReactionView { focus: follow_focus(t), ..redraw })
        },
        ActionView::PrevTab => {
            let t = turn_tab(s, output.name, false);
            (t, ReactionView { focus: follow_focus(t), ..redraw })
        },
        ActionView::SwitchToWorkspace(name) => {
            let shown = shown_on(s.manager.outputs, output.name);
            let (t, commands) = if shown.len() > 0 {
                s.switch_on_virtual(shown[0].id, name)
            } else {
                (s, Seq::empty())
            };
            (
                t,
                ReactionView {
                    commands,
                    focus: match t.focused {
                        Some(w) => FocusChange::Give(w),
                        None => FocusChange::Clear,
                    },
                    ..redraw
                },
            )
        },
        ActionView::MoveToWorkspace(name) => match s.focused {
            Some(w) => {
                let (t, commands) = carry_window(s, w, name, output, has_parent, dead);
                (t, ReactionView { commands, focus: FocusChange::Give(w), ..redraw })
            },
            None => (s, redraw),
        },
        _ => (s, act_alone(s, action)),
    }
}

/// What an action asks for, whether or not there is an output.
pub open spec fn act_alone(s: ShellView, action: ActionView) -> ReactionView {
    match action {
        ActionView::FocusNext => ReactionView { focus: follow_focus(s), ..no_reaction() },
        ActionView::FocusPrev => ReactionView { focus: follow_focus(s), ..no_reaction() },
        ActionView::CloseWindow => ReactionView {
            request: match s.focused {
                Some(w) => Request::Close(w),
                None => Request::Nothing,
            },
            ..no_reaction()
        },
        ActionView::LaunchTerminal => ReactionView {
            request: Request::LaunchTerminal,
            ..no_reaction()
        },
        ActionView::LaunchMenu => ReactionView { request: Request::LaunchMenu, ..no_reaction() },
        ActionView::Quit => ReactionView { request: Request::Quit, ..no_reaction() },
        ActionView::VtSwitch(vt) => ReactionView {
            request: Request::SwitchTerminal(vt),
            ..no_reaction()
        },
        _ => no_reaction(),
    }
}

/// What an action does.
pub open spec fn act(
    s: ShellView,
    action: ActionView,
    output: Option<OutputView>,
    has_parent: bool,
    dead: Seq<WindowId>,
) -> (ShellView, ReactionView) {
    match output {
        Some(o) => act_on(s, action, o, has_parent, dead),
        None => (s, act_alone(s, action)),
    }
}

/// Room to carry a window to a workspace: for workspaces and, if the output has no virtual
/// output yet, for that.
pub open spec fn can_carry(s: ShellView, output: OutputView) -> bool {
    &&& s.workspaces.len() + 4 < u64::MAX
    &&& shown_on(s.manager.outputs, output.name).len() == 0 ==> output.mode is Some
        && s.manager.next_id < u32::MAX
}

/// Room that an action may need: for workspaces and, if it carries a window, for that.
pub open spec fn can_act(s: ShellView, action: ActionView, output: OutputView) -> bool {
    &&& s.workspaces.len() + 4 < u64::MAX
    &&& action is MoveToWorkspace && s.focused is Some ==> can_carry(s, output)
}

/// Whether there is the room that an action may need.
pub fn has_room_to_act(shell: &Shell, action: &Action, output: &Output) -> (r: bool)
    requires
        shell.wf(),
    ensures
        r == can_act(shell@, action@, output@),
{
    let count: u64 = shell.workspaces().len() as u64;
    assert(count == shell@.workspaces.len());
    if count >= u64::MAX - 4 {
        return false;
    }
    let carries = match action {
        Action::MoveToWorkspace(_) => shell.focused_window().is_some(),
        _ => false,
    };
    !carries || shell.has_room_on(output, 4)
}

fn reaction(commands: Vec<Command>, focus: FocusChange, render: Option<u64>, request: Request) -> (r: Reaction)
    ensures
        r@ == (ReactionView { commands: commands@, focus, render, request }),
{
    Reaction { commands, focus, render, request }
}

fn follow(shell: &Shell) -> (r: FocusChange)
    ensures
        r == follow_focus(shell@),
{
    match shell.focused_window() {
        Some(w) => FocusChange::Give(w),
        None => FocusChange::Keep,
    }
}

/// Carries out an action without an output.
fn handle_alone(shell: &Shell, action: &Action) -> (r: Reaction)
    ensures
        r@ == act_alone(shell@, action@),
{
    let none: Vec<Command> = Vec::new();
    assert(none@ =~= Seq::<Command>::empty());
    match action {
        Action::FocusNext => reaction(none, follow(shell), None, Request::Nothing),
        Action::FocusPrev => reaction(none, follow(shell), None, Request::Nothing),
        Action::CloseWindow => {
            let request = match shell.close_focused() {
                Some(w) => Request::Close(w),
                None => Request::Nothing,
            };
            reaction(none, FocusChange::Keep, None, request)
        },
        Action::LaunchTerminal => reaction(none, FocusChange::Keep, None, Request::LaunchTerminal),
        Action::LaunchMenu => reaction(none, FocusChange::Keep, None, Request::LaunchMenu),
        Action::Quit => reaction(none, FocusChange::Keep, None, Request::Quit),
        Action::VtSwitch(vt) => reaction(
            none,
            FocusChange::Keep,
            None,
            Request::SwitchTerminal(*vt),
        ),
        _ => reaction(none, FocusChange::Keep, None, Request::Nothing),
    }
}

/// Marks the active workspace of an output for arrangement and gives its identifier.
fn mark_active(shell: &mut Shell, output: &str) -> (r: Option<WorkspaceId>)
    requires
        old(shell).wf(),
        old(shell)@.workspaces.len() < u64::MAX,
    ensures
        final(shell).wf(),
        final(shell)@ == change_active(
            old(shell)@,
            output@,
            |w: WorkspaceView| WorkspaceView { needs_arrange: true, ..w },
        ),
        r == (match old(shell)@.active_on(output@) {
            Some(i) => Some(workspace_id(i)),
            None => None,
        }),
{
    let id = match shell.find_active(output) {
        Some(i) => Some(WorkspaceId(i as u64 + 1)),
        None => None,
    };
    match shell.active_workspace_mut(output) {
        Some(w) => {
            w.set_needs_arrange(true);
        },
        None => {},
    }
    id
}

/// Goes to the next or the previous tab of the active workspace.
fn switch_tab(shell: &mut Shell, output: &str, forward: bool)
    requires
        old(shell).wf(),
        old(shell)@.workspaces.len() < u64::MAX,
    ensures
        final(shell).wf(),
        final(shell)@ == turn_tab(old(shell)@, output@, forward),
{
    let ghost s = shell@;
    let ghost i = shell@.active_on(output@);
    let window = match shell.active_workspace_mut(output) {
        Some(w) => if forward {
            w.next_tab()
        } else {
            w.prev_tab()
        },
        None => None,
    };
    proof {
        match i {
            Some(i) => {
                let w = s.workspaces[i];
                if w.has_tabs() {
                    let n = w.tiled().len() as int;
                    assert(0 <= (w.active_tab + 1) % n < n) by (nonlinear_arith)
                        requires
                            n > 0,
                    ;
                } else {
                    assert(s.workspaces.update(i, w) =~= s.workspaces);
                }
            },
            None => {},
        }
    }
    match window {
        Some(window) => {
            shell.set_focus(window);
        },
        None => {},
    }
}

/// Carries out an action on the layout of the active workspace.
fn handle_layout(
    shell: &mut Shell,
    action: &Action,
    output: &Output,
    has_parent: bool,
    dead: &Vec<WindowId>,
) -> (r: Reaction)
    requires
        old(shell).wf(),
        can_act(old(shell)@, action@, output@),
        action@ is IncreaseMasterWidth || action@ is DecreaseMasterWidth
            || action@ is IncreaseMasterCount || action@ is DecreaseMasterCount
            || action@ is ToggleLayoutMode || action@ is NextTab || action@ is PrevTab,
    ensures
        final(shell).wf(),
        final(shell)@ == act_on(old(shell)@, action@, output@, has_parent, dead@).0,
        r@ == act_on(old(shell)@, action@, output@, has_parent, dead@).1,
{
    let name = output.name.as_str();
    let render = Some(output.id);
    let none: Vec<Command> = Vec::new();
    assert(none@ =~= Seq::<Command>::empty());
    match action {
        Action::IncreaseMasterWidth => {
            let request = match mark_active(shell, name) {
                Some(id) => Request::WidenMaster(id),
                None => Request::Nothing,
            };
            reaction(none, FocusChange::Keep, render, request)
        },
        Action::DecreaseMasterWidth => {
            let request = match mark_active(shell, name) {
                Some(id) => Request::NarrowMaster(id),
                None => Request::Nothing,
            };
            reaction(none, FocusChange::Keep, render, request)
        },
        Action::IncreaseMasterCount => {
            match shell.active_workspace_mut(name) {
                Some(w) => {
                    w.inc_n_master(1);
                },
                None => {},
            }
            reaction(none, FocusChange::Keep, render, Request::Nothing)
        },
        Action::DecreaseMasterCount => {
            match shell.active_workspace_mut(name) {
                Some(w) => {
                    w.inc_n_master(-1);
                },
                None => {},
            }
            reaction(none, FocusChange::Keep, render, Request::Nothing)
        },
        Action::ToggleLayoutMode => {
            match shell.active_workspace_mut(name) {
                Some(w) => {
                    w.toggle_layout_mode();
                },
                None => {},
            }
            reaction(none, FocusChange::Keep, render, Request::Nothing)
        },
        Action::NextTab => {
            switch_tab(shell, name, true);
            reaction(none, follow(shell), render, Request::Nothing)
        },
        Action::PrevTab => {
            switch_tab(shell, name, false);
            reaction(none, follow(shell), render, Request::Nothing)
        },
        _ => reaction(none, FocusChange::Keep, None, Request::Nothing),
    }
}

/// Carries out an action that changes the workspace that is shown.
#[verifier::rlimit(40)]
fn handle_workspace(
    shell: &mut Shell,
    action: &Action,
    output: &Output,
    has_parent: bool,
    dead: &Vec<WindowId>,
) -> (r: Reaction)
    requires
        old(shell).wf(),
        can_act(old(shell)@, action@, output@),
        action@ is SwitchToWorkspace || action@ is MoveToWorkspace,
    ensures
        final(shell).wf(),
        final(shell)@ == act_on(old(shell)@, action@, output@, has_parent, dead@).0,
        r@ == act_on(old(shell)@, action@, output@, has_parent, dead@).1,
{
    let name = output.name.as_str();
    let render = Some(output.id);
    let none: Vec<Command> = Vec::new();
    assert(none@ =~= Seq::<Command>::empty());
    match action {
        Action::SwitchToWorkspace(workspace) => {
            let commands = shell.switch_to_workspace(name, workspace.as_str());
            let focus = match shell.focused_window() {
                Some(w) => FocusChange::Give(w),
                None => FocusChange::Clear,
            };
            reaction(commands, focus, render, Request::Nothing)
        },
        Action::MoveToWorkspace(workspace) => match shell.focused_window() {
            Some(w) => {
                let commands = carry(shell, w, workspace.as_str(), output, has_parent, dead);
                reaction(commands, FocusChange::Give(w), render, Request::Nothing)
            },
            None => reaction(none, FocusChange::Keep, render, Request::Nothing),
        },
        _ => reaction(none, FocusChange::Keep, None, Request::Nothing),
    }
}

/// Carries out an action. `output` is the first output, `has_parent` says whether the
/// focused window has a parent, and `dead` lists windows that are no longer alive.
pub fn handle_action(
    shell: &mut Shell,
    action: &Action,
    output: Option<&Output>,
    has_parent: bool,
    dead: &Vec<WindowId>,
) -> (r: Reaction)
    requires
        old(shell).wf(),
        output matches Some(o) ==> can_act(old(shell)@, action@, o@),
    ensures
        final(shell).wf(),
        ({
            let (t, reaction) = act(
                old(shell)@,
                action@,
                match output {
                    Some(o) => Some(o@),
                    None => None,
                },
                has_parent,
                dead@,
            );
            final(shell)@ == t && r@ == reaction
        }),
{
    let output = match output {
        Some(o) => o,
        None => {
            return handle_alone(shell, action);
        },
    };
    let name = output.name.as_str();
    let render = Some(output.id);
    let none: Vec<Command> = Vec::new();
    assert(none@ =~= Seq::<Command>::empty());
    match action {
        Action::FocusNext => {
            shell.focus_next(dead);
            reaction(none, follow(shell), None, Request::Nothing)
        },
        Action::FocusPrev => {
            shell.focus_prev(dead);
            reaction(none, follow(shell), None, Request::Nothing)
        },
        Action::Zoom => {
            let commands = shell.zoom(output.id);
            reaction(commands, FocusChange::Keep, render, Request::Nothing)
        },
        Action::ToggleFloating => match shell.focused_window() {
            Some(w) => {
                let commands = shell.toggle_floating(w, output.id);
                reaction(commands, FocusChange::Keep, render, Request::Nothing)
            },
            None => reaction(none, FocusChange::Keep, None, Request::Nothing),
        },
        Action::Fullscreen => {
            let commands = shell.toggle_fullscreen(output.id);
            reaction(commands, FocusChange::Keep, render, Request::Nothing)
        },
        Action::IncreaseMasterWidth => handle_layout(shell, action, output, has_parent, dead),
        Action::DecreaseMasterWidth => handle_layout(shell, action, output, has_parent, dead),
        Action::IncreaseMasterCount => handle_layout(shell, action, output, has_parent, dead),
        Action::DecreaseMasterCount => handle_layout(shell, action, output, has_parent, dead),
        Action::ToggleLayoutMode => handle_layout(shell, action, output, has_parent, dead),
        Action::NextTab => handle_layout(shell, action, output, has_parent, dead),
        Action::PrevTab => handle_layout(shell, action, output, has_parent, dead),
        Action::SwitchToWorkspace(_) => handle_workspace(shell, action, output, has_parent, dead),
        Action::MoveToWorkspace(_) => handle_workspace(shell, action, output, has_parent, dead),
        _ => handle_alone(shell, action),
    }
}

/// Moves the window to the workspace of a name and shows that workspace.
fn carry(
    shell: &mut Shell,
    window: WindowId,
    name: &str,
    output: &Output,
    has_parent: bool,
    dead: &Vec<WindowId>,
) -> (r: Vec<Command>)
    requires
        old(shell).wf(),
        can_carry(old(shell)@, output@),
    ensures
        final(shell).wf(),
        final(shell)@ == carry_window(old(shell)@, window, name@, output@, has_parent, dead@).0,
        r@ == carry_window(old(shell)@, window, name@, output@, has_parent, dead@).1,
{
    let (mut commands, _) = shell.remove_window(window, dead);
    let ghost s1 = shell@;
    let mut switched = shell.switch_to_workspace(output.name.as_str(), name);
    let ghost s2 = shell@;
    proof {
        let before = shown_on(s1.manager.outputs, output@.name);
        if before.len() > 0 {
            law_switch_keeps_outputs(s1, before[0].id, name@, output@.name);
            assert(ids_of(shown_on(s2.manager.outputs, output@.name)).len() == before.len());
        }
    }
    let mut added = shell.add_window(window, output, has_parent, None);
    let ghost hidden = commands@;
    let ghost switch_commands = switched@;
    let ghost add_commands = added@;
    commands.append(&mut switched);
    commands.append(&mut added);
    assert(commands@ =~= hidden + switch_commands + add_commands);
    commands
}

/// A window that was added to one workspace of a shell, which held it nowhere, is in the
/// workspace of that name and in no other.
proof fn lemma_added_to(
    s: ShellView,
    t: ShellView,
    window: WindowId,
    index: int,
    target: Seq<char>,
)
    requires
        t.names_distinct(),
        0 <= index < t.workspaces.len(),
        t.workspaces[index].name == target,
        forall|i: int|
            0 <= i < t.workspaces.len() ==> ((
            #[trigger] t.workspaces[i]).windows.contains(window) <==> i == index),
        forall|i: int|
            0 <= i < t.workspaces.len() && i != index ==> (#[trigger] t.workspaces[i]).windows
                == windows_before(s, i),
        t.workspaces[index].windows == windows_before(s, index).push(window),
    ensures
        t.workspace_named(target) == Some(index),
        forall|i: int|
            0 <= i < t.workspaces.len() ==> ((
            #[trigger] t.workspaces[i]).windows.contains(window) <==> t.workspaces[i].name
                == target),
        forall|i: int, w: WindowId|
            0 <= i < t.workspaces.len() && w != window ==> (
            #[trigger] t.workspaces[i].windows.contains(w) <==> windows_before(s, i).contains(w)),
{
    let p = named(t.workspaces, target);
    assert forall|i: int| 0 <= i < t.workspaces.len() && i != index implies (
    #[trigger] t.workspaces[i]).name != target by {
        if i < index {
            assert(t.workspaces[i].name != t.workspaces[index].name);
        } else {
            assert(t.workspaces[index].name != t.workspaces[i].name);
        }
    }
    assert forall|j: int| 0 <= j < index implies !(#[trigger] p(j)) by {
        assert(t.workspaces[j].name != target);
    }
    lemma_is_first_below(t.workspaces.len(), p, index);
    let a = windows_before(s, index);
    assert forall|w: WindowId| w != window implies (#[trigger] a.push(window).contains(w)
        <==> a.contains(w)) by {
        if a.push(window).contains(w) {
            let k = choose|k: int| 0 <= k < a.push(window).len() && a.push(window)[k] == w;
            assert(a[k] == w);
        }
        if a.contains(w) {
            let k = choose|k: int| 0 <= k < a.len() && a[k] == w;
            assert(a.push(window)[k] == w);
        }
    }
}

/// Moving the focused window to a workspace by key puts it there and takes it from wherever it
/// was: afterwards the workspace of the name holds it and no other does, the output shows that
/// workspace, and the window is focused. Other windows stay where they are. Where the output has
/// no virtual output to switch, the workspace is that of the name "1".
#[verifier::rlimit(60)]
#[verifier::spinoff_prover]
pub proof fn law_carry_window(
    s: ShellView,
    window: WindowId,
    name: Seq<char>,
    output: OutputView,
    has_parent: bool,
    dead: Seq<WindowId>,
)
    requires
        valid(s),
        can_carry(s, output),
        forall|j: int|
            0 <= j < s.manager.outputs.len() ==> (#[trigger] s.manager.outputs[j]).id.0
                < s.manager.next_id,
    ensures
        ({
            let t = carry_window(s, window, name, output, has_parent, dead).0;
            let target = if shown_on(s.manager.outputs, output.name).len() > 0 {
                name
            } else {
                decimal(1)
            };
            &&& t.focused == Some(window)
            &&& t.workspace_named(target) is Some
            &&& t.active_on(output.name) == t.workspace_named(target)
            &&& s.windows_apart() ==> t.windows_apart()
            &&& s.workspaces.len() <= t.workspaces.len()
            &&& forall|i: int|
                0 <= i < t.workspaces.len() ==> ((
                #[trigger] t.workspaces[i]).windows.contains(window) <==> t.workspaces[i].name
                    == target)
            &&& forall|i: int, w: WindowId|
                0 <= i < t.workspaces.len() && w != window ==> (
                #[trigger] t.workspaces[i].windows.contains(w) <==> windows_before(s, i).contains(
                    w,
                ))
        }),
{
    let s1 = s.remove_window(window, dead);
    law_remove_window(s, window, dead);
    assert(s1.manager == s.manager);
    assert forall|i: int, j: int| 0 <= i < j < s1.workspaces.len() implies (
    #[trigger] s1.workspaces[i]).name != (#[trigger] s1.workspaces[j]).name by {
        assert(s.workspaces[i].name != s.workspaces[j].name);
    }
    assert(s1.actives_valid()) by {
        assert forall|j: int| 0 <= j < s1.manager.outputs.len() implies ((
        #[trigger] s1.manager.outputs[j]).active matches Some(ws) ==> 1 <= ws.0
            <= s1.workspaces.len()) by {
            assert(s.manager.outputs[j].active matches Some(ws) ==> 1 <= ws.0
                <= s.workspaces.len());
        }
    }
    let shown = shown_on(s1.manager.outputs, output.name);
    let t = carry_window(s, window, name, output, has_parent, dead).0;
    if shown.len() > 0 {
        let id = shown[0].id;
        lemma_shown_on_member(s1.manager.outputs, output.name, 0);
        lemma_view_position(s1.manager.outputs, id);
        lemma_switch_moves_nothing(s1, id, name);
        law_switch_keeps_outputs(s1, id, name, output.name);
        let s2 = s1.switch_on_virtual(id, name).0;
        let index = s1.find_or_create(name).1;
        let now = shown_on(s2.manager.outputs, output.name);
        assert(ids_of(now).len() == ids_of(shown).len());
        assert(ids_of(now)[0] == ids_of(shown)[0]);
        assert(now[0].id == id);
        lemma_shown_on_member(s2.manager.outputs, output.name, 0);
        let k = choose|k: int|
            0 <= k < s2.manager.outputs.len() && #[trigger] s2.manager.outputs[k] == now[0];
        lemma_position_of_member(s2.manager.outputs, k);
        assert(now[0].active == Some(workspace_id(index)));
        assert(s2.ensure_virtual_output(output, None) == (s2, id));
        assert(s2.ensure_workspace(id) == (s2, index));
        assert forall|i: int| 0 <= i < s2.workspaces.len() implies !(
        #[trigger] s2.workspaces[i]).windows.contains(window) by {
            assert(s2.workspaces[i].windows == windows_before(s1, i));
        }
        if s.windows_apart() {
            assert forall|i: int, j: int, w: WindowId|
                #![trigger s2.workspaces[i].windows.contains(w), s2.workspaces[j]]
                0 <= i < s2.workspaces.len() && 0 <= j < s2.workspaces.len() && i != j
                    && s2.workspaces[i].windows.contains(
                    w,
                ) implies !s2.workspaces[j].windows.contains(w) by {
                if i < s1.workspaces.len() && j < s1.workspaces.len() {
                    assert(s1.workspaces[i].windows.contains(w));
                    assert(!s1.workspaces[j].windows.contains(w));
                }
            }
        }
        law_add_window(s2, window, output, has_parent, None);
        lemma_added_to(s2, t, window, index, name);
        assert forall|i: int| 0 <= i < t.workspaces.len() implies (
        #[trigger] windows_before(s2, i)) == windows_before(s1, i) by {}
    } else {
        law_add_window(s1, window, output, has_parent, None);
        let (a, id) = s1.ensure_virtual_output(output, None);
        let (b, index) = a.ensure_workspace(id);
        let outs = a.manager.outputs;
        let last = s1.manager.outputs.len() as int;
        lemma_view_position(outs, id);
        assert(outs[last].id == id);
        assert(outs[last].active is None);
        assert forall|j: int| 0 <= j < last implies (#[trigger] outs[j]).id != id by {
            assert(s.manager.outputs[j].id.0 < s.manager.next_id);
        }
        lemma_find_or_create(a, decimal(1));
        assert(b.workspaces[index].name == decimal(1));
        lemma_added_to(s1, t, window, index, decimal(1));
        let now = b.manager.outputs;
        assert(now.drop_last() =~= s1.manager.outputs);
        assert(regions_on(now.last().regions, output.name) == 1) by {
            assert(now.last().regions.drop_last() =~= Seq::empty());
            reveal_with_fuel(regions_on, 2);
        }
    }
    assert forall|i: int, w: WindowId|
        0 <= i < t.workspaces.len() && w != window implies (
    #[trigger] t.workspaces[i].windows.contains(w) <==> windows_before(s, i).contains(w)) by {
        assert(windows_before(s1, i).contains(w) <==> windows_before(s, i).contains(w)) by {
            if i < s1.workspaces.len() {
                assert(s1.workspaces[i].windows.contains(w) <==> s.workspaces[i].windows.contains(
                    w,
                ));
            }
        }
    }
}

} // verus!
