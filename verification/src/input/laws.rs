//! What holds of actions and of input events.

use vstd::prelude::*;

use crate::input::events::{process, AxisAmount, AxisSource, InputEvent, OutcomeView};
use crate::input::keybindings::{bound_action, ActionView, BindingView, Modifiers};
use crate::input::{act, FocusChange, Request};
use crate::shell::hit::{covers_point, shows_point, surface_at, Element, OutputArea};
use crate::shell::model::{Command, ShellView};
use crate::shell::output::OutputView;
use crate::shell::tiling::WindowId;
use crate::shell::virtual_output::shown_on;
use crate::shell::workspace::WorkspaceId;
use crate::utils::geometry::Point;
use crate::utils::search::{lemma_is_first_below, lemma_none_below};

verus! {

/// What some actions ask of the program, with or without an output, and without changing
/// anything: closing asks the focused window to close, and the launchers, terminals and leaving
/// ask for just that.
pub proof fn law_requests(
    s: ShellView,
    action: ActionView,
    output: Option<OutputView>,
    has_parent: bool,
    dead: Seq<WindowId>,
)
    requires
        action is CloseWindow || action is Quit || action is LaunchTerminal || action is LaunchMenu
            || action is VtSwitch,
    ensures
        ({
            let (t, r) = act(s, action, output, has_parent, dead);
            &&& t == s
            &&& r.commands.len() == 0
            &&& r.focus == FocusChange::Keep
            &&& r.render is None
            &&& action is CloseWindow ==> r.request == (match s.focused {
                Some(w) => Request::Close(w),
                None => Request::Nothing,
            })
            &&& action is Quit ==> r.request == Request::Quit
            &&& action is LaunchTerminal ==> r.request == Request::LaunchTerminal
            &&& action is LaunchMenu ==> r.request == Request::LaunchMenu
            &&& action matches ActionView::VtSwitch(vt) ==> r.request == Request::SwitchTerminal(vt)
        }),
{
}

/// Other actions ask the program for nothing, but for the width of the master column.
#[verifier::rlimit(60)]
#[verifier::spinoff_prover]
pub proof fn law_no_other_requests(
    s: ShellView,
    action: ActionView,
    output: Option<OutputView>,
    has_parent: bool,
    dead: Seq<WindowId>,
)
    requires
        !(action is CloseWindow || action is Quit || action is LaunchTerminal
            || action is LaunchMenu || action is VtSwitch || action is IncreaseMasterWidth
            || action is DecreaseMasterWidth),
    ensures
        act(s, action, output, has_parent, dead).1.request == Request::Nothing,
{
}

/// Without an output no action changes anything.
pub proof fn law_no_output_no_change(
    s: ShellView,
    action: ActionView,
    has_parent: bool,
    dead: Seq<WindowId>,
)
    ensures
        act(s, action, None, has_parent, dead).0 == s,
        act(s, action, None, has_parent, dead).1.commands.len() == 0,
        act(s, action, None, has_parent, dead).1.render is None,
{
}

/// Focusing the next window moves the focus on, focusing the previous one moves it back, and the
/// keyboard follows.
pub proof fn law_focus_actions(
    s: ShellView,
    output: OutputView,
    has_parent: bool,
    dead: Seq<WindowId>,
)
    ensures
        ({
            let (t, r) = act(s, ActionView::FocusNext, Some(output), has_parent, dead);
            &&& t == s.cycle_focus(true, dead)
            &&& t.focused matches Some(w) ==> r.focus == FocusChange::Give(w)
            &&& t.focused is None ==> r.focus == FocusChange::Keep
        }),
        ({
            let (t, r) = act(s, ActionView::FocusPrev, Some(output), has_parent, dead);
            &&& t == s.cycle_focus(false, dead)
            &&& t.focused matches Some(w) ==> r.focus == FocusChange::Give(w)
            &&& t.focused is None ==> r.focus == FocusChange::Keep
        }),
{
}

/// The actions on the layout change the workspace that the output shows first, and no other: one
/// master window more, or one less but not below none; the other layout; a mark for arrangement
/// and a request for a wider or a narrower master column of this workspace. The output is drawn.
pub proof fn law_layout_actions(
    s: ShellView,
    action: ActionView,
    output: OutputView,
    has_parent: bool,
    dead: Seq<WindowId>,
    ws: WorkspaceId,
)
    requires
        action is IncreaseMasterCount || action is DecreaseMasterCount
            || action is ToggleLayoutMode || action is IncreaseMasterWidth
            || action is DecreaseMasterWidth,
        shown_on(s.manager.outputs, output.name).len() > 0,
        shown_on(s.manager.outputs, output.name)[0].active == Some(ws),
        1 <= ws.0 <= s.workspaces.len(),
        s.workspaces[ws.0 - 1].master_count < usize::MAX,
    ensures
        ({
            let (t, r) = act(s, action, Some(output), has_parent, dead);
            let i = ws.0 - 1;
            let old = s.workspaces[i];
            let new = t.workspaces[i];
            &&& r.render == Some(output.id)
            &&& r.commands.len() == 0
            &&& t.focused == s.focused
            &&& t.manager == s.manager
            &&& t.workspaces.len() == s.workspaces.len()
            &&& forall|j: int|
                0 <= j < s.workspaces.len() && j != i ==> #[trigger] t.workspaces[j]
                    == s.workspaces[j]
            &&& new.windows == old.windows
            &&& new.needs_arrange
            &&& action is IncreaseMasterCount ==> new.master_count == old.master_count + 1
            &&& action is DecreaseMasterCount && old.master_count > 0 ==> new.master_count
                == old.master_count - 1
            &&& action is DecreaseMasterCount && old.master_count == 0 ==> new.master_count == 0
            &&& action is ToggleLayoutMode ==> new.layout_mode != old.layout_mode
            &&& !(action is ToggleLayoutMode) ==> new.layout_mode == old.layout_mode
            &&& action is IncreaseMasterWidth ==> r.request == Request::WidenMaster(ws)
            &&& action is DecreaseMasterWidth ==> r.request == Request::NarrowMaster(ws)
        }),
{
}

/// Showing a workspace by key switches the first virtual output of the output, draws the output,
/// and gives the keyboard to whoever is focused, or to nobody. Without a virtual output nothing
/// changes.
pub proof fn law_switch_action(
    s: ShellView,
    name: Seq<char>,
    output: OutputView,
    has_parent: bool,
    dead: Seq<WindowId>,
)
    ensures
        ({
            let (t, r) = act(
                s,
                ActionView::SwitchToWorkspace(name),
                Some(output),
                has_parent,
                dead,
            );
            let shown = shown_on(s.manager.outputs, output.name);
            &&& shown.len() > 0 ==> (t, r.commands) == s.switch_on_virtual(shown[0].id, name)
            &&& shown.len() == 0 ==> t == s && r.commands.len() == 0
            &&& r.render == Some(output.id)
            &&& t.focused matches Some(w) ==> r.focus == FocusChange::Give(w)
            &&& t.focused is None ==> r.focus == FocusChange::Clear
        }),
{
}

/// The actions on the focused window: floating and fullscreen are toggled, and the output is
/// arranged and drawn. Without a focused window nothing is arranged.
pub proof fn law_window_actions(
    s: ShellView,
    output: OutputView,
    has_parent: bool,
    dead: Seq<WindowId>,
)
    ensures
        ({
            let (t, r) = act(s, ActionView::ToggleFloating, Some(output), has_parent, dead);
            &&& s.focused matches Some(w) ==> t == s.toggle_floating(w).0 && r.commands.len() > 0
                && r.commands.last() == (Command::Arrange { output: output.id }) && r.render
                == Some(output.id)
            &&& s.focused is None ==> t == s && r.commands.len() == 0
        }),
        ({
            let (t, r) = act(s, ActionView::Fullscreen, Some(output), has_parent, dead);
            &&& t == s.toggle_fullscreen()
            &&& r.render == Some(output.id)
            &&& s.focused is Some ==> r.commands == seq![Command::Arrange { output: output.id }]
            &&& s.focused is None ==> r.commands.len() == 0
        }),
        ({
            let (t, r) = act(s, ActionView::Zoom, Some(output), has_parent, dead);
            &&& r.render == Some(output.id)
            &&& s.zoom_target() is Some ==> r.commands == seq![
                Command::Arrange { output: output.id },
            ]
            &&& s.zoom_target() is None ==> t == s && r.commands.len() == 0
        }),
{
}

/// Going to the next or the previous tab focuses the window of that tab in the workspace that the
/// output shows first, if that has tabs; the keyboard follows and the output is drawn.
pub proof fn law_tab_actions(
    s: ShellView,
    forward: bool,
    output: OutputView,
    has_parent: bool,
    dead: Seq<WindowId>,
    ws: WorkspaceId,
)
    requires
        shown_on(s.manager.outputs, output.name).len() > 0,
        shown_on(s.manager.outputs, output.name)[0].active == Some(ws),
        1 <= ws.0 <= s.workspaces.len(),
        s.workspaces[ws.0 - 1].consistent(),
    ensures
        ({
            let action = if forward {
                ActionView::NextTab
            } else {
                ActionView::PrevTab
            };
            let (t, r) = act(s, action, Some(output), has_parent, dead);
            let w = s.workspaces[ws.0 - 1];
            let n = w.tiled().len();
            let a = w.active_tab;
            &&& r.render == Some(output.id)
            &&& w.has_tabs() && forward && a + 1 < n ==> t.focused == Some(w.tiled()[a + 1])
            &&& w.has_tabs() && forward && a + 1 == n ==> t.focused == Some(w.tiled()[0])
            &&& w.has_tabs() && !forward && a > 0 ==> t.focused == Some(w.tiled()[a - 1])
            &&& w.has_tabs() && !forward && a == 0 ==> t.focused == Some(w.tiled()[n - 1])
            &&& !w.has_tabs() ==> t == s
            &&& t.focused matches Some(x) ==> r.focus == FocusChange::Give(x)
        }),
{
    let w = s.workspaces[ws.0 - 1];
    let n = w.tiled().len() as int;
    let a = w.active_tab;
    if w.has_tabs() {
        if a + 1 < n {
            assert((a + 1) % n == a + 1) by (nonlinear_arith)
                requires
                    0 <= a + 1 < n,
            ;
        } else {
            assert((a + 1) % n == 0) by (nonlinear_arith)
                requires
                    a + 1 == n,
                    n > 0,
            ;
        }
    }
}

/// A key that is pressed and has an action is kept from clients; any other is passed on. The key
/// that counts is the Latin one without shift, where there is one, else the one that was typed.
pub proof fn law_key_event(
    s: ShellView,
    keybindings: Seq<BindingView>,
    modifiers: Modifiers,
    raw_latin: Option<u32>,
    typed: u32,
    pressed: bool,
    elements: Seq<Element>,
    outputs: Seq<OutputArea>,
)
    ensures
        ({
            let event = InputEvent::Key { modifiers, raw_latin, typed, pressed };
            let (t, outcome) = process(s, keybindings, event, elements, outputs);
            let key = if raw_latin is Some {
                raw_latin.unwrap()
            } else {
                typed
            };
            &&& t == s
            &&& pressed ==> (bound_action(keybindings, modifiers, key) matches Some(action)
                ==> outcome == OutcomeView::Act(action))
            &&& bound_action(keybindings, modifiers, key) is None ==> outcome
                == OutcomeView::Forward
            &&& !pressed ==> outcome == OutcomeView::Forward
        }),
{
}

/// Whether a window covers a point with its decorations.
pub open spec fn lies_on(e: Element, p: Point) -> bool {
    let x = (if e.location is Some {
        e.location.unwrap().0.x as int
    } else {
        0
    }) + e.bbox.loc.x;
    let y = (if e.location is Some {
        e.location.unwrap().0.y as int
    } else {
        0
    }) + e.bbox.loc.y;
    0 <= p.x - x < e.bbox.size.w && 0 <= p.y - y < e.bbox.size.h
}

/// A button that goes down focuses the first window listed that covers the point, and the
/// keyboard follows. A button that goes up, or down where no window is, changes nothing.
pub proof fn law_button_event(
    s: ShellView,
    keybindings: Seq<BindingView>,
    point: Point,
    pressed: bool,
    elements: Seq<Element>,
    outputs: Seq<OutputArea>,
    i: int,
)
    requires
        forall|j: int|
            0 <= j < elements.len() ==> (#[trigger] elements[j]).global_bbox().regular()
                && elements[j].spec_location().plus_fits(elements[j].bbox.loc),
    ensures
        ({
            let event = InputEvent::Button { point, pressed };
            let (t, outcome) = process(s, keybindings, event, elements, outputs);
            &&& !pressed ==> t == s && outcome == OutcomeView::Click(FocusChange::Keep)
            &&& pressed && 0 <= i < elements.len() && lies_on(elements[i], point) && (forall|j: int|
                0 <= j < i ==> !lies_on(#[trigger] elements[j], point)) ==> t == s.set_focus(
                elements[i].window,
            ) && outcome == OutcomeView::Click(FocusChange::Give(elements[i].window))
            &&& pressed && (forall|j: int|
                0 <= j < elements.len() ==> !lies_on(#[trigger] elements[j], point)) ==> t == s
                && outcome == OutcomeView::Click(FocusChange::Keep)
        }),
{
    let p = covers_point(elements, point);
    assert forall|j: int| 0 <= j < elements.len() implies (#[trigger] p(j) <==> lies_on(
        elements[j],
        point,
    )) by {
        assert(elements[j].global_bbox().regular());
    }
    if 0 <= i < elements.len() && lies_on(elements[i], point) && (forall|j: int|
        0 <= j < i ==> !lies_on(#[trigger] elements[j], point)) {
        assert(p(i));
        assert forall|j: int| 0 <= j < i implies !(#[trigger] p(j)) by {
            assert(!lies_on(elements[j], point));
        }
        lemma_is_first_below(elements.len(), p, i);
    }
    if forall|j: int| 0 <= j < elements.len() ==> !lies_on(#[trigger] elements[j], point) {
        assert forall|j: int| 0 <= j < elements.len() implies !(#[trigger] p(j)) by {
            assert(!lies_on(elements[j], point));
        }
        lemma_none_below(elements.len(), p);
    }
}

/// A pointer that moves is told to the surface at its point, and the first output that shows the
/// point is drawn; where none shows it, nothing is drawn and no surface is told.
pub proof fn law_motion_event(
    s: ShellView,
    keybindings: Seq<BindingView>,
    event: InputEvent,
    elements: Seq<Element>,
    outputs: Seq<OutputArea>,
    o: int,
)
    requires
        event is Motion,
    ensures
        ({
            let (t, outcome) = process(s, keybindings, event, elements, outputs);
            let point = event->Motion_point;
            &&& t == s
            &&& outcome is Move
            &&& outcome->target == surface_at(
                outputs,
                elements,
                event->hits@,
                event->layers,
                point,
            )
            &&& 0 <= o < outputs.len() && outputs[o].geometry.spec_contains(point) && (forall|j: int|
                0 <= j < o ==> !(#[trigger] outputs[j]).geometry.spec_contains(point))
                ==> outcome->render == Some(outputs[o].output)
            &&& (forall|j: int|
                0 <= j < outputs.len() ==> !(#[trigger] outputs[j]).geometry.spec_contains(point))
                ==> outcome->render is None && outcome->target is None
        }),
{
    let point = event->Motion_point;
    let p = shows_point(outputs, point);
    if 0 <= o < outputs.len() && outputs[o].geometry.spec_contains(point) && (forall|j: int|
        0 <= j < o ==> !(#[trigger] outputs[j]).geometry.spec_contains(point)) {
        assert(p(o));
        assert forall|j: int| 0 <= j < o implies !(#[trigger] p(j)) by {
            assert(!outputs[j].geometry.spec_contains(point));
        }
        lemma_is_first_below(outputs.len(), p, o);
    }
    if forall|j: int|
        0 <= j < outputs.len() ==> !(#[trigger] outputs[j]).geometry.spec_contains(point) {
        assert forall|j: int| 0 <= j < outputs.len() implies !(#[trigger] p(j)) by {
            assert(!outputs[j].geometry.spec_contains(point));
        }
        lemma_none_below(outputs.len(), p);
    }
}

/// Scrolling is passed on as it comes: each axis that is reported with its steps, and a stop when
/// a finger rests on both axes.
pub proof fn law_axis_event(
    s: ShellView,
    keybindings: Seq<BindingView>,
    horizontal: Option<AxisAmount>,
    vertical: Option<AxisAmount>,
    source: AxisSource,
    elements: Seq<Element>,
    outputs: Seq<OutputArea>,
)
    ensures
        ({
            let event = InputEvent::Axis { horizontal, vertical, source };
            let (t, outcome) = process(s, keybindings, event, elements, outputs);
            let rests = horizontal is Some && horizontal.unwrap().is_zero && vertical is Some
                && vertical.unwrap().is_zero;
            &&& t == s
            &&& outcome matches OutcomeView::Scroll(frame) && {
                &&& frame.horizontal_value == (horizontal is Some)
                &&& frame.vertical_value == (vertical is Some)
                &&& horizontal matches Some(a) ==> frame.horizontal_v120 == a.v120
                &&& vertical matches Some(a) ==> frame.vertical_v120 == a.v120
                &&& horizontal is None ==> frame.horizontal_v120 is None
                &&& vertical is None ==> frame.vertical_v120 is None
                &&& frame.stop <==> source == AxisSource::Finger && rests
            }
        }),
{
}

/// Gestures are passed on; devices that come and go, and anything else, are not.
pub proof fn law_other_events(
    s: ShellView,
    keybindings: Seq<BindingView>,
    event: InputEvent,
    elements: Seq<Element>,
    outputs: Seq<OutputArea>,
)
    ensures
        event is Gesture ==> process(s, keybindings, event, elements, outputs) == (
            s,
            OutcomeView::Forward,
        ),
        event is DeviceAdded || event is DeviceRemoved || event is Other ==> process(
            s,
            keybindings,
            event,
            elements,
            outputs,
        ) == (s, OutcomeView::Ignore),
{
}

/// Moving the focused window to a workspace comes to three things: the window is removed, the output
/// is switched to the workspace, and the window is added to the output, floating if it has a
/// parent. It is hidden first and shown last, keeps the keyboard, and the output is drawn. Without
/// a focused window the output is drawn and nothing else happens.
pub proof fn law_move_action(
    s: ShellView,
    name: Seq<char>,
    output: OutputView,
    has_parent: bool,
    dead: Seq<WindowId>,
)
    ensures
        ({
            let (t, r) = act(
                s,
                ActionView::MoveToWorkspace(name),
                Some(output),
                has_parent,
                dead,
            );
            let shown = shown_on(s.manager.outputs, output.name);
            let n = r.commands.len();
            &&& r.render == Some(output.id)
            &&& r.request == Request::Nothing
            &&& s.focused is None ==> t == s && n == 0 && r.focus == FocusChange::Keep
            &&& s.focused matches Some(w) ==> {
                let gone = s.remove_window(w, dead);
                &&& r.focus == FocusChange::Give(w)
                &&& shown.len() > 0 ==> t == gone.switch_on_virtual(
                    shown[0].id,
                    name,
                ).0.add_window(w, output, has_parent, None).0
                &&& shown.len() == 0 ==> t == gone.add_window(w, output, has_parent, None).0
                &&& n >= 3
                &&& r.commands[0] == (Command::Hide { window: w })
                &&& r.commands[n - 2] == (Command::Show {
                    window: w,
                    location: Point { x: 0, y: 0 },
                })
                &&& r.commands[n - 1] == (Command::Arrange { output: output.id })
            }
        }),
{
    if s.focused is Some {
        assert(s.remove_window(s.focused.unwrap(), dead).manager == s.manager);
    }
}

} // verus!
