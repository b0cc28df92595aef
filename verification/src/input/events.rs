//! Input events, and what is done with each.

use vstd::prelude::*;

use crate::input::keybindings::{
    bound_action, Action, ActionView, BindingView, Keybindings, Modifiers,
};
use crate::input::FocusChange;
use crate::shell::hit::{
    covers_point, output_with, surface_at, Element, LayerHits, OutputArea, SurfaceHit,
};
use crate::shell::model::ShellView;
use crate::shell::tiling::WindowId;
use crate::shell::Shell;
use crate::utils::geometry::Point;
use crate::utils::search::first_below;

verus! {

/// The key that bindings are looked up by: the one without shift, where the layout has a
/// Latin one, else the key as it was typed.
pub open spec fn binding_key(raw_latin: Option<u32>, typed: u32) -> u32 {
    match raw_latin {
        Some(key) => key,
        None => typed,
    }
}

/// Decides whether a key is a binding. The action is to be carried out and the key kept
/// from clients; a key without an action is passed on.
pub fn filter_key(
    keybindings: &Keybindings,
    modifiers: &Modifiers,
    raw_latin: Option<u32>,
    typed: u32,
    pressed: bool,
) -> (r: Option<Action>)
    ensures
        match r {
            Some(action) => pressed && bound_action(
                keybindings@,
                *modifiers,
                binding_key(raw_latin, typed),
            ) == Some(action@),
            None => !pressed || bound_action(
                keybindings@,
                *modifiers,
                binding_key(raw_latin, typed),
            ) is None,
        },
{
    let key: u32 = match raw_latin {
        Some(key) => key,
        None => typed,
    };
    keybindings.check(modifiers, key, pressed)
}

/// The window that a click at a point focuses: the first one listed that covers it, when
/// the button goes down.
pub open spec fn clicked_window(elements: Seq<Element>, point: Point, pressed: bool) -> Option<WindowId> {
    if pressed {
        match first_below(elements.len(), covers_point(elements, point)) {
            Some(i) => Some(elements[i].window),
            None => None,
        }
    } else {
        None
    }
}

/// Handles a pointer button: a press focuses the window under the pointer. The button goes
/// on to clients in any case.
pub fn handle_button(shell: &mut Shell, elements: &Vec<Element>, point: Point, pressed: bool) -> (r: FocusChange)
    requires
        old(shell).wf(),
        old(shell)@.workspaces.len() < u64::MAX,
    ensures
        final(shell).wf(),
        match clicked_window(elements@, point, pressed) {
            Some(w) => final(shell)@ == old(shell)@.set_focus(w) && r == FocusChange::Give(w),
            None => final(shell)@ == old(shell)@ && r == FocusChange::Keep,
        },
{
    if !pressed {
        return FocusChange::Keep;
    }
    match shell.window_under(elements, point) {
        Some(window) => {
            shell.set_focus(window);
            FocusChange::Give(window)
        },
        None => FocusChange::Keep,
    }
}

/// Where scrolling comes from.
#[derive(Debug, Clone, Copy, PartialEq, Eq, Structural)]
pub enum AxisSource {
    Wheel,
    WheelTilt,
    Finger,
    Continuous,
}

/// Scrolling along one axis: whether it is by nothing, and the steps of the wheel.
#[derive(Debug, Clone, Copy, PartialEq, Eq, Structural)]
pub struct AxisAmount {
    pub is_zero: bool,
    pub v120: Option<i32>,
}

/// What an axis frame tells the client.
#[derive(Debug, Clone, Copy, PartialEq, Eq, Structural)]
pub struct AxisFrame {
    pub horizontal_value: bool,
    pub horizontal_v120: Option<i32>,
    pub vertical_value: bool,
    pub vertical_v120: Option<i32>,
    pub stop: bool,
}

/// The steps of the wheel along an axis.
pub open spec fn steps(amount: Option<AxisAmount>) -> Option<i32> {
    match amount {
        Some(a) => a.v120,
        None => None,
    }
}

/// Whether the axis is reported, by nothing.
pub open spec fn at_rest(amount: Option<AxisAmount>) -> bool {
    amount matches Some(a) && a.is_zero
}

/// Puts together what a scroll event tells the client: each axis that is reported with its
/// value, wheel steps only along with a value, and, when a finger has come to rest on both
/// axes, that scrolling has stopped.
pub fn axis_frame(horizontal: Option<AxisAmount>, vertical: Option<AxisAmount>, source: AxisSource) -> (r: AxisFrame)
    ensures
        r == (AxisFrame {
            horizontal_value: horizontal is Some,
            horizontal_v120: steps(horizontal),
            vertical_value: vertical is Some,
            vertical_v120: steps(vertical),
            stop: source == AxisSource::Finger && at_rest(horizontal) && at_rest(vertical),
        }),
{
    let (horizontal_value, horizontal_v120, horizontal_zero) = match horizontal {
        Some(a) => (true, a.v120, a.is_zero),
        None => (false, None, false),
    };
    let (vertical_value, vertical_v120, vertical_zero) = match vertical {
        Some(a) => (true, a.v120, a.is_zero),
        None => (false, None, false),
    };
    let finger = match source {
        AxisSource::Finger => true,
        _ => false,
    };
    AxisFrame {
        horizontal_value,
        horizontal_v120,
        vertical_value,
        vertical_v120,
        stop: finger && horizontal_zero && vertical_zero,
    }
}

/// An input event, with what deciding about it takes.
#[derive(Debug)]
pub enum InputEvent {
    DeviceAdded,
    DeviceRemoved,
    Key { modifiers: Modifiers, raw_latin: Option<u32>, typed: u32, pressed: bool },
    /// The pointer has moved to the point. With it come the surfaces that the windows, one
    /// for one, and the layers have there.
    Motion { point: Point, hits: Vec<Option<SurfaceHit>>, layers: LayerHits },
    Button { point: Point, pressed: bool },
    Axis { horizontal: Option<AxisAmount>, vertical: Option<AxisAmount>, source: AxisSource },
    Gesture,
    Other,
}

/// What is done with an input event.
#[derive(Debug)]
pub enum InputOutcome {
    Ignore,
    /// Carry out the action; clients do not see the key.
    Act(Action),
    /// Pass the event on to the focused client.
    Forward,
    /// Tell the surface under the pointer that the pointer moved, and draw the output that
    /// it is on.
    Move { target: Option<SurfaceHit>, render: Option<u64> },
    /// Change the keyboard focus, then pass the button on.
    Click(FocusChange),
    /// Pass on the scrolling.
    Scroll(AxisFrame),
}

/// What is done with an input event, with the action in it as a value.
pub enum OutcomeView {
    Ignore,
    Act(ActionView),
    Forward,
    Move { target: Option<SurfaceHit>, render: Option<u64> },
    Click(FocusChange),
    Scroll(AxisFrame),
}

impl View for InputOutcome {
    type V = OutcomeView;

    open spec fn view(&self) -> OutcomeView {
        match self {
            InputOutcome::Ignore => OutcomeView::Ignore,
            InputOutcome::Act(action) => OutcomeView::Act(action@),
            InputOutcome::Forward => OutcomeView::Forward,
            InputOutcome::Move { target, render } => OutcomeView::Move {
                target: *target,
                render: *render,
            },
            InputOutcome::Click(focus) => OutcomeView::Click(*focus),
            InputOutcome::Scroll(frame) => OutcomeView::Scroll(*frame),
        }
    }
}

/// The shell after an input event, and what is done with the event.
pub open spec fn process(
    s: ShellView,
    keybindings: Seq<BindingView>,
    event: InputEvent,
    elements: Seq<Element>,
    outputs: Seq<OutputArea>,
) -> (ShellView, OutcomeView) {
    match event {
        InputEvent::Key { modifiers, raw_latin, typed, pressed } => (
            s,
            match bound_action(keybindings, modifiers, binding_key(raw_latin, typed)) {
                Some(action) => if pressed {
                    OutcomeView::Act(action)
                } else {
                    OutcomeView::Forward
                },
                None => OutcomeView::Forward,
            },
        ),
        InputEvent::Motion { point, hits, layers } => (
            s,
            OutcomeView::Move {
                target: surface_at(outputs, elements, hits@, layers, point),
                render: match output_with(outputs, point) {
                    Some(i) => Some(outputs[i].output),
                    None => None,
                },
            },
        ),
        InputEvent::Button { point, pressed } => match clicked_window(elements, point, pressed) {
            Some(w) => (s.set_focus(w), OutcomeView::Click(FocusChange::Give(w))),
            None => (s, OutcomeView::Click(FocusChange::Keep)),
        },
        InputEvent::Axis { horizontal, vertical, source } => (
            s,
            OutcomeView::Scroll(
                AxisFrame {
                    horizontal_value: horizontal is Some,
                    horizontal_v120: steps(horizontal),
                    vertical_value: vertical is Some,
                    vertical_v120: steps(vertical),
                    stop: source == AxisSource::Finger && at_rest(horizontal) && at_rest(vertical),
                },
            ),
        ),
        InputEvent::Gesture => (s, OutcomeView::Forward),
        _ => (s, OutcomeView::Ignore),
    }
}

/// Decides what is done with an input event. An action that comes out of it is carried out
/// by `handle_action`.
pub fn process_input_event(
    shell: &mut Shell,
    keybindings: &Keybindings,
    event: &InputEvent,
    elements: &Vec<Element>,
    outputs: &Vec<OutputArea>,
) -> (r: InputOutcome)
    requires
        old(shell).wf(),
        old(shell)@.workspaces.len() < u64::MAX,
        event matches InputEvent::Motion { hits, .. } ==> hits@.len() == elements@.len(),
    ensures
        final(shell).wf(),
        final(shell)@ == process(old(shell)@, keybindings@, *event, elements@, outputs@).0,
        r@ == process(old(shell)@, keybindings@, *event, elements@, outputs@).1,
{
    match event {
        InputEvent::DeviceAdded => InputOutcome::Ignore,
        InputEvent::DeviceRemoved => InputOutcome::Ignore,
        InputEvent::Key { modifiers, raw_latin, typed, pressed } => {
            match filter_key(keybindings, modifiers, *raw_latin, *typed, *pressed) {
                Some(action) => InputOutcome::Act(action),
                None => InputOutcome::Forward,
            }
        },
        InputEvent::Motion { point, hits, layers } => InputOutcome::Move {
            target: shell.surface_under(outputs, elements, hits, layers, *point),
            render: shell.output_at(outputs, *point),
        },
        InputEvent::Button { point, pressed } => InputOutcome::Click(
            handle_button(shell, elements, *point, *pressed),
        ),
        InputEvent::Axis { horizontal, vertical, source } => InputOutcome::Scroll(
            axis_frame(*horizontal, *vertical, *source),
        ),
        InputEvent::Gesture => InputOutcome::Forward,
        InputEvent::Other => InputOutcome::Ignore,
    }
}

/// A key is either acted on or passed on, and only presses are acted on.
pub proof fn law_release_passes(
    s: ShellView,
    keybindings: Seq<BindingView>,
    modifiers: Modifiers,
    raw_latin: Option<u32>,
    typed: u32,
    elements: Seq<Element>,
    outputs: Seq<OutputArea>,
)
    ensures
        process(
            s,
            keybindings,
            InputEvent::Key { modifiers, raw_latin, typed, pressed: false },
            elements,
            outputs,
        ).1 is Forward,
{
}

} // verus!
