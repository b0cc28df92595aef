//! Calls on input: keys, buttons and scrolling.

use vstd::prelude::*;

use crate::input::events::{
    axis_frame, filter_key, handle_button, AxisAmount, AxisFrame, AxisSource,
};
use crate::input::keybindings::{
    is_modkey, law_keys, law_number_keys, Action, Keybindings, Modifiers,
};
use crate::input::FocusChange;
use crate::shell::hit::{covers_point, Element};
use crate::shell::Shell;
use crate::utils::geometry::Point;
use crate::utils::search::{lemma_first_below, lemma_is_first_below};
use crate::utils::text::decimal;

verus! {

/// What the keys of the default bindings do while they are pressed with the modifier, and with
/// shift as well. A key that is released does nothing.
pub proof fn law_key_pressed(
    modkey: Modifiers,
    bindings: Keybindings,
    modifiers: Modifiers,
    key: u32,
    pressed: bool,
    r: Option<Action>,
)
    requires
        is_modkey(modkey),
        call_ensures(Keybindings::with_modkey, (modkey,), bindings),
        call_ensures(Keybindings::check, (&bindings, &modifiers, key, pressed), r),
    ensures
        !pressed ==> r is None,
        ({
            let plain = pressed && modifiers == modkey;
            let shifted = pressed && modifiers == (Modifiers { shift: true, ..modkey });
            &&& plain && key == 'q' as u32 ==> r is Some && r.unwrap() is CloseWindow
            &&& plain && key == 'j' as u32 ==> r is Some && r.unwrap() is FocusNext
            &&& plain && key == 'k' as u32 ==> r is Some && r.unwrap() is FocusPrev
            &&& plain && key == 'm' as u32 ==> r is Some && r.unwrap() is Zoom
            &&& plain && key == 'f' as u32 ==> r is Some && r.unwrap() is Fullscreen
            &&& plain && key == 'h' as u32 ==> r is Some && r.unwrap() is DecreaseMasterWidth
            &&& plain && key == 'l' as u32 ==> r is Some && r.unwrap() is IncreaseMasterWidth
            &&& plain && key == 'i' as u32 ==> r is Some && r.unwrap() is IncreaseMasterCount
            &&& plain && key == ',' as u32 ==> r is Some && r.unwrap() is DecreaseMasterCount
            &&& plain && key == 't' as u32 ==> r is Some && r.unwrap() is ToggleLayoutMode
            &&& plain && key == 0xff09 ==> r is Some && r.unwrap() is NextTab
            &&& plain && key == 0xff0d ==> r is Some && r.unwrap() is LaunchTerminal
            &&& plain && key == 'd' as u32 ==> r is Some && r.unwrap() is LaunchMenu
            &&& shifted && key == ' ' as u32 ==> r is Some && r.unwrap() is ToggleFloating
            &&& shifted && key == 0xff09 ==> r is Some && r.unwrap() is PrevTab
            &&& shifted && key == 'e' as u32 ==> r is Some && r.unwrap() is Quit
        }),
{
    law_keys(modkey);
}

/// The number keys, pressed with the modifier, switch to the workspace of the number, and with
/// shift as well move the window there; zero stands for ten. The function keys, with control and
/// alt, switch to the terminal of their number.
pub proof fn law_number_pressed(
    modkey: Modifiers,
    bindings: Keybindings,
    modifiers: Modifiers,
    key: u32,
    r: Option<Action>,
    n: int,
)
    requires
        is_modkey(modkey),
        call_ensures(Keybindings::with_modkey, (modkey,), bindings),
        call_ensures(Keybindings::check, (&bindings, &modifiers, key, true), r),
    ensures
        1 <= n <= 10 && key == '0' as u32 + n % 10 && modifiers == modkey ==> (r matches Some(
            Action::SwitchToWorkspace(name),
        ) && name@ == decimal(n as nat)),
        1 <= n <= 10 && key == '0' as u32 + n % 10 && modifiers == (Modifiers {
            shift: true,
            ..modkey
        }) ==> (r matches Some(Action::MoveToWorkspace(name)) && name@ == decimal(n as nat)),
        1 <= n <= 12 && key == 0xffbe + n - 1 && modifiers == (Modifiers {
            ctrl: true,
            alt: true,
            shift: false,
            logo: false,
        }) ==> r == Some(Action::VtSwitch(n as i32)),
{
    law_number_keys(modkey, n);
}

/// A key is looked up by what it is without shift, if that is known, and else by what it typed.
pub proof fn law_key_looked_up(
    bindings: &Keybindings,
    modifiers: &Modifiers,
    raw: u32,
    typed: u32,
    pressed: bool,
    with_raw: Option<Action>,
    without: Option<Action>,
    of_raw: Option<Action>,
    of_typed: Option<Action>,
)
    requires
        call_ensures(filter_key, (bindings, modifiers, Some(raw), typed, pressed), with_raw),
        call_ensures(filter_key, (bindings, modifiers, None::<u32>, typed, pressed), without),
        call_ensures(Keybindings::check, (bindings, modifiers, raw, pressed), of_raw),
        call_ensures(Keybindings::check, (bindings, modifiers, typed, pressed), of_typed),
    ensures
        with_raw is Some <==> of_raw is Some,
        with_raw is Some ==> with_raw.unwrap()@ == of_raw.unwrap()@,
        without is Some <==> of_typed is Some,
        without is Some ==> without.unwrap()@ == of_typed.unwrap()@,
{
}

/// A button that goes down on a window focuses the foremost one there and gives it the keyboard.
/// One that goes up, or goes down where no window is, changes nothing.
pub proof fn law_button()
    ensures
        forall|s: &mut Shell, elements: &Vec<Element>, point: Point, r: FocusChange|
            #[trigger] call_ensures(handle_button, (s, elements, point, false), r) ==> final(s)@ == s@
                && r == FocusChange::Keep,
        forall|s: &mut Shell, elements: &Vec<Element>, point: Point, r: FocusChange, i: int|
            #![trigger call_ensures(handle_button, (s, elements, point, true), r), elements@[i]]
            call_ensures(handle_button, (s, elements, point, true), r) && 0 <= i < elements@.len()
                && elements@[i].global_bbox().spec_contains(point) && (forall|j: int|
                0 <= j < i ==> !(#[trigger] elements@[j]).global_bbox().spec_contains(point)) ==> r
                == FocusChange::Give(elements@[i].window) && final(s)@.focused == Some(
                elements@[i].window,
            ),
        forall|s: &mut Shell, elements: &Vec<Element>, point: Point, r: FocusChange|
            #[trigger] call_ensures(handle_button, (s, elements, point, true), r) && (forall|j: int|
                0 <= j < elements@.len() ==> !(#[trigger] elements@[j]).global_bbox().spec_contains(
                    point,
                )) ==> final(s)@ == s@ && r == FocusChange::Keep,
{
    assert forall|s: &mut Shell, elements: &Vec<Element>, point: Point, r: FocusChange, i: int|
        #![trigger call_ensures(handle_button, (s, elements, point, true), r), elements@[i]]
        call_ensures(handle_button, (s, elements, point, true), r) && 0 <= i < elements@.len()
            && elements@[i].global_bbox().spec_contains(point) && (forall|j: int|
            0 <= j < i ==> !(#[trigger] elements@[j]).global_bbox().spec_contains(point)) implies r
        == FocusChange::Give(elements@[i].window) && final(s)@.focused == Some(
        elements@[i].window,
    ) by {
        let p = covers_point(elements@, point);
        assert(p(i));
        assert forall|j: int| 0 <= j < i implies !(#[trigger] p(j)) by {
            assert(!elements@[j].global_bbox().spec_contains(point));
        }
        lemma_is_first_below(elements@.len(), p, i);
    }
    assert forall|s: &mut Shell, elements: &Vec<Element>, point: Point, r: FocusChange|
        #[trigger] call_ensures(handle_button, (s, elements, point, true), r) && (forall|j: int|
            0 <= j < elements@.len() ==> !(#[trigger] elements@[j]).global_bbox().spec_contains(
                point,
            )) implies final(s)@ == s@ && r == FocusChange::Keep by {
        lemma_first_below(elements@.len(), covers_point(elements@, point));
    }
}

/// Scrolling is told axis by axis, with the steps of the wheel where there are any. That it has
/// stopped is told only of a finger that rests on both axes.
pub proof fn law_scrolled(
    horizontal: Option<AxisAmount>,
    vertical: Option<AxisAmount>,
    source: AxisSource,
    r: AxisFrame,
)
    requires
        call_ensures(axis_frame, (horizontal, vertical, source), r),
    ensures
        r.horizontal_value == horizontal is Some,
        r.vertical_value == vertical is Some,
        horizontal matches Some(a) ==> r.horizontal_v120 == a.v120,
        horizontal is None ==> r.horizontal_v120 is None,
        vertical matches Some(a) ==> r.vertical_v120 == a.v120,
        vertical is None ==> r.vertical_v120 is None,
        r.stop ==> source is Finger && horizontal is Some && vertical is Some
            && horizontal.unwrap().is_zero && vertical.unwrap().is_zero,
        source is Finger && horizontal is Some && vertical is Some && horizontal.unwrap().is_zero
            && vertical.unwrap().is_zero ==> r.stop,
{
}

} // verus!
