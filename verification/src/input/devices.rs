//! Input devices: how touchpads are set up.

use vstd::prelude::*;

verus! {

/// A setting of a touchpad.
#[derive(Debug, Clone, Copy, PartialEq, Eq, Structural)]
pub enum TouchpadSetting {
    /// A tap is a click.
    TapToClick(bool),
    /// A tap and a stroke drag.
    TapDrag(bool),
    /// Lifting the finger for a moment does not end a drag.
    DragLock(bool),
    /// The touchpad is off while keys are typed.
    DisableWhileTyping(bool),
}

/// How a device is set up: a device that knows taps is a touchpad. It stays on while keys are
/// typed, where that can be set.
pub open spec fn touchpad_setup(tap_fingers: u32, can_disable: bool) -> Seq<TouchpadSetting> {
    if tap_fingers == 0 {
        Seq::empty()
    } else {
        let taps = seq![
            TouchpadSetting::TapToClick(true),
            TouchpadSetting::TapDrag(true),
            TouchpadSetting::DragLock(true),
        ];
        if can_disable {
            taps.push(TouchpadSetting::DisableWhileTyping(false))
        } else {
            taps
        }
    }
}

/// How a device is set up, by how many fingers it can tell apart in a tap, and whether it can
/// be off while keys are typed.
pub fn touchpad_settings(tap_fingers: u32, can_disable: bool) -> (r: Vec<TouchpadSetting>)
    ensures
        r@ == touchpad_setup(tap_fingers, can_disable),
{
    let mut settings: Vec<TouchpadSetting> = Vec::new();
    if tap_fingers > 0 {
        settings.push(TouchpadSetting::TapToClick(true));
        settings.push(TouchpadSetting::TapDrag(true));
        settings.push(TouchpadSetting::DragLock(true));
        if can_disable {
            settings.push(TouchpadSetting::DisableWhileTyping(false));
        }
    }
    assert(settings@ =~= touchpad_setup(tap_fingers, can_disable));
    settings
}

/// A device that can tell no finger of a tap is left alone. A touchpad clicks by taps, drags by
/// them, and keeps a drag while the finger is lifted; where it can be off while keys are typed, it
/// stays on.
pub proof fn law_touchpad(tap_fingers: u32, can_disable: bool)
    ensures
        ({
            let setup = touchpad_setup(tap_fingers, can_disable);
            &&& tap_fingers == 0 ==> setup.len() == 0
            &&& tap_fingers > 0 ==> setup.len() == (if can_disable {
                4int
            } else {
                3
            }) && setup[0] == TouchpadSetting::TapToClick(true) && setup[1]
                == TouchpadSetting::TapDrag(true) && setup[2] == TouchpadSetting::DragLock(true)
            &&& tap_fingers > 0 && can_disable ==> setup[3] == TouchpadSetting::DisableWhileTyping(
                false,
            )
        }),
{
}

} // verus!
