//! Calls on the compositor's state.

use vstd::prelude::*;

use crate::shell::output::{Output, Scale};
use crate::shell::tiling::WindowId;
use crate::state::{output_is, Effect, InitialConfigure, PendingWindow, SessionChange, State, Tick};
use crate::utils::geometry::Size;
use crate::utils::search;

verus! {

/// A session that becomes active resumes the input devices, one that is paused suspends them; in
/// either case that is all that changes.
pub proof fn law_session_switched()
    ensures
        forall|s: &mut State, active: bool, r: SessionChange|
            #[trigger] call_ensures(State::session_active, (s, active), r) ==> {
                &&& active ==> r == SessionChange::ResumeInput
                &&& !active ==> r == SessionChange::SuspendInput
                &&& final(s)@.session_active == active
                &&& final(s)@.shell == s@.shell
                &&& final(s)@.outputs == s@.outputs
                &&& final(s)@.pending == s@.pending
                &&& final(s)@.needs_focus_refresh == s@.needs_focus_refresh
                &&& final(s)@.should_stop == s@.should_stop
            },
{
}

/// After `stop`, and only then, the next turn of the event loop is the last. Any other turn asks
/// for the focus to be brought up to date if that is due, and it is then no longer due.
pub proof fn law_stop_ends_loop()
    ensures
        forall|s: &mut State, r: ()|
            #[trigger] call_ensures(State::stop, (s,), r) ==> {
                &&& final(s)@.should_stop
                &&& final(s)@.shell == s@.shell
                &&& final(s)@.outputs == s@.outputs
                &&& final(s)@.pending == s@.pending
                &&& final(s)@.needs_focus_refresh == s@.needs_focus_refresh
                &&& final(s)@.session_active == s@.session_active
            },
        forall|s: &mut State, r: Tick|
            #[trigger] call_ensures(State::tick, (s,), r) ==> {
                &&& s@.should_stop <==> r is Stop
                &&& r matches Tick::Continue { refresh_focus } ==> refresh_focus
                    == s@.needs_focus_refresh && !final(s)@.needs_focus_refresh
                &&& final(s)@.should_stop == s@.should_stop
                &&& final(s)@.session_active == s@.session_active
                &&& final(s)@.shell == s@.shell
                &&& final(s)@.outputs == s@.outputs
                &&& final(s)@.pending == s@.pending
            },
{
}

/// A new state has no output, nothing waits in it, and its session is not active yet.
pub proof fn law_new_state(shell: crate::shell::Shell, r: State)
    requires
        call_ensures(State::new, (shell,), r),
    ensures
        r@.shell == shell@,
        r@.outputs.len() == 0,
        r@.pending.len() == 0,
        !r@.needs_focus_refresh,
        !r@.should_stop,
        !r@.session_active,
{
}

/// A window that is announced waits behind the others. It is told that it is active and, unless
/// it is to be fullscreen, that it may be 800 by 600.
pub proof fn law_announced()
    ensures
        forall|s: &mut State, surface: u64, window: WindowId, fullscreen: bool, r: InitialConfigure|
            #[trigger] call_ensures(State::new_toplevel, (s, surface, window, fullscreen), r) ==> {
                let n = s@.pending.len() as int;
                &&& r.activated
                &&& fullscreen <==> r.size is None
                &&& r.size matches Some(size) ==> size.w == 800 && size.h == 600
                &&& final(s)@.pending.len() == n + 1
                &&& final(s)@.pending[n] == (PendingWindow { surface, window })
                &&& forall|i: int|
                    0 <= i < n ==> #[trigger] final(s)@.pending[i] == s@.pending[i]
                &&& final(s)@.shell == s@.shell
                &&& final(s)@.outputs == s@.outputs
            },
{
}

/// A window that is fullscreen no more is asked to be 800 by 600, and then what is on the screen
/// is arranged; without a window nothing is asked of anyone.
pub proof fn law_fullscreen_left()
    ensures
        forall|s: &mut State, window: Option<WindowId>, r: Vec<Effect>|
            #[trigger] call_ensures(State::unfullscreen_request, (s, window), r) ==> {
                &&& window is None ==> r@.len() == 0 && final(s)@ == s@
                &&& window is Some ==> r@.len() > 0 && r@[0] == Effect::ConfigureNormal(
                    Size { w: 800, h: 600 },
                )
                &&& window is Some && s@.outputs.len() > 0 ==> r@.len() == 2 && final(s)@.shell
                    == s@.shell.set_fullscreen(window.unwrap(), false)
            },
{
}

/// A window that is to be fullscreen is first asked to be as large as the output is, and then what
/// is on the screen is arranged. Where there is no output to fill, nothing happens.
pub proof fn law_fullscreen_entered()
    ensures
        forall|s: &mut State, wanted: Option<u64>, shown: Option<u64>, window: Option<WindowId>, r: Vec<
            Effect,
        >, k: int|
            #![trigger call_ensures(State::fullscreen_request, (s, wanted, shown, window), r), s@.outputs[k]]
            call_ensures(State::fullscreen_request, (s, wanted, shown, window), r) ==> {
                &&& wanted is None && shown is None && s@.outputs.len() == 0 ==> r@.len() == 0
                    && final(s)@ == s@
                &&& 0 <= k < s@.outputs.len() && wanted == Some(s@.outputs[k].id) && (forall|j: int|
                    0 <= j < k ==> (#[trigger] s@.outputs[j]).id != s@.outputs[k].id) ==> r@.len() > 0
                    && r@[0] == Effect::ConfigureFullscreen(s@.outputs[k].requested_size().unwrap())
                &&& 0 <= k < s@.outputs.len() && wanted == Some(s@.outputs[k].id) && window is Some
                    ==> final(s)@.shell == s@.shell.set_fullscreen(window.unwrap(), true)
            },
{
    assert forall|
        s: &mut State,
        wanted: Option<u64>,
        shown: Option<u64>,
        window: Option<WindowId>,
        r: Vec<Effect>,
        k: int,
    |
        #![trigger call_ensures(State::fullscreen_request, (s, wanted, shown, window), r), s@.outputs[k]]
        call_ensures(State::fullscreen_request, (s, wanted, shown, window), r) && 0 <= k
            < s@.outputs.len() && wanted == Some(s@.outputs[k].id) && (forall|j: int|
            0 <= j < k ==> (#[trigger] s@.outputs[j]).id != s@.outputs[k].id) implies r@.len() > 0
        && r@[0] == Effect::ConfigureFullscreen(s@.outputs[k].requested_size().unwrap()) by {
        let p = output_is(s@.outputs, s@.outputs[k].id);
        assert(p(k));
        assert forall|j: int| 0 <= j < k implies !(#[trigger] p(j)) by {
            assert(s@.outputs[j].id != s@.outputs[k].id);
        }
        search::lemma_is_first_below(s@.outputs.len(), p, k);
    }
}

/// A layer surface goes to the output that it names. One that names none goes to the first, if
/// there is one.
pub proof fn law_layer_surface_place(s: &State, wanted: Option<u64>, r: Option<u64>)
    requires
        call_ensures(State::new_layer_surface, (s, wanted), r),
    ensures
        wanted is Some ==> r == wanted,
        wanted is None && s@.outputs.len() > 0 ==> r == Some(s@.outputs[0].id),
        wanted is None && s@.outputs.len() == 0 ==> r is None,
{
}

/// A surface draws at the scale of the output that shows it. One that is shown by no output that
/// is known draws at the scale of the first output, or unscaled if there is none.
pub proof fn law_surface_scale(s: &State, shown: Option<u64>, r: Scale, k: int)
    requires
        call_ensures(State::new_fractional_scale, (s, shown), r),
        0 <= k < s@.outputs.len(),
    ensures
        shown == Some(s@.outputs[k].id) && (forall|j: int|
            0 <= j < k ==> (#[trigger] s@.outputs[j]).id != s@.outputs[k].id) ==> r
            == s@.outputs[k].scale,
        shown is None ==> r == s@.outputs[0].scale,
        shown is Some && (forall|j: int|
            0 <= j < s@.outputs.len() ==> Some((#[trigger] s@.outputs[j]).id) != shown) ==> r
            == s@.outputs[0].scale,
{
    if shown is Some {
        let p = output_is(s@.outputs, shown.unwrap());
        search::lemma_first_below(s@.outputs.len(), p);
        if shown == Some(s@.outputs[k].id) && (forall|j: int|
            0 <= j < k ==> (#[trigger] s@.outputs[j]).id != s@.outputs[k].id) {
            assert(p(k));
            assert forall|j: int| 0 <= j < k implies !(#[trigger] p(j)) by {
                assert(s@.outputs[j].id != s@.outputs[k].id);
            }
            search::lemma_is_first_below(s@.outputs.len(), p, k);
        }
    }
}

/// When there is no output, surfaces are not scaled.
pub proof fn law_no_output_no_scale(s: &State, shown: Option<u64>, r: Scale)
    requires
        call_ensures(State::new_fractional_scale, (s, shown), r),
        s@.outputs.len() == 0,
    ensures
        r == Scale(256),
{
    if shown is Some {
        search::lemma_first_below(s@.outputs.len(), output_is(s@.outputs, shown.unwrap()));
    }
}

/// When a layer surface is gone, it is taken off its output and the output is drawn, every
/// workspace that the output shows waits for arrangement, and the focus is to be brought up to
/// date.
pub proof fn law_layer_gone()
    ensures
        forall|s: &mut State, k: usize, r: Vec<Effect>|
            #[trigger] call_ensures(State::layer_destroyed, (s, k), r) ==> {
                let output = s@.outputs[k as int];
                &&& r@.len() == 2
                &&& r@[0] == Effect::UnmapLayer(output.id)
                &&& r@[1] == Effect::Render(output.id)
                &&& final(s)@.needs_focus_refresh
                &&& final(s)@.pending == s@.pending
                &&& final(s)@.outputs == s@.outputs
                &&& final(s)@.shell.focused == s@.shell.focused
                &&& forall|i: int|
                    0 <= i < s@.shell.workspaces.len() ==> (
                    #[trigger] final(s)@.shell.workspaces[i]).needs_arrange == (
                    s@.shell.workspaces[i].needs_arrange || s@.shell.workspaces_on(
                        output.name,
                    ).contains(i))
            },
{
}

/// An output that is added stands behind the others. When all that the shell wants done for it is
/// done, it is drawn.
pub proof fn law_output_added()
    ensures
        forall|s: &mut State, output: Output, r: Vec<Effect>|
            #[trigger] call_ensures(State::add_output, (s, output), r) ==> {
                let n = s@.outputs.len() as int;
                &&& final(s)@.outputs.len() == n + 1
                &&& final(s)@.outputs[n] == output@
                &&& forall|i: int|
                    0 <= i < n ==> #[trigger] final(s)@.outputs[i] == s@.outputs[i]
                &&& r@.len() > 0 && r@.last() == Effect::Render(output@.id)
                &&& forall|i: int| 0 <= i < r@.len() - 1 ==> #[trigger] r@[i] is Do
                &&& final(s)@.pending == s@.pending
            },
{
}

/// An output that has moved is known by its identifier: the first that has it is replaced, the
/// others stay as they are. An output that is not known changes nothing.
pub proof fn law_output_moved()
    ensures
        forall|s: &mut State, output: Output, r: (), k: int|
            #![trigger call_ensures(State::update_output_position, (s, output), r), s@.outputs[k]]
            call_ensures(State::update_output_position, (s, output), r) ==> {
                &&& final(s)@.outputs.len() == s@.outputs.len()
                &&& final(s)@.pending == s@.pending
                &&& 0 <= k < s@.outputs.len() && s@.outputs[k].id != output@.id
                    ==> final(s)@.outputs[k] == s@.outputs[k]
                &&& 0 <= k < s@.outputs.len() && s@.outputs[k].id == output@.id && (forall|j: int|
                    0 <= j < k ==> (#[trigger] s@.outputs[j]).id != output@.id)
                    ==> final(s)@.outputs[k] == output@
            },
        forall|s: &mut State, output: Output, r: ()|
            #[trigger] call_ensures(State::update_output_position, (s, output), r) && (forall|j: int|
                0 <= j < s@.outputs.len() ==> (#[trigger] s@.outputs[j]).id != output@.id)
                ==> final(s)@ == s@,
{
    assert forall|s: &mut State, output: Output, r: (), k: int|
        #![trigger call_ensures(State::update_output_position, (s, output), r), s@.outputs[k]]
        call_ensures(State::update_output_position, (s, output), r) implies {
        &&& final(s)@.outputs.len() == s@.outputs.len()
        &&& final(s)@.pending == s@.pending
        &&& 0 <= k < s@.outputs.len() && s@.outputs[k].id != output@.id ==> final(s)@.outputs[k]
            == s@.outputs[k]
        &&& 0 <= k < s@.outputs.len() && s@.outputs[k].id == output@.id && (forall|j: int|
            0 <= j < k ==> (#[trigger] s@.outputs[j]).id != output@.id) ==> final(s)@.outputs[k]
            == output@
    } by {
        let p = output_is(s@.outputs, output@.id);
        search::lemma_first_below(s@.outputs.len(), p);
        if 0 <= k < s@.outputs.len() && s@.outputs[k].id == output@.id && (forall|j: int|
            0 <= j < k ==> (#[trigger] s@.outputs[j]).id != output@.id) {
            assert(p(k));
            assert forall|j: int| 0 <= j < k implies !(#[trigger] p(j)) by {
                assert(s@.outputs[j].id != output@.id);
            }
            search::lemma_is_first_below(s@.outputs.len(), p, k);
        }
    }
    assert forall|s: &mut State, output: Output, r: ()|
        #[trigger] call_ensures(State::update_output_position, (s, output), r) && (forall|j: int|
            0 <= j < s@.outputs.len() ==> (#[trigger] s@.outputs[j]).id != output@.id) implies final(s)@
        == s@ by {
        let p = output_is(s@.outputs, output@.id);
        search::lemma_first_below(s@.outputs.len(), p);
    }
}

} // verus!
