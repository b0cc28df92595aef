//! Small decisions on what clients ask for.

use std::collections::HashSet;

use vstd::prelude::*;

use crate::backend::kms::ImportError;

verus! {

/// The surfaces that keep the session from idling.
pub struct IdleInhibitState {
    inhibiting_surfaces: HashSet<u64>,
}

impl View for IdleInhibitState {
    type V = Set<u64>;

    closed spec fn view(&self) -> Set<u64> {
        self.inhibiting_surfaces@
    }
}

impl IdleInhibitState {
    /// No surface keeps the session from idling.
    pub fn new() -> (r: IdleInhibitState)
        ensures
            r@ == Set::<u64>::empty(),
    {
        broadcast use vstd::std_specs::hash::group_hash_axioms;

        IdleInhibitState { inhibiting_surfaces: HashSet::new() }
    }

    /// Whether some surface keeps the session from idling.
    pub fn is_inhibited(&self) -> (r: bool)
        ensures
            r == (self@ != Set::<u64>::empty()),
    {
        let none = self.inhibiting_surfaces.is_empty();
        assert(none == (self@ =~= Set::<u64>::empty()));
        !none
    }

    /// Takes in a surface.
    pub fn inhibit(&mut self, surface: u64)
        ensures
            final(self)@ == old(self)@.insert(surface),
    {
        broadcast use vstd::std_specs::hash::group_hash_axioms;

        self.inhibiting_surfaces.insert(surface);
    }

    /// Lets a surface go.
    pub fn uninhibit(&mut self, surface: u64)
        ensures
            final(self)@ == old(self)@.remove(surface),
    {
        broadcast use vstd::std_specs::hash::group_hash_axioms;

        self.inhibiting_surfaces.remove(&surface);
    }
}

/// Once every surface that was taken in is let go, the session may idle again.
pub proof fn law_inhibit_round_trip(s: Set<u64>, surface: u64)
    requires
        !s.contains(surface),
    ensures
        s.insert(surface).remove(surface) == s,
        s.insert(surface) != Set::<u64>::empty(),
{
    assert(s.insert(surface).remove(surface) =~= s);
    assert(s.insert(surface).contains(surface));
}

/// Who has an input device that a popup wants to grab.
#[derive(Debug, Clone, Copy, PartialEq, Eq, Structural)]
pub struct GrabState {
    /// Somebody has grabbed it.
    pub is_grabbed: bool,
    /// By the grab that is asked for.
    pub has_grab: bool,
    /// By the grab before that.
    pub has_previous: bool,
}

/// What a popup's grab does.
#[derive(Debug, Clone, Copy, PartialEq, Eq, Structural)]
pub enum GrabAction {
    TakeKeyboard,
    TakePointer,
    /// Somebody else has a device: the popup lets everything go.
    UngrabAll,
}

impl GrabState {
    /// Whether a stranger has the device.
    pub open spec fn is_taken(self) -> bool {
        self.is_grabbed && !self.has_grab && !self.has_previous
    }

    fn taken(&self) -> (r: bool)
        ensures
            r == self.is_taken(),
    {
        self.is_grabbed && !(self.has_grab || self.has_previous)
    }
}

/// What a popup's grab does to a device that is there.
pub open spec fn device_action(device: Option<GrabState>, take: GrabAction) -> Seq<GrabAction> {
    match device {
        Some(state) => if state.is_taken() {
            seq![GrabAction::UngrabAll]
        } else {
            seq![take]
        },
        None => Seq::empty(),
    }
}

/// What a popup's grab does: the keyboard comes first, and where a stranger has it, the
/// pointer is left alone.
pub open spec fn grab_actions(
    keyboard: Option<GrabState>,
    pointer: Option<GrabState>,
) -> Seq<GrabAction> {
    let first = device_action(keyboard, GrabAction::TakeKeyboard);
    if keyboard matches Some(state) && state.is_taken() {
        first
    } else {
        first + device_action(pointer, GrabAction::TakePointer)
    }
}

/// Decides what a popup's grab does to the keyboard and the pointer of a seat, where it has
/// them.
pub fn grab(keyboard: Option<GrabState>, pointer: Option<GrabState>) -> (r: Vec<GrabAction>)
    ensures
        r@ == grab_actions(keyboard, pointer),
{
    let mut actions: Vec<GrabAction> = Vec::new();
    match keyboard {
        Some(state) => {
            if state.taken() {
                actions.push(GrabAction::UngrabAll);
                assert(actions@ =~= grab_actions(keyboard, pointer));
                return actions;
            }
            actions.push(GrabAction::TakeKeyboard);
        },
        None => {},
    }
    match pointer {
        Some(state) => {
            if state.taken() {
                actions.push(GrabAction::UngrabAll);
            } else {
                actions.push(GrabAction::TakePointer);
            }
        },
        None => {},
    }
    assert(actions@ =~= grab_actions(keyboard, pointer));
    actions
}

/// A popup never keeps a device while a stranger has the other: if one of them is taken,
/// everything is let go in the end.
pub proof fn law_grab_all_or_nothing(keyboard: Option<GrabState>, pointer: Option<GrabState>)
    requires
        keyboard matches Some(state) && state.is_taken() || (pointer matches Some(state)
            && state.is_taken()),
    ensures
        grab_actions(keyboard, pointer).len() > 0,
        grab_actions(keyboard, pointer).last() == GrabAction::UngrabAll,
{
}

/// What a client is told of the import of its buffer.
#[derive(Debug, Clone, Copy, PartialEq, Eq, Structural)]
pub enum ImportReply {
    Successful,
    Failed,
}

/// What a client is told of the import of its buffer: that it failed, unless a device took it.
/// `None`: no backend is there.
pub fn dmabuf_imported(result: Option<Result<u64, ImportError>>) -> (r: ImportReply)
    ensures
        r == ImportReply::Successful <==> (result matches Some(outcome) && outcome is Ok),
{
    match result {
        Some(Ok(_)) => ImportReply::Successful,
        _ => ImportReply::Failed,
    }
}

/// A popup takes the keyboard and then the pointer, as far as they are there, unless a stranger has
/// one of them: somebody has grabbed it, and neither by this grab nor by the one before.
pub proof fn law_grab(keyboard: Option<GrabState>, pointer: Option<GrabState>)
    ensures
        ({
            let strange = |d: Option<GrabState>|
                d is Some && d.unwrap().is_grabbed && !d.unwrap().has_grab
                    && !d.unwrap().has_previous;
            let actions = grab_actions(keyboard, pointer);
            &&& strange(keyboard) ==> actions == seq![GrabAction::UngrabAll]
            &&& keyboard is Some && !strange(keyboard) ==> actions.len() > 0 && actions[0]
                == GrabAction::TakeKeyboard
            &&& !strange(keyboard) && pointer is Some && !strange(pointer) ==> actions.len() > 0
                && actions.last() == GrabAction::TakePointer
            &&& !strange(keyboard) && strange(pointer) ==> actions.len() > 0 && actions.last()
                == GrabAction::UngrabAll
            &&& !strange(keyboard) ==> actions.len() == (if keyboard is Some {
                1int
            } else {
                0
            }) + (if pointer is Some {
                1int
            } else {
                0
            })
        }),
{
}

} // verus!
