//! Calls on output management and other protocols, and on what is run at the start.

use vstd::prelude::*;

use crate::backend::device::OutputMode;
use crate::backend::kms::ImportError;
use crate::environment::{running_under_systemd, update_systemd_environment, Invocation};
use crate::startup::{execute_program, is_executable, run_startup_program, Startup};
use crate::utils::lists;
use crate::utils::search;
use crate::wayland::handlers::{dmabuf_imported, IdleInhibitState, ImportReply};
use crate::wayland::output_configuration::{
    head_is, of_other_manager, other_head, other_mode, without_mode, ConfigurationError, HeadView,
    OutputConfigurationState, PendingConfigurationInner, Use,
};

verus! {

/// Each change of the outputs has a number, one higher than the last. Clients that bind are told
/// the last one, and are listed behind the others.
pub proof fn law_changes_numbered()
    ensures
        forall|s: &mut OutputConfigurationState, r: u32|
            #[trigger] call_ensures(OutputConfigurationState::update, (s,), r) ==> {
                &&& r == s@.serial + 1
                &&& final(s)@.serial == r
                &&& final(s)@.outputs == s@.outputs
                &&& final(s)@.managers == s@.managers
                &&& final(s)@.heads == s@.heads
            },
        forall|s: &mut OutputConfigurationState, manager: u64, r: u32|
            #[trigger] call_ensures(OutputConfigurationState::bind, (s, manager), r) ==> {
                &&& r == s@.serial
                &&& final(s)@.serial == s@.serial
                &&& final(s)@.managers.len() == s@.managers.len() + 1
                &&& final(s)@.managers.last() == manager
                &&& forall|i: int|
                    0 <= i < s@.managers.len() ==> #[trigger] final(s)@.managers[i] == s@.managers[i]
                &&& final(s)@.outputs == s@.outputs
                &&& final(s)@.heads == s@.heads
            },
{
}

/// A client that stops is listed no more and has no heads any more; the others keep theirs.
pub proof fn law_client_stops(manager: u64, other: u64, head: HeadView)
    ensures
        forall|s: &mut OutputConfigurationState, u: ()|
            #[trigger] call_ensures(OutputConfigurationState::stop, (s, manager), u) ==> {
                &&& final(s)@.managers.contains(other) <==> s@.managers.contains(other) && other
                    != manager
                &&& final(s)@.heads.contains(head) <==> s@.heads.contains(head) && head.manager
                    != manager
                &&& final(s)@.outputs == s@.outputs
                &&& final(s)@.serial == s@.serial
            },
{
    assert forall|s: &mut OutputConfigurationState, u: ()|
        #[trigger] call_ensures(OutputConfigurationState::stop, (s, manager), u) implies {
        &&& final(s)@.managers.contains(other) <==> s@.managers.contains(other) && other != manager
        &&& final(s)@.heads.contains(head) <==> s@.heads.contains(head) && head.manager != manager
        &&& final(s)@.outputs == s@.outputs
        &&& final(s)@.serial == s@.serial
    } by {
        lists::lemma_filter_contains(s@.managers, lists::other_than(manager), other);
        lists::lemma_filter_members(s@.heads, of_other_manager(manager), head);
    }
}

/// A head that a client gives back is there no more, and neither is a mode of a head; everything
/// else stays.
pub proof fn law_given_back(obj: u64, mode: OutputMode, head: HeadView, m: OutputMode, i: int)
    ensures
        forall|s: &mut OutputConfigurationState, u: ()|
            #[trigger] call_ensures(OutputConfigurationState::release_head, (s, obj), u) ==> {
                &&& final(s)@.heads.contains(head) <==> s@.heads.contains(head) && head.obj != obj
                &&& final(s)@.managers == s@.managers
                &&& final(s)@.outputs == s@.outputs
                &&& final(s)@.serial == s@.serial
            },
        forall|s: &mut OutputConfigurationState, u: ()|
            #[trigger] call_ensures(OutputConfigurationState::release_mode, (s, obj, mode), u) ==> {
                &&& final(s)@.heads.len() == s@.heads.len()
                &&& 0 <= i < s@.heads.len() ==> {
                    let before = s@.heads[i];
                    let after = final(s)@.heads[i];
                    &&& after.obj == before.obj && after.manager == before.manager && after.output
                        == before.output
                    &&& before.obj != obj ==> after.modes == before.modes
                    &&& before.obj == obj ==> (after.modes.contains(m) <==> before.modes.contains(m)
                        && m != mode)
                }
                &&& final(s)@.managers == s@.managers
                &&& final(s)@.outputs == s@.outputs
                &&& final(s)@.serial == s@.serial
            },
{
    assert forall|s: &mut OutputConfigurationState, u: ()|
        #[trigger] call_ensures(OutputConfigurationState::release_head, (s, obj), u) implies {
        &&& final(s)@.heads.contains(head) <==> s@.heads.contains(head) && head.obj != obj
        &&& final(s)@.managers == s@.managers
        &&& final(s)@.outputs == s@.outputs
        &&& final(s)@.serial == s@.serial
    } by {
        lists::lemma_filter_members(s@.heads, other_head(obj), head);
    }
    assert forall|s: &mut OutputConfigurationState, u: ()|
        #[trigger] call_ensures(OutputConfigurationState::release_mode, (s, obj, mode), u) implies {
        &&& final(s)@.heads.len() == s@.heads.len()
        &&& 0 <= i < s@.heads.len() ==> {
            let before = s@.heads[i];
            let after = final(s)@.heads[i];
            &&& after.obj == before.obj && after.manager == before.manager && after.output
                == before.output
            &&& before.obj != obj ==> after.modes == before.modes
            &&& before.obj == obj ==> (after.modes.contains(m) <==> before.modes.contains(m) && m
                != mode)
        }
        &&& final(s)@.managers == s@.managers
        &&& final(s)@.outputs == s@.outputs
        &&& final(s)@.serial == s@.serial
    } by {
        if 0 <= i < s@.heads.len() {
            assert(final(s)@.heads[i] == without_mode(obj, mode)(s@.heads[i]));
            lists::lemma_filter_members(s@.heads[i].modes, other_mode(mode), m);
        }
    }
}

/// An output that is added is known from then on, behind the others; one that is known already is
/// not listed again.
pub proof fn law_outputs_listed(outputs: &Vec<u64>, x: u64)
    ensures
        forall|s: &mut OutputConfigurationState, u: ()|
            #[trigger] call_ensures(OutputConfigurationState::add_heads, (s, outputs), u) ==> {
                &&& final(s)@.outputs.contains(x) <==> s@.outputs.contains(x) || outputs@.contains(x)
                &&& s@.outputs.len() <= final(s)@.outputs.len()
                &&& forall|i: int|
                    0 <= i < s@.outputs.len() ==> #[trigger] final(s)@.outputs[i] == s@.outputs[i]
                &&& (forall|i: int|
                    0 <= i < outputs@.len() ==> s@.outputs.contains(#[trigger] outputs@[i]))
                    ==> final(s)@.outputs == s@.outputs
                &&& final(s)@.serial == s@.serial
            },
{
    assert forall|s: &mut OutputConfigurationState, u: ()|
        #[trigger] call_ensures(OutputConfigurationState::add_heads, (s, outputs), u) implies {
        &&& final(s)@.outputs.contains(x) <==> s@.outputs.contains(x) || outputs@.contains(x)
        &&& s@.outputs.len() <= final(s)@.outputs.len()
        &&& forall|i: int|
            0 <= i < s@.outputs.len() ==> #[trigger] final(s)@.outputs[i] == s@.outputs[i]
        &&& (forall|i: int|
            0 <= i < outputs@.len() ==> s@.outputs.contains(#[trigger] outputs@[i])) ==> final(s)@.outputs == s@.outputs
        &&& final(s)@.serial == s@.serial
    } by {
        let p = lists::not_among(s@.outputs);
        let new = lists::without_all(outputs@, s@.outputs);
        lists::lemma_filter_contains(outputs@, p, x);
        let all = s@.outputs + new;
        if s@.outputs.contains(x) {
            let k = choose|k: int| 0 <= k < s@.outputs.len() && s@.outputs[k] == x;
            assert(all[k] == x);
        }
        if new.contains(x) {
            let k = choose|k: int| 0 <= k < new.len() && new[k] == x;
            assert(all[s@.outputs.len() + k] == x);
        }
        if all.contains(x) {
            let k = choose|k: int| 0 <= k < all.len() && all[k] == x;
            if k >= s@.outputs.len() {
                assert(new[k - s@.outputs.len()] == x);
            }
        }
        if forall|i: int|
            0 <= i < outputs@.len() ==> s@.outputs.contains(#[trigger] outputs@[i]) {
            assert forall|y: u64| outputs@.contains(y) implies !p(y) by {
                let k = choose|k: int| 0 <= k < outputs@.len() && outputs@[k] == y;
                assert(s@.outputs.contains(outputs@[k]));
            }
            lists::lemma_filter_none(outputs@, p);
            assert(all =~= s@.outputs);
        }
    }
}

/// A head is configured once, be it to be enabled or to be disabled: the second time is refused
/// and changes nothing. The heads keep the order in which they came.
pub proof fn law_head_once(head: u64)
    ensures
        forall|p: &mut PendingConfigurationInner, r: Result<(), ConfigurationError>|
            #[trigger] call_ensures(PendingConfigurationInner::enable_head, (p, head), r) ==> {
                let known = exists|i: int| 0 <= i < p@.heads.len() && (#[trigger] p@.heads[i]).0 == head;
                &&& known ==> r == Err::<(), ConfigurationError>(
                    ConfigurationError::AlreadyConfiguredHead,
                ) && final(p)@ == p@
                &&& !known ==> r is Ok && final(p)@.heads.len() == p@.heads.len() + 1
                    && final(p)@.heads.last().0 == head && final(p)@.heads.last().1 is Some
                    && final(p)@.heads.drop_last() == p@.heads && final(p)@.serial == p@.serial
                    && final(p)@.used == p@.used
                &&& !known ==> {
                    let set = final(p)@.heads.last().1.unwrap();
                    &&& set.mode is None && set.position is None && set.transform is None
                    &&& set.scale is None && set.adaptive_sync is None
                }
            },
        forall|p: &mut PendingConfigurationInner, r: Result<(), ConfigurationError>|
            #[trigger] call_ensures(PendingConfigurationInner::disable_head, (p, head), r) ==> {
                let known = exists|i: int| 0 <= i < p@.heads.len() && (#[trigger] p@.heads[i]).0 == head;
                &&& known ==> r == Err::<(), ConfigurationError>(
                    ConfigurationError::AlreadyConfiguredHead,
                ) && final(p)@ == p@
                &&& !known ==> r is Ok && final(p)@.heads.len() == p@.heads.len() + 1
                    && final(p)@.heads.last().0 == head && final(p)@.heads.last().1 is None
                    && final(p)@.heads.drop_last() == p@.heads && final(p)@.serial == p@.serial
                    && final(p)@.used == p@.used
            },
{
    assert forall|p: &mut PendingConfigurationInner|
        #![trigger p@.heads]
        p@.place(head) is Some <==> exists|i: int|
            0 <= i < p@.heads.len() && (#[trigger] p@.heads[i]).0 == head by {
        let q = head_is(p@.heads, head);
        search::lemma_first_below(p@.heads.len(), q);
        if exists|i: int| 0 <= i < p@.heads.len() && (#[trigger] p@.heads[i]).0 == head {
            let i = choose|i: int| 0 <= i < p@.heads.len() && (#[trigger] p@.heads[i]).0 == head;
            assert(q(i));
        }
    }
    assert forall|p: &mut PendingConfigurationInner, r: Result<(), ConfigurationError>|
        #[trigger] call_ensures(PendingConfigurationInner::enable_head, (p, head), r) && r is Ok implies final(p)@.heads.drop_last()
        == p@.heads by {
        assert(final(p)@.heads.drop_last() =~= p@.heads);
    }
    assert forall|p: &mut PendingConfigurationInner, r: Result<(), ConfigurationError>|
        #[trigger] call_ensures(PendingConfigurationInner::disable_head, (p, head), r) && r is Ok implies final(p)@.heads.drop_last()
        == p@.heads by {
        assert(final(p)@.heads.drop_last() =~= p@.heads);
    }
}

/// A configuration is used once. It is told apart whether it was used before, or was put together
/// for outputs that have changed since; a new one that is out of date is known as such at once.
pub proof fn law_configuration_used()
    ensures
        forall|s: &OutputConfigurationState, p: &mut PendingConfigurationInner, r: Use|
            #[trigger] call_ensures(OutputConfigurationState::use_configuration, (s, p), r) ==> {
                &&& final(p)@.used
                &&& final(p)@.serial == p@.serial
                &&& final(p)@.heads == p@.heads
                &&& p@.used <==> r is AlreadyUsed
                &&& !p@.used && p@.serial != s@.serial <==> r is Cancelled
                &&& !p@.used && p@.serial == s@.serial && p@.heads.len() == 0 ==> (
                r matches Use::Ready(configs) && configs@.len() == 0)
            },
        forall|s: &OutputConfigurationState, serial: u32, r: (PendingConfigurationInner, bool)|
            #[trigger] call_ensures(OutputConfigurationState::create_configuration, (s, serial), r)
                ==> {
                &&& r.1 <==> serial != s@.serial
                &&& r.0@.serial == serial
                &&& !r.0@.used
                &&& r.0@.heads.len() == 0
            },
{
}

/// What keeps the session from becoming idle: every surface that asked for that and has not taken
/// it back.
pub proof fn law_idle_inhibited(surface: u64)
    ensures
        forall|s: &mut IdleInhibitState, u: ()|
            #[trigger] call_ensures(IdleInhibitState::inhibit, (s, surface), u) ==> final(s)@ != Set::<
                u64,
            >::empty() && final(s)@.contains(surface) && (forall|x: u64|
                x != surface ==> (#[trigger] final(s)@.contains(x) <==> s@.contains(x))),
        forall|s: &mut IdleInhibitState, u: ()|
            #[trigger] call_ensures(IdleInhibitState::uninhibit, (s, surface), u) ==> !final(s)@.contains(surface) && (forall|x: u64|
                x != surface ==> (#[trigger] final(s)@.contains(x) <==> s@.contains(x))),
        forall|s: &IdleInhibitState, r: bool|
            #[trigger] call_ensures(IdleInhibitState::is_inhibited, (s,), r) && s@.contains(surface)
                ==> r,
{
    assert forall|s: &mut IdleInhibitState, u: ()|
        #[trigger] call_ensures(IdleInhibitState::inhibit, (s, surface), u) implies final(s)@ != Set::<
        u64,
    >::empty() by {
        assert(final(s)@.contains(surface));
    }
}

/// A buffer is reported as imported if a device took it, and as failed otherwise.
pub proof fn law_import_reported(result: Option<Result<u64, ImportError>>, r: ImportReply)
    requires
        call_ensures(dmabuf_imported, (result,), r),
    ensures
        result is None ==> r is Failed,
        result matches Some(outcome) ==> (outcome is Ok <==> r is Successful),
{
}

/// A file may be executed if one of its three execute bits is set. A program that is there and may
/// not be executed is not started; one that is not there as a file may still be found by name.
pub proof fn law_executable(
    bits: u32,
    r: bool,
    unknown: bool,
    present: bool,
    starts: bool,
    starts_unknown: bool,
)
    requires
        call_ensures(is_executable, (Some(bits),), r),
        call_ensures(is_executable, (None::<u32>,), unknown),
        call_ensures(execute_program, (present, Some(bits)), starts),
        call_ensures(execute_program, (present, None::<u32>), starts_unknown),
    ensures
        r <==> (bits / 64) % 2 == 1 || (bits / 8) % 2 == 1 || bits % 2 == 1,
        !unknown,
        starts <==> !present || r,
        starts_unknown <==> !present,
{
    assert((bits & 64 != 0) == ((bits / 64) % 2 == 1)) by (bit_vector);
    assert((bits & 8 != 0) == ((bits / 8) % 2 == 1)) by (bit_vector);
    assert((bits & 1 != 0) == (bits % 2 == 1)) by (bit_vector);
}

/// A program that is named is the one to start with. Else it is a candidate that is there.
pub proof fn law_startup(named: bool, present: &Vec<bool>, r: Startup)
    requires
        call_ensures(run_startup_program, (named, present), r),
    ensures
        named <==> r is Named,
        r matches Startup::Found(k) ==> k < present@.len() && present@[k as int],
{
}

/// The session runs under systemd if its variable is set or its directory is there, and systemd is
/// told of the environment only then.
pub proof fn law_under_systemd(
    set: bool,
    exists: bool,
    r: bool,
    socket: &str,
    under: bool,
    command: Option<Invocation>,
)
    requires
        call_ensures(running_under_systemd, (set, exists), r),
        call_ensures(update_systemd_environment, (socket, under), command),
    ensures
        r <==> set || exists,
        command is Some <==> under,
{
}

} // verus!
