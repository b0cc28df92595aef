//! What holds of the shell as a whole.

use vstd::prelude::*;

use crate::shell::arrange::{offset_of, Frame};
use crate::shell::model::{
    holds, named, number_free, region_outputs, shows, workspace_id, Command, ShellView,
};
use crate::shell::output::OutputView;
use crate::shell::tiling::{has_room_for, law_tile_inside, tile_rect, WindowId};
use crate::shell::virtual_output::{
    ids_distinct, ids_of, lemma_position_of_member, lemma_shown_on_ids, lemma_view_position,
    shown_on, ManagerView, VirtualOutputView,
};
use crate::shell::workspace::{
    lemma_tiled_frame, record_all, LayoutMode, VirtualOutputId, WorkspaceId, WorkspaceView,
    TAB_HEIGHT,
};
use crate::utils::coordinates::VirtualOutputRelativeRect;
use crate::utils::geometry::{fits_i32, Point, Rectangle};
use crate::utils::lists;
use crate::utils::lists::{
    first_position, lemma_filter_contains, lemma_filter_no_duplicates, lemma_first_position,
    without_all,
};
use crate::utils::search::{
    first_below, lemma_first_below, lemma_is_first_below, lemma_none_below,
};
use crate::utils::text::decimal;

verus! {

/// What holds of every shell that the library builds.
pub open spec fn valid(s: ShellView) -> bool {
    &&& s.names_distinct()
    &&& s.actives_valid()
    &&& ids_distinct(s.manager.outputs)
    &&& s.has_room()
}

/// Whether there is a workspace to put in the place of `index`: one that is not visible,
/// or a number to name a new one by.
pub open spec fn has_fallback(s: ShellView, index: int) -> bool {
    first_below(s.workspaces.len(), s.spare(index)) is Some || first_below(
        100,
        number_free(s.workspaces),
    ) is Some
}

/// Finding or creating a workspace: it has the name, and nothing shows it if it is new.
pub proof fn lemma_find_or_create(s: ShellView, name: Seq<char>)
    requires
        s.names_distinct(),
        s.actives_valid(),
    ensures
        ({
            let (t, index) = s.find_or_create(name);
            &&& t.names_distinct()
            &&& t.actives_valid()
            &&& t.manager == s.manager
            &&& 0 <= index < t.workspaces.len() <= s.workspaces.len() + 1
            &&& s.workspaces.len() <= t.workspaces.len()
            &&& t.workspaces[index].name == name
            &&& t.workspace_named(name) == Some(index)
            &&& s.workspace_named(name) is None ==> index == s.workspaces.len()
            &&& forall|i: int|
                0 <= i < s.workspaces.len() ==> #[trigger] t.workspaces[i] == s.workspaces[i]
        }),
{
    let p = named(s.workspaces, name);
    lemma_first_below(s.workspaces.len(), p);
    let (t, index) = s.find_or_create(name);
    if s.workspace_named(name) is None {
        let q = named(t.workspaces, name);
        assert forall|j: int| 0 <= j < index implies !(#[trigger] q(j)) by {
            assert(!p(j));
            assert(t.workspaces[j] == s.workspaces[j]);
        }
        lemma_is_first_below(t.workspaces.len(), q, index);
        assert forall|i: int, j: int| 0 <= i < j < t.workspaces.len() implies (
        #[trigger] t.workspaces[i]).name != (#[trigger] t.workspaces[j]).name by {
            assert(t.workspaces[i] == s.workspaces[i]);
            if j < s.workspaces.len() {
                assert(t.workspaces[j] == s.workspaces[j]);
            } else {
                assert(!p(i));
            }
        }
    }
}

/// A workspace that is not visible is active nowhere.
proof fn lemma_invisible(s: ShellView, index: int)
    requires
        !s.visible(index),
    ensures
        forall|j: int|
            0 <= j < s.manager.outputs.len() ==> (#[trigger] s.manager.outputs[j]).active != Some(
                workspace_id(index),
            ),
{
    let p = shows(s.manager.outputs, workspace_id(index));
    lemma_first_below(s.manager.outputs.len(), p);
    assert forall|j: int| 0 <= j < s.manager.outputs.len() implies (
    #[trigger] s.manager.outputs[j]).active != Some(workspace_id(index)) by {
        assert(!p(j));
    }
}

/// The workspace that takes another's place is there and is active nowhere.
proof fn lemma_fallback_fresh(s: ShellView, index: int)
    requires
        valid(s),
        0 <= index < s.workspaces.len(),
        has_fallback(s, index),
    ensures
        ({
            let (t, fallback) = s.find_fallback(index);
            &&& t.names_distinct()
            &&& t.actives_valid()
            &&& t.manager == s.manager
            &&& 0 <= fallback < t.workspaces.len() <= s.workspaces.len() + 1
            &&& s.workspaces.len() <= t.workspaces.len()
            &&& fallback != index
            &&& forall|j: int|
                0 <= j < s.manager.outputs.len() ==> (#[trigger] s.manager.outputs[j]).active
                    != Some(workspace_id(fallback))
            &&& forall|i: int|
                0 <= i < s.workspaces.len() ==> #[trigger] t.workspaces[i] == s.workspaces[i]
        }),
{
    let p = s.spare(index);
    lemma_first_below(s.workspaces.len(), p);
    match first_below(s.workspaces.len(), p) {
        Some(i) => {
            lemma_invisible(s, i);
        },
        None => {
            let q = number_free(s.workspaces);
            lemma_first_below(100, q);
            let k = first_below(100, q).unwrap();
            assert(q(k));
            let name = decimal(s.free_number());
            assert(s.workspace_named(name) is None);
            lemma_find_or_create(s, name);
            let fallback = s.workspaces.len() as int;
            assert forall|j: int| 0 <= j < s.manager.outputs.len() implies (
            #[trigger] s.manager.outputs[j]).active != Some(workspace_id(fallback)) by {
                assert(s.manager.outputs[j].active matches Some(id) ==> id.0
                    <= s.workspaces.len());
            }
        },
    }
}

/// Showing a workspace that is active nowhere else keeps workspaces and virtual outputs
/// one to one.
proof fn lemma_set_active_one_to_one(s: ShellView, id: VirtualOutputId, index: int)
    requires
        ids_distinct(s.manager.outputs),
        s.one_to_one(),
        forall|j: int|
            0 <= j < s.manager.outputs.len() && (#[trigger] s.manager.outputs[j]).id != id
                ==> s.manager.outputs[j].active != Some(workspace_id(index)),
    ensures
        s.with_manager(s.manager.set_active(id, Some(workspace_id(index)))).one_to_one(),
        ids_distinct(s.manager.set_active(id, Some(workspace_id(index))).outputs),
        s.manager.set_active(id, Some(workspace_id(index))).outputs.len()
            == s.manager.outputs.len(),
        forall|j: int|
            0 <= j < s.manager.outputs.len() ==> (#[trigger] s.manager.set_active(
                id,
                Some(workspace_id(index)),
            ).outputs[j]).id == s.manager.outputs[j].id && s.manager.set_active(
                id,
                Some(workspace_id(index)),
            ).outputs[j].active == (if s.manager.outputs[j].id == id {
                Some(workspace_id(index))
            } else {
                s.manager.outputs[j].active
            }),
{
    let outs = s.manager.outputs;
    lemma_view_position(outs, id);
    let after = s.manager.set_active(id, Some(workspace_id(index))).outputs;
    assert forall|j: int| 0 <= j < outs.len() implies (#[trigger] after[j]).id == outs[j].id
        && after[j].active == (if outs[j].id == id {
        Some(workspace_id(index))
    } else {
        outs[j].active
    }) by {
        match s.manager.position(id) {
            Some(i) => {
                if j != i && outs[j].id == id {
                    if j < i {
                        assert(outs[j].id != outs[i].id);
                    } else {
                        assert(outs[i].id != outs[j].id);
                    }
                }
            },
            None => {},
        }
    }
    assert forall|i: int, j: int| 0 <= i < j < after.len() implies (#[trigger] after[i]).id != (
    #[trigger] after[j]).id by {
        assert(outs[i].id != outs[j].id);
    }
    let t = s.with_manager(s.manager.set_active(id, Some(workspace_id(index))));
    assert forall|i: int, j: int|
        0 <= i < j < t.manager.outputs.len() && (
        #[trigger] t.manager.outputs[i]).active is Some implies t.manager.outputs[i].active != (
    #[trigger] t.manager.outputs[j]).active by {
        assert(after[i].id != after[j].id);
        assert(outs[i].active is Some ==> outs[i].active != outs[j].active);
    }
}

/// Nothing shows a workspace that is new.
proof fn lemma_new_invisible(s: ShellView, name: Seq<char>)
    requires
        s.actives_valid(),
        s.has_room(),
        s.workspace_named(name) is None,
    ensures
        !s.find_or_create(name).0.visible(s.find_or_create(name).1),
{
    let (t, index) = s.find_or_create(name);
    let p = shows(t.manager.outputs, workspace_id(index));
    assert forall|j: int| 0 <= j < t.manager.outputs.len() implies !(#[trigger] p(j)) by {
        assert(s.manager.outputs[j].active matches Some(ws) ==> ws.0 <= s.workspaces.len());
    }
    lemma_none_below(t.manager.outputs.len(), p);
}

/// Whether a virtual output can be switched to the workspace of a name: if there is such a
/// workspace, there is another one to put in its place.
pub open spec fn can_switch(s: ShellView, name: Seq<char>) -> bool {
    s.workspace_named(name) matches Some(i) ==> has_fallback(s, i)
}

/// Switching a virtual output to a workspace keeps workspaces and virtual outputs one to
/// one: afterwards this virtual output shows the workspace, and no other does. The workspace
/// knows this virtual output, and every other virtual output that did not show the workspace
/// still shows what it showed.
pub proof fn law_switch_one_to_one(s: ShellView, id: VirtualOutputId, name: Seq<char>)
    requires
        valid(s),
        s.one_to_one(),
        s.manager.get(id) is Some,
        can_switch(s, name),
    ensures
        ({
            let t = s.switch_on_virtual(id, name).0;
            let index = s.find_or_create(name).1;
            &&& t.one_to_one()
            &&& t.workspaces[index].name == name
            &&& t.workspaces[index].virtual_output == Some(id)
            &&& t.manager.outputs.len() == s.manager.outputs.len()
            &&& forall|j: int|
                0 <= j < t.manager.outputs.len() ==> ((
                #[trigger] t.manager.outputs[j]).active == Some(workspace_id(index))
                    <==> t.manager.outputs[j].id == id) && t.manager.outputs[j].id
                    == s.manager.outputs[j].id && (s.manager.outputs[j].id != id
                    && s.manager.outputs[j].active != Some(workspace_id(index))
                    ==> t.manager.outputs[j].active == s.manager.outputs[j].active)
        }),
{
    lemma_find_or_create(s, name);
    let (s1, index) = s.find_or_create(name);
    if s.workspace_named(name) is None {
        lemma_new_invisible(s, name);
    }
    let outs = s1.manager.outputs;
    let p = shows(outs, workspace_id(index));
    lemma_first_below(outs.len(), p);
    lemma_view_position(outs, id);
    let (s2, released) = s1.release(id, index);
    match s1.owner(index) {
        Some(j) => {
            assert(p(j));
            if outs[j].id != id {
                lemma_fallback_fresh(s1, index);
                let (t, fallback) = s1.find_fallback(index);
                lemma_set_active_one_to_one(t, outs[j].id, fallback);
                assert forall|k: int|
                    0 <= k < s2.manager.outputs.len() && (
                    #[trigger] s2.manager.outputs[k]).id
                        != id implies s2.manager.outputs[k].active != Some(
                    workspace_id(index),
                ) by {
                    if outs[k].id != outs[j].id {
                        if k < j {
                            assert(!p(k));
                        } else {
                            assert(outs[j].active != outs[k].active);
                        }
                    } else {
                        assert(s2.manager.outputs[k].active == Some(workspace_id(fallback)));
                    }
                }
            } else {
                assert forall|k: int|
                    0 <= k < outs.len() && (#[trigger] outs[k]).id
                        != id implies outs[k].active != Some(workspace_id(index)) by {
                    if k < j {
                        assert(!p(k));
                    } else {
                        assert(outs[j].active != outs[k].active);
                    }
                }
            }
        },
        None => {
            lemma_invisible(s1, index);
        },
    }
    assert forall|k: int|
        0 <= k < outs.len() && (#[trigger] outs[k]).id != id && outs[k].active != Some(
            workspace_id(index),
        ) implies s2.manager.outputs[k].active == outs[k].active by {
        match s1.owner(index) {
            Some(j) => {
                assert(p(j));
                if k < j {
                    assert(outs[k].id != outs[j].id);
                } else if j < k {
                    assert(outs[j].id != outs[k].id);
                }
            },
            None => {},
        }
    }
    lemma_set_active_one_to_one(s2, id, index);
    lemma_view_position(s2.manager.outputs, id);
    let position = s1.manager.position(id).unwrap();
    assert(s2.manager.outputs[position].id == id);
    let t = s.switch_on_virtual(id, name).0;
    assert forall|k: int|
        0 <= k < t.manager.outputs.len() && s.manager.outputs[k].id != id
            && s.manager.outputs[k].active != Some(workspace_id(index)) implies (
    #[trigger] t.manager.outputs[k]).active == s.manager.outputs[k].active by {
        assert(outs[k].id != id);
    }
}

/// Showing a workspace changes nothing else of the virtual outputs.
proof fn lemma_set_active_keeps(m: ManagerView, id: VirtualOutputId, workspace: Option<WorkspaceId>)
    requires
        ids_distinct(m.outputs),
    ensures
        m.set_active(id, workspace).outputs.len() == m.outputs.len(),
        ids_distinct(m.set_active(id, workspace).outputs),
        forall|j: int|
            0 <= j < m.outputs.len() ==> (#[trigger] m.set_active(id, workspace).outputs[j]).id
                == m.outputs[j].id && m.set_active(id, workspace).outputs[j].geometry
                == m.outputs[j].geometry,
        m.set_active(id, workspace).position(id) == m.position(id),
{
    lemma_view_position(m.outputs, id);
    let n = m.set_active(id, workspace);
    assert forall|j: int| 0 <= j < m.outputs.len() implies (#[trigger] n.outputs[j]).id
        == m.outputs[j].id && n.outputs[j].geometry == m.outputs[j].geometry by {}
    assert forall|i: int, j: int| 0 <= i < j < n.outputs.len() implies (
    #[trigger] n.outputs[i]).id != (#[trigger] n.outputs[j]).id by {
        assert(m.outputs[i].id != m.outputs[j].id);
    }
    lemma_view_position(n.outputs, id);
    match m.position(id) {
        Some(i) => {
            assert(n.outputs[i].id == id);
        },
        None => {},
    }
}

/// The windows of a workspace, where it is one of the shell's, or none, where it is a new one.
pub open spec fn windows_before(s: ShellView, i: int) -> Seq<WindowId> {
    if i < s.workspaces.len() {
        s.workspaces[i].windows
    } else {
        Seq::empty()
    }
}

/// Switching a virtual output to a workspace moves no window: workspaces hold what they held,
/// new ones hold nothing, and the virtual output shows the workspace of the name.
pub proof fn lemma_switch_moves_nothing(s: ShellView, id: VirtualOutputId, name: Seq<char>)
    requires
        valid(s),
        s.manager.get(id) is Some,
    ensures
        ({
            let t = s.switch_on_virtual(id, name).0;
            let index = s.find_or_create(name).1;
            &&& s.workspaces.len() <= t.workspaces.len() <= s.workspaces.len() + 2
            &&& 0 <= index < t.workspaces.len()
            &&& t.workspaces[index].name == name
            &&& t.names_distinct()
            &&& t.actives_valid()
            &&& ids_distinct(t.manager.outputs)
            &&& t.manager.get(id) matches Some(v) && v.active == Some(workspace_id(index))
            &&& forall|i: int|
                0 <= i < t.workspaces.len() ==> (#[trigger] t.workspaces[i]).windows
                    == windows_before(s, i)
        }),
{
    lemma_find_or_create(s, name);
    let (s1, index) = s.find_or_create(name);
    let (s2, released) = s1.release(id, index);
    let t = s.switch_on_virtual(id, name).0;
    lemma_view_position(s1.manager.outputs, id);
    lemma_first_below(
        s1.manager.outputs.len(),
        shows(s1.manager.outputs, workspace_id(index)),
    );
    match s1.owner(index) {
        Some(j) => {
            if s1.manager.outputs[j].id != id {
                lemma_first_below(s1.workspaces.len(), s1.spare(index));
                lemma_find_or_create(s1, decimal(s1.free_number()));
                let fallback = s1.find_fallback(index).1;
                assert(0 <= fallback < s2.workspaces.len() <= s.workspaces.len() + 2);
                assert(1 <= workspace_id(fallback).0 <= s2.workspaces.len());
                lemma_view_position(s1.manager.outputs, s1.manager.outputs[j].id);
                lemma_set_active_keeps(
                    s1.manager,
                    s1.manager.outputs[j].id,
                    Some(workspace_id(fallback)),
                );
            }
        },
        None => {},
    }
    let position = s1.manager.position(id).unwrap();
    assert(s2.manager.outputs[position].id == id);
    lemma_position_of_member(s2.manager.outputs, position);
    lemma_set_active_keeps(s2.manager, id, Some(workspace_id(index)));
    assert(s2.names_distinct());
    assert forall|j: int| 0 <= j < s2.manager.outputs.len() implies ((
    #[trigger] s2.manager.outputs[j]).active matches Some(ws) ==> 1 <= ws.0
        <= s2.workspaces.len()) by {
        assert(s1.manager.outputs[j].active matches Some(ws) ==> 1 <= ws.0
            <= s1.workspaces.len());
    }
    assert forall|j: int| 0 <= j < t.manager.outputs.len() implies ((
    #[trigger] t.manager.outputs[j]).active matches Some(ws) ==> 1 <= ws.0
        <= t.workspaces.len()) by {
        assert(s2.manager.outputs[j].active matches Some(ws) ==> 1 <= ws.0
            <= s2.workspaces.len());
    }
    assert forall|i: int| 0 <= i < s2.workspaces.len() implies (
    #[trigger] s2.workspaces[i]).windows == windows_before(s, i) by {
        if i < s1.workspaces.len() {
            assert(s2.workspaces[i] == s1.workspaces[i]);
            if i < s.workspaces.len() {
                assert(s1.workspaces[i] == s.workspaces[i]);
            }
        }
    }
    assert forall|i: int| 0 <= i < t.workspaces.len() implies (#[trigger] t.workspaces[i]).windows
        == s2.workspaces[i].windows && t.workspaces[i].name == s2.workspaces[i].name by {}
    assert forall|i: int, j: int| 0 <= i < j < t.workspaces.len() implies (
    #[trigger] t.workspaces[i]).name != (#[trigger] t.workspaces[j]).name by {
        assert(s2.workspaces[i].name != s2.workspaces[j].name);
    }
    assert(s2.workspaces[index] == s1.workspaces[index]);
}

/// Switching a virtual output to the workspace that it already shows changes nothing but
/// the marks for arrangement, which the first switch has set.
pub proof fn law_switch_idempotent(s: ShellView, id: VirtualOutputId, name: Seq<char>)
    requires
        valid(s),
        s.one_to_one(),
        s.manager.get(id) is Some,
        can_switch(s, name),
    ensures
        ({
            let t = s.switch_on_virtual(id, name).0;
            t.switch_on_virtual(id, name).0 == t
        }),
{
    law_switch_one_to_one(s, id, name);
    lemma_find_or_create(s, name);
    let (s1, index) = s.find_or_create(name);
    let t = s.switch_on_virtual(id, name).0;
    let (s2, released) = s1.release(id, index);
    let position = s1.manager.position(id).unwrap();
    lemma_view_position(s1.manager.outputs, id);
    if s.workspace_named(name) is None {
        lemma_new_invisible(s, name);
    }
    if s1.owner(index) is Some {
        let p = shows(s1.manager.outputs, workspace_id(index));
        lemma_first_below(s1.manager.outputs.len(), p);
        lemma_fallback_fresh(s1, index);
        let owner = s1.manager.outputs[s1.owner(index).unwrap()].id;
        let fallback = s1.find_fallback(index).1;
        lemma_set_active_keeps(s1.manager, owner, Some(workspace_id(fallback)));
    }
    assert(s2.manager.outputs[position].id == id);
    lemma_position_of_member(s2.manager.outputs, position);
    lemma_set_active_keeps(s2.manager, id, Some(workspace_id(index)));
    assert forall|i: int| 0 <= i < s1.workspaces.len() implies #[trigger] s2.workspaces[i]
        == s1.workspaces[i] by {}
    assert forall|i: int| 0 <= i < t.workspaces.len() implies (#[trigger] t.workspaces[i]).name
        == s2.workspaces[i].name by {}
    let q = named(t.workspaces, name);
    assert(q(index));
    assert forall|j: int| 0 <= j < index implies !(#[trigger] q(j)) by {
        assert(s1.workspaces[j].name != s1.workspaces[index].name);
        assert(t.workspaces[j].name == s2.workspaces[j].name);
    }
    lemma_is_first_below(t.workspaces.len(), q, index);
    assert(t.find_or_create(name) == (t, index));
    lemma_view_position(s1.manager.outputs, id);
    lemma_view_position(s2.manager.outputs, id);
    lemma_view_position(t.manager.outputs, id);
    let p = shows(t.manager.outputs, workspace_id(index));
    lemma_first_below(t.manager.outputs.len(), p);
    assert(s1.manager.outputs[position].id == id);
    assert(p(position));
    let owner = t.owner(index).unwrap();
    assert(p(owner));
    assert(t.manager.outputs[owner].id == id);
    assert(t.manager.outputs[position].id == s.manager.outputs[position].id);
    assert forall|i: int, j: int| 0 <= i < j < t.manager.outputs.len() implies (
    #[trigger] t.manager.outputs[i]).id != (#[trigger] t.manager.outputs[j]).id by {
        assert(s.manager.outputs[i].id != s.manager.outputs[j].id);
    }
    lemma_position_of_member(t.manager.outputs, position);
    lemma_position_of_member(t.manager.outputs, owner);
    assert(t.release(id, index) == (t, Seq::<Command>::empty()));
    let v = t.manager.outputs[position];
    assert(t.manager.position(id) == Some(position));
    assert(t.manager.outputs.update(
        position,
        VirtualOutputView { active: Some(workspace_id(index)), ..v },
    ) =~= t.manager.outputs);
    assert(t.show(id, index).workspaces =~= t.workspaces);
}

/// Removing a window takes it out of every workspace and all that the workspace remembers of
/// it, and takes the focus from it; other windows stay where they are.
pub proof fn law_remove_window(s: ShellView, window: WindowId, dead: Seq<WindowId>)
    ensures
        ({
            let t = s.remove_window(window, dead);
            &&& t.workspaces.len() == s.workspaces.len()
            &&& s.windows_apart() ==> t.windows_apart()
            &&& t.focused == (if s.focused == Some(window) {
                None
            } else {
                s.focused
            })
            &&& forall|i: int|
                0 <= i < t.workspaces.len() ==> !(#[trigger] t.workspaces[i]).windows.contains(
                    window,
                ) && !t.workspaces[i].focus_stack.contains(window)
                    && !t.workspaces[i].floating.contains(window)
                    && !t.workspaces[i].rectangles.contains_key(window)
                    && t.workspaces[i].fullscreen != Some(window)
            &&& forall|i: int, w: WindowId|
                0 <= i < t.workspaces.len() && w != window ==> (
                #[trigger] t.workspaces[i].windows.contains(w)
                    <==> s.workspaces[i].windows.contains(w))
        }),
{
    let t = s.remove_window(window, dead);
    assert forall|i: int, w: WindowId| 0 <= i < t.workspaces.len() implies (
    #[trigger] t.workspaces[i].windows.contains(w) <==> s.workspaces[i].windows.contains(w) && w
        != window) by {
        lemma_filter_contains(s.workspaces[i].windows, lists::other_than(window), w);
    }
    assert forall|i: int| 0 <= i < t.workspaces.len() implies !(
    #[trigger] t.workspaces[i]).windows.contains(window) && !t.workspaces[i].focus_stack.contains(
        window,
    ) && !t.workspaces[i].floating.contains(window) && !t.workspaces[i].rectangles.contains_key(
        window,
    ) && t.workspaces[i].fullscreen != Some(window) by {
        lemma_filter_contains(s.workspaces[i].windows, lists::other_than(window), window);
        lemma_filter_contains(
            without_all(s.workspaces[i].focus_stack, dead),
            lists::other_than(window),
            window,
        );
    }
    if s.windows_apart() {
        assert forall|i: int, j: int, w: WindowId|
            #![trigger t.workspaces[i].windows.contains(w), t.workspaces[j]]
            0 <= i < t.workspaces.len() && 0 <= j < t.workspaces.len() && i != j
                && t.workspaces[i].windows.contains(w) implies !t.workspaces[j].windows.contains(
            w,
        ) by {
            assert(s.workspaces[i].windows.contains(w));
            assert(!s.workspaces[j].windows.contains(w));
        }
    }
}

/// Removing a window affects an output exactly if it shows a part of a virtual output whose
/// workspace holds the window.
pub proof fn law_affected_outputs(s: ShellView, window: WindowId, output: u64)
    ensures
        s.affected_outputs(window).contains(output) <==> exists|j: int|
            0 <= j < s.manager.outputs.len() && s.shows_window(
                #[trigger] s.manager.outputs[j],
                window,
            ) && region_outputs(s.manager.outputs[j].regions).contains(output),
{
    lemma_outputs_showing(s, window, output, s.manager.outputs.len() as int);
}

proof fn lemma_outputs_showing(s: ShellView, window: WindowId, output: u64, k: int)
    requires
        0 <= k <= s.manager.outputs.len(),
    ensures
        s.outputs_showing(window, k).contains(output) <==> exists|j: int|
            0 <= j < k && s.shows_window(#[trigger] s.manager.outputs[j], window)
                && region_outputs(s.manager.outputs[j].regions).contains(output),
    decreases k,
{
    if k > 0 {
        lemma_outputs_showing(s, window, output, k - 1);
        let v = s.manager.outputs[k - 1];
        let before = s.outputs_showing(window, k - 1);
        let more = region_outputs(v.regions);
        if s.shows_window(v, window) {
            let all = before + more;
            if all.contains(output) {
                let i = choose|i: int| 0 <= i < all.len() && all[i] == output;
                if i < before.len() {
                    assert(before[i] == output);
                } else {
                    assert(more[i - before.len()] == output);
                }
            }
            if before.contains(output) {
                let i = choose|i: int| 0 <= i < before.len() && before[i] == output;
                assert(all[i] == output);
            }
            if more.contains(output) {
                let i = choose|i: int| 0 <= i < more.len() && more[i] == output;
                assert(all[before.len() + i] == output);
            }
        }
    }
}

/// Focusing a window moves no window.
proof fn lemma_focus_moves_nothing(s: ShellView, window: WindowId)
    ensures
        s.set_focus(window).workspaces.len() == s.workspaces.len(),
        forall|i: int|
            0 <= i < s.workspaces.len() ==> (#[trigger] s.set_focus(window).workspaces[i]).windows
                == s.workspaces[i].windows && s.set_focus(window).workspaces[i].floating
                == s.workspaces[i].floating && s.set_focus(window).workspaces[i].name
                == s.workspaces[i].name,
        s.set_focus(window).focused == Some(window),
        s.set_focus(window).manager == s.manager,
{
    let t = ShellView { focused: Some(window), ..s }.update_focused_output();
    let p = holds(t.workspaces, window);
    lemma_first_below(t.workspaces.len(), p);
}

/// A window that is added to one workspace and is in no other leaves workspaces apart.
proof fn lemma_added_apart(s: ShellView, t: ShellView, index: int, window: WindowId)
    requires
        0 <= index < s.workspaces.len(),
        t.workspaces.len() == s.workspaces.len(),
        forall|i: int|
            0 <= i < s.workspaces.len() ==> !(#[trigger] s.workspaces[i]).windows.contains(window),
        forall|i: int|
            0 <= i < s.workspaces.len() && i != index ==> (
            #[trigger] t.workspaces[i]).windows == s.workspaces[i].windows,
        t.workspaces[index].windows == s.workspaces[index].windows.push(window),
    ensures
        s.windows_apart() ==> t.windows_apart(),
        t.workspaces[index].windows.contains(window),
        forall|i: int|
            0 <= i < t.workspaces.len() && i != index ==> !(
            #[trigger] t.workspaces[i]).windows.contains(window),
{
    let a = s.workspaces[index].windows;
    let b = a.push(window);
    assert(b[b.len() - 1] == window);
    assert forall|w: WindowId| b.contains(w) == (a.contains(w) || w == window) by {
        if b.contains(w) {
            let k = choose|k: int| 0 <= k < b.len() && b[k] == w;
            if k < a.len() {
                assert(a[k] == w);
            }
        }
        if a.contains(w) {
            let k = choose|k: int| 0 <= k < a.len() && a[k] == w;
            assert(b[k] == w);
        }
    }
    assert forall|i: int| 0 <= i < t.workspaces.len() && i != index implies !(
    #[trigger] t.workspaces[i]).windows.contains(window) by {
        assert(!s.workspaces[i].windows.contains(window));
    }
    assert forall|i: int, j: int, w: WindowId|
        #![trigger t.workspaces[i].windows.contains(w), t.workspaces[j]]
        s.windows_apart() && 0 <= i < t.workspaces.len() && 0 <= j < t.workspaces.len() && i != j
            && t.workspaces[i].windows.contains(w) implies !t.workspaces[j].windows.contains(
        w,
    ) by {
        if w != window {
            assert(s.workspaces[i].windows.contains(w));
            assert(!s.workspaces[j].windows.contains(w));
        } else {
            if i != index {
                assert(!s.workspaces[i].windows.contains(w));
            }
            assert(!s.workspaces[j].windows.contains(w));
        }
    }
}

/// Moving a window to a workspace puts it there, takes it from wherever it was, focuses
/// it, and keeps windows apart: afterwards the workspace of the name holds it and no other
/// does.
pub proof fn law_move_window(
    s: ShellView,
    window: WindowId,
    name: Seq<char>,
    output: Seq<char>,
    floating: bool,
    dead: Seq<WindowId>,
)
    requires
        valid(s),
    ensures
        ({
            let t = s.move_window(window, name, output, floating, dead).0;
            &&& s.windows_apart() ==> t.windows_apart()
            &&& t.focused == Some(window)
            &&& t.workspace_named(name) is Some
            &&& forall|i: int|
                0 <= i < t.workspaces.len() ==> ((
                #[trigger] t.workspaces[i]).windows.contains(window) <==> t.workspaces[i].name
                    == name)
        }),
{
    law_remove_window(s, window, dead);
    let removed = s.remove_window(window, dead);
    assert forall|i: int| 0 <= i < removed.workspaces.len() implies (
    #[trigger] removed.workspaces[i]).name == s.workspaces[i].name by {}
    assert forall|i: int, j: int| 0 <= i < j < removed.workspaces.len() implies (
    #[trigger] removed.workspaces[i]).name != (#[trigger] removed.workspaces[j]).name by {
        assert(s.workspaces[i].name != s.workspaces[j].name);
    }
    assert(removed.manager == s.manager);
    assert(removed.actives_valid()) by {
        assert forall|j: int| 0 <= j < removed.manager.outputs.len() implies ((
        #[trigger] removed.manager.outputs[j]).active matches Some(id) ==> 1 <= id.0
            <= removed.workspaces.len()) by {
            assert(s.manager.outputs[j].active matches Some(id) ==> 1 <= id.0
                <= s.workspaces.len());
        }
    }
    lemma_find_or_create(removed, name);
    let (c, index) = removed.find_or_create(name);
    assert forall|i: int| 0 <= i < c.workspaces.len() implies !(
    #[trigger] c.workspaces[i]).windows.contains(window) by {
        if i < removed.workspaces.len() {
            assert(c.workspaces[i] == removed.workspaces[i]);
        }
    }
    assert forall|i: int, j: int, w: WindowId|
        #![trigger c.workspaces[i].windows.contains(w), c.workspaces[j]]
        s.windows_apart() && 0 <= i < c.workspaces.len() && 0 <= j < c.workspaces.len() && i != j
            && c.workspaces[i].windows.contains(w) implies !c.workspaces[j].windows.contains(
        w,
    ) by {
        if i < removed.workspaces.len() && j < removed.workspaces.len() {
            assert(c.workspaces[i] == removed.workspaces[i]);
            assert(c.workspaces[j] == removed.workspaces[j]);
            assert(removed.workspaces[i].windows.contains(w));
        }
    }
    let added = c.with_workspace(index, c.workspaces[index].add_window(window, floating));
    assert(!c.workspaces[index].windows.contains(window));
    lemma_added_apart(c, added, index, window);
    lemma_focus_moves_nothing(added, window);
    let t = s.move_window(window, name, output, floating, dead).0;
    assert(t == added.set_focus(window));
    assert forall|i: int, j: int, w: WindowId|
        #![trigger t.workspaces[i].windows.contains(w), t.workspaces[j]]
        s.windows_apart() && 0 <= i < t.workspaces.len() && 0 <= j < t.workspaces.len() && i != j
            && t.workspaces[i].windows.contains(w) implies !t.workspaces[j].windows.contains(
        w,
    ) by {
        assert(added.workspaces[i].windows.contains(w));
        assert(!added.workspaces[j].windows.contains(w));
    }
    assert(t.workspaces[index].name == name);
    assert(t.workspaces[index].windows.contains(window));
    assert forall|i: int| 0 <= i < t.workspaces.len() implies ((
    #[trigger] t.workspaces[i]).windows.contains(window) <==> t.workspaces[i].name == name) by {
        assert(t.workspaces[i].windows == added.workspaces[i].windows);
        assert(t.workspaces[i].name == added.workspaces[i].name);
        if i < index {
            assert(c.workspaces[i].name != c.workspaces[index].name);
        } else if i > index {
            assert(c.workspaces[index].name != c.workspaces[i].name);
        }
    }
    let named_so = named(t.workspaces, name);
    lemma_first_below(t.workspaces.len(), named_so);
    assert(named_so(index));
}

/// Adding a window that is in no workspace yet puts it in the workspace that the output shows,
/// and in no other, and focuses it; other windows stay where they are.
pub proof fn law_add_window(
    s: ShellView,
    window: WindowId,
    output: OutputView,
    floating: bool,
    pointer: Option<Point>,
)
    requires
        s.names_distinct(),
        s.actives_valid(),
        forall|i: int|
            0 <= i < s.workspaces.len() ==> !(#[trigger] s.workspaces[i]).windows.contains(window),
    ensures
        ({
            let (s1, id) = s.ensure_virtual_output(output, pointer);
            let (s2, index) = s1.ensure_workspace(id);
            let t = s.add_window(window, output, floating, pointer).0;
            &&& t.focused == Some(window)
            &&& t.manager == s2.manager
            &&& t.names_distinct()
            &&& s.workspaces.len() <= t.workspaces.len() == s2.workspaces.len()
            &&& 0 <= index < t.workspaces.len()
            &&& s.windows_apart() ==> t.windows_apart()
            &&& forall|i: int|
                0 <= i < t.workspaces.len() ==> (#[trigger] t.workspaces[i]).name
                    == s2.workspaces[i].name && (t.workspaces[i].windows.contains(window) <==> i
                    == index)
            &&& forall|i: int|
                0 <= i < t.workspaces.len() && i != index ==> (
                #[trigger] t.workspaces[i]).windows == windows_before(s, i)
            &&& t.workspaces[index].windows == windows_before(s, index).push(window)
        }),
{
    let (s1, id) = s.ensure_virtual_output(output, pointer);
    assert(s1.workspaces == s.workspaces);
    let (s2, index) = s1.ensure_workspace(id);
    assert(s1.actives_valid()) by {
        assert forall|j: int| 0 <= j < s1.manager.outputs.len() implies ((
        #[trigger] s1.manager.outputs[j]).active matches Some(ws) ==> 1 <= ws.0
            <= s1.workspaces.len()) by {
            if j < s.manager.outputs.len() {
                assert(s1.manager.outputs[j] == s.manager.outputs[j]);
            }
        }
    }
    lemma_find_or_create(s1, decimal(1));
    lemma_view_position(s1.manager.outputs, id);
    assert(0 <= index < s2.workspaces.len());
    assert(s2.names_distinct());
    assert forall|i: int| 0 <= i < s2.workspaces.len() implies (
    #[trigger] s2.workspaces[i]).windows == windows_before(s, i) by {
        if i < s.workspaces.len() {
            assert(s2.workspaces[i] == s.workspaces[i]);
        }
    }
    assert forall|i: int| 0 <= i < s2.workspaces.len() implies !(
    #[trigger] s2.workspaces[i]).windows.contains(window) by {
        if i < s.workspaces.len() {
            assert(!s.workspaces[i].windows.contains(window));
        }
    }
    if s.windows_apart() {
        assert forall|i: int, j: int, w: WindowId|
            #![trigger s2.workspaces[i].windows.contains(w), s2.workspaces[j]]
            0 <= i < s2.workspaces.len() && 0 <= j < s2.workspaces.len() && i != j
                && s2.workspaces[i].windows.contains(w) implies !s2.workspaces[j].windows.contains(
            w,
        ) by {
            if i < s.workspaces.len() && j < s.workspaces.len() {
                assert(s.workspaces[i].windows.contains(w));
                assert(!s.workspaces[j].windows.contains(w));
            }
        }
    }
    let workspace = WorkspaceView {
        virtual_output: Some(id),
        ..s2.workspaces[index]
    }.add_window(window, floating);
    let added = s2.with_workspace(index, workspace);
    assert(!s2.workspaces[index].windows.contains(window));
    lemma_added_apart(s2, added, index, window);
    lemma_focus_moves_nothing(added, window);
    let t = added.set_focus(window);
    assert forall|i: int| 0 <= i < t.workspaces.len() implies (#[trigger] t.workspaces[i]).name
        == s2.workspaces[i].name && t.workspaces[i].windows == added.workspaces[i].windows by {}
    assert forall|i: int, j: int| 0 <= i < j < t.workspaces.len() implies (
    #[trigger] t.workspaces[i]).name != (#[trigger] t.workspaces[j]).name by {
        assert(s2.workspaces[i].name != s2.workspaces[j].name);
    }
    if s.windows_apart() {
        assert forall|i: int, j: int, w: WindowId|
            #![trigger t.workspaces[i].windows.contains(w), t.workspaces[j]]
            0 <= i < t.workspaces.len() && 0 <= j < t.workspaces.len() && i != j
                && t.workspaces[i].windows.contains(w) implies !t.workspaces[j].windows.contains(
            w,
        ) by {
            assert(added.workspaces[i].windows.contains(w));
            assert(!added.workspaces[j].windows.contains(w));
        }
    }
}

/// Going to the next tab and then to the previous one comes back to the tab one started
/// from.
pub proof fn law_tab_round_trip(w: WorkspaceView)
    requires
        w.has_tabs(),
        w.consistent(),
    ensures
        0 <= w.next_index() < w.tiled().len(),
        w.choose_tab(w.next_index()).prev_index() == w.active_tab,
        w.choose_tab(w.next_index()).has_tabs(),
{
    let n = w.tiled().len() as int;
    assert(w.next_index() == (if w.active_tab + 1 == n {
        0
    } else {
        w.active_tab + 1
    })) by (nonlinear_arith)
        requires
            w.next_index() == (w.active_tab + 1) % n,
            0 <= w.active_tab < n,
    ;
    lemma_tiled_frame(w, w.choose_tab(w.next_index()));
}

/// A window that is made to float and back, or the other way round, leaves the same windows
/// tiled, at their old places, and the same tab active.
pub proof fn law_toggle_floating_round_trip(w: WorkspaceView, window: WindowId)
    ensures
        ({
            let u = w.toggle_floating(window).toggle_floating(window);
            &&& u.floating == w.floating
            &&& u.windows == w.windows
            &&& u.tiled() == w.tiled()
            &&& u.chosen_tab == w.chosen_tab
            &&& w.consistent() ==> u.active_tab == w.active_tab
        }),
{
    let u = w.toggle_floating(window).toggle_floating(window);
    assert(u.floating =~= w.floating);
    lemma_tiled_frame(u, w);
    lemma_valid_tab_frame(w.toggle_floating(window).toggle_floating(window), w);
}

/// The active tab depends on the chosen one, on the mode and on the tabs, and on nothing else.
proof fn lemma_valid_tab_frame(a: WorkspaceView, b: WorkspaceView)
    requires
        a.windows == b.windows,
        a.floating == b.floating,
        a.fullscreen == b.fullscreen,
        a.layout_mode == b.layout_mode,
        a.chosen_tab == b.chosen_tab,
    ensures
        a.tab_in_range() == b.tab_in_range(),
{
    lemma_tiled_frame(a, b);
}

/// Whether no other workspace holds a window of the one at a place.
pub open spec fn held_alone(s: ShellView, i: int) -> bool {
    forall|j: int, x: WindowId|
        #![trigger s.workspaces[i].windows.contains(x), s.workspaces[j]]
        0 <= j < s.workspaces.len() && j != i && s.workspaces[i].windows.contains(x)
            ==> !s.workspaces[j].windows.contains(x)
}

/// Whether the focus can go round from a window: it is focused, tiled and in the workspace at a
/// place, whose windows are alive and in no other.
pub open spec fn can_cycle(s: ShellView, window: WindowId, i: int, dead: Seq<WindowId>) -> bool {
    &&& s.focused == Some(window)
    &&& 0 <= i < s.workspaces.len()
    &&& s.workspaces[i].windows.contains(window)
    &&& !s.workspaces[i].floating.contains(window)
    &&& held_alone(s, i)
    &&& forall|x: WindowId| #[trigger]
        s.workspaces[i].windows.contains(x) ==> !dead.contains(x)
}

/// Whether two shells have the same windows in their workspaces, and the same of them float.
pub open spec fn same_windows(s: ShellView, t: ShellView) -> bool {
    &&& t.workspaces.len() == s.workspaces.len()
    &&& forall|j: int|
        0 <= j < s.workspaces.len() ==> (#[trigger] t.workspaces[j]).windows
            == s.workspaces[j].windows && t.workspaces[j].floating == s.workspaces[j].floating
}

/// The place after another in a list that is gone through in a circle, or before it.
spec fn stepped(k: int, n: int, forward: bool) -> int {
    if forward {
        if k + 1 == n {
            0
        } else {
            k + 1
        }
    } else if k == 0 {
        n - 1
    } else {
        k - 1
    }
}

/// Moving the focus on moves no window, and focuses the next window that does not float.
proof fn lemma_cycle(s: ShellView, window: WindowId, i: int, forward: bool, dead: Seq<WindowId>)
    requires
        can_cycle(s, window, i, dead),
        s.workspaces[i].windows.no_duplicates(),
        forall|x: WindowId| #[trigger]
            s.workspaces[i].floating.contains(x) ==> s.workspaces[i].windows.contains(x),
    ensures
        ({
            let t = s.cycle_focus(forward, dead);
            let tiled = s.workspaces[i].anchored();
            let k = first_position(tiled, window).unwrap();
            &&& same_windows(s, t)
            &&& 0 <= k < tiled.len()
            &&& tiled[k] == window
            &&& t.focused == Some(tiled[stepped(k, tiled.len() as int, forward)])
        }),
{
    let w = s.workspaces[i];
    let p = holds(s.workspaces, window);
    assert(p(i));
    assert forall|j: int| 0 <= j < i implies !(#[trigger] p(j)) by {
        assert(w.windows.contains(window));
        assert(!s.workspaces[j].windows.contains(window));
    }
    lemma_is_first_below(s.workspaces.len(), p, i);
    let r = w.refresh(dead);
    lists::lemma_filter_all(w.windows, lists::not_among(dead));
    assert(r.windows == w.windows);
    assert forall|x: WindowId| w.floating.contains(x) implies !dead.to_set().contains(x) by {
        assert(w.windows.contains(x));
    }
    assert(r.floating =~= w.floating);
    assert(r.anchored_filter() =~= w.anchored_filter());
    let s1 = s.with_workspace(i, r);
    let tiled = w.anchored();
    let n = tiled.len() as int;
    lemma_filter_contains(w.windows, w.anchored_filter(), window);
    assert(tiled.contains(window));
    lemma_first_position(tiled, window);
    let k = first_position(tiled, window).unwrap();
    assert((k + 1) % n == stepped(k, n, true)) by (nonlinear_arith)
        requires
            0 <= k < n,
            stepped(k, n, true) == (if k + 1 == n {
                0
            } else {
                k + 1
            }),
    ;
    if n > 1 {
        lemma_focus_moves_nothing(s1, s1.neighbour(forward, tiled));
    }
}

/// Focusing the next window and then the previous one, or the other way round, comes back to
/// the window one started from, and leaves all windows as they were.
pub proof fn law_focus_round_trip(s: ShellView, window: WindowId, i: int, forward: bool, dead: Seq<WindowId>)
    requires
        can_cycle(s, window, i, dead),
        s.workspaces[i].consistent(),
    ensures
        ({
            let t = s.cycle_focus(forward, dead).cycle_focus(!forward, dead);
            t.focused == Some(window) && same_windows(s, t)
        }),
{
    lemma_cycle(s, window, i, forward, dead);
    let t = s.cycle_focus(forward, dead);
    let w = s.workspaces[i];
    let tiled = w.anchored();
    let n = tiled.len() as int;
    let k = first_position(tiled, window).unwrap();
    let next = tiled[stepped(k, n, forward)];
    assert(tiled.contains(next));
    lemma_filter_contains(w.windows, w.anchored_filter(), next);
    lemma_filter_no_duplicates(w.windows, w.anchored_filter());
    assert(t.workspaces[i].windows == w.windows && t.workspaces[i].floating == w.floating);
    assert(t.workspaces[i].anchored_filter() =~= w.anchored_filter());
    assert(held_alone(t, i)) by {
        assert forall|j: int, x: WindowId|
            #![trigger t.workspaces[i].windows.contains(x), t.workspaces[j]]
            0 <= j < t.workspaces.len() && j != i && t.workspaces[i].windows.contains(
                x,
            ) implies !t.workspaces[j].windows.contains(x) by {
            assert(s.workspaces[i].windows.contains(x));
            assert(!s.workspaces[j].windows.contains(x));
            assert(t.workspaces[j].windows == s.workspaces[j].windows);
        }
    }
    assert forall|x: WindowId| #[trigger]
        t.workspaces[i].windows.contains(x) implies !dead.contains(x) by {
        assert(s.workspaces[i].windows.contains(x));
    }
    assert forall|x: WindowId| #[trigger]
        t.workspaces[i].floating.contains(x) implies t.workspaces[i].windows.contains(x) by {
        assert(w.floating.contains(x));
    }
    lemma_cycle(t, next, i, !forward, dead);
    lists::lemma_position_of_member(tiled, stepped(k, n, forward));
    let u = t.cycle_focus(!forward, dead);
    assert forall|j: int| 0 <= j < s.workspaces.len() implies (
    #[trigger] u.workspaces[j]).windows == s.workspaces[j].windows && u.workspaces[j].floating
        == s.workspaces[j].floating by {
        assert(t.workspaces[j].windows == s.workspaces[j].windows);
    }
}

/// Zooming lets the focused window and the first of the windows that do not float change
/// places among those, and nothing else moves; if the focused window is the first, nothing
/// happens. The workspace holds the same windows, each once.
pub proof fn law_zoom(s: ShellView, window: WindowId, i: int)
    requires
        s.focused == Some(window),
        s.holder(window) == Some(i),
        s.workspaces[i].consistent(),
        !s.workspaces[i].floating.contains(window),
    ensures
        ({
            let w = s.workspaces[i];
            let tiled = w.anchored();
            &&& tiled.len() > 0
            &&& match s.zoom_target() {
                Some((j, m, k)) => {
                    let z = w.exchange(m, k);
                    &&& j == i
                    &&& tiled[0] != window
                    &&& first_position(tiled, window) is Some
                    &&& z.anchored() == tiled.update(0, window).update(
                        first_position(tiled, window).unwrap(),
                        tiled[0],
                    )
                    &&& z.windows.len() == w.windows.len()
                    &&& z.windows.no_duplicates()
                    &&& z.windows.to_set() == w.windows.to_set()
                    &&& z.floating == w.floating
                },
                None => tiled[0] == window,
            }
        }),
{
    let w = s.workspaces[i];
    let a = w.windows;
    let p = w.anchored_filter();
    let tiled = w.anchored();
    lemma_first_below(s.workspaces.len(), holds(s.workspaces, window));
    assert(a.contains(window));
    lemma_first_position(a, window);
    let k = first_position(a, window).unwrap();
    let first = |j: int| !w.floating.contains(w.windows[j]);
    lemma_first_below(a.len(), first);
    assert(first(k));
    let m = w.master().unwrap();
    assert(first(m));
    assert(m <= k) by {
        if k < m {
            assert(!first(k));
        }
    }
    assert forall|x: WindowId| a.take(m).contains(x) implies !p(x) by {
        let j = choose|j: int| 0 <= j < m && a.take(m)[j] == x;
        assert(!first(j));
    }
    lists::lemma_filter_none(a.take(m), p);
    lists::lemma_filter_update(a, p, m, window);
    lists::lemma_filter_update(a, p, k, window);
    lemma_filter_no_duplicates(a, p);
    let r = a.take(k).filter(p).len() as int;
    assert(tiled[r] == window);
    lists::lemma_position_of_member(tiled, r);
    if m < k {
        let middle = a.update(m, window);
        lists::lemma_filter_update(a.take(k), p, m, window);
        assert(middle.take(k) =~= a.take(k).update(m, window));
        lists::lemma_filter_update(middle, p, k, a[m]);
        let z = w.exchange(m, k);
        assert(z.windows == middle.update(k, a[m]));
        assert(z.anchored_filter() =~= p);
        assert(a[m] != a[k]);
        assert(z.windows.to_set() =~= a.to_set()) by {
            assert forall|x: WindowId| a.contains(x) == z.windows.contains(x) by {
                if a.contains(x) {
                    let j = choose|j: int| 0 <= j < a.len() && a[j] == x;
                    if j == m {
                        assert(z.windows[k] == x);
                    } else if j == k {
                        assert(z.windows[m] == x);
                    } else {
                        assert(z.windows[j] == x);
                    }
                }
                if z.windows.contains(x) {
                    let j = choose|j: int| 0 <= j < a.len() && z.windows[j] == x;
                    if j == m {
                        assert(a[k] == x);
                    } else if j == k {
                        assert(a[m] == x);
                    } else {
                        assert(a[j] == x);
                    }
                }
            }
        }
    }
}

/// The window that gets the focus anew is alive and in the history of a visible
/// workspace; there is none only if no visible workspace remembers a living window.
pub proof fn law_refresh_focus(s: ShellView, dead: Seq<WindowId>)
    ensures
        match s.last_focused(dead) {
            Some(w) => !dead.contains(w) && remembered(s, w),
            None => forall|w: WindowId| #[trigger] remembered(s, w) ==> dead.contains(w),
        },
{
    let n = s.manager.outputs.len() as int;
    let history = s.visible_history(n);
    let alive = without_all(history, dead);
    match s.last_focused(dead) {
        Some(w) => {
            assert(alive.contains(alive[alive.len() - 1]));
            lemma_filter_contains(history, lists::not_among(dead), w);
            lemma_history(s, n, w);
        },
        None => {
            assert forall|w: WindowId| #[trigger] remembered(s, w) implies dead.contains(w) by {
                lemma_history(s, n, w);
                lemma_filter_contains(history, lists::not_among(dead), w);
            }
        },
    }
}

/// Whether a visible workspace has the window in its focus history.
pub open spec fn remembered(s: ShellView, window: WindowId) -> bool {
    exists|j: int|
        0 <= j < s.manager.outputs.len() && (#[trigger] s.manager.outputs[j]).active is Some
            && s.workspaces[s.manager.outputs[j].active.unwrap().0 - 1].focus_stack.contains(window)
}

proof fn lemma_history(s: ShellView, k: int, window: WindowId)
    requires
        0 <= k <= s.manager.outputs.len(),
    ensures
        s.visible_history(k).contains(window) <==> exists|j: int|
            0 <= j < k && (#[trigger] s.manager.outputs[j]).active is Some
                && s.workspaces[s.manager.outputs[j].active.unwrap().0 - 1].focus_stack.contains(
                window,
            ),
    decreases k,
{
    if k > 0 {
        lemma_history(s, k - 1, window);
        let before = s.visible_history(k - 1);
        let more = match s.manager.outputs[k - 1].active {
            Some(ws) => s.workspaces[ws.0 - 1].focus_stack,
            None => Seq::empty(),
        };
        let all = before + more;
        if all.contains(window) {
            let i = choose|i: int| 0 <= i < all.len() && all[i] == window;
            if i < before.len() {
                assert(before[i] == window);
            } else {
                assert(more[i - before.len()] == window);
            }
        }
        if before.contains(window) {
            let i = choose|i: int| 0 <= i < before.len() && before[i] == window;
            assert(all[i] == window);
        }
        if more.contains(window) {
            let i = choose|i: int| 0 <= i < more.len() && more[i] == window;
            assert(all[before.len() + i] == window);
        }
    }
}

/// Recording rectangles for different windows gives each its own, and leaves the others'.
proof fn lemma_record_all(
    rectangles: Map<WindowId, VirtualOutputRelativeRect>,
    tiles: Seq<(WindowId, Rectangle)>,
)
    requires
        forall|i: int, j: int|
            0 <= i < j < tiles.len() ==> (#[trigger] tiles[i]).0 != (#[trigger] tiles[j]).0,
    ensures
        forall|i: int|
            0 <= i < tiles.len() ==> record_all(rectangles, tiles).contains_key(
                (#[trigger] tiles[i]).0,
            ) && record_all(rectangles, tiles)[tiles[i].0] == VirtualOutputRelativeRect(
                tiles[i].1,
            ),
        forall|w: WindowId|
            (forall|i: int| 0 <= i < tiles.len() ==> (#[trigger] tiles[i]).0 != w) ==> (
            #[trigger] record_all(rectangles, tiles).contains_key(w)
                <==> rectangles.contains_key(w)) && (rectangles.contains_key(w) ==> record_all(
                rectangles,
                tiles,
            )[w] == rectangles[w]),
    decreases tiles.len(),
{
    if tiles.len() > 0 {
        let rest = tiles.drop_last();
        assert forall|i: int, j: int| 0 <= i < j < rest.len() implies (#[trigger] rest[i]).0 != (
        #[trigger] rest[j]).0 by {
            assert(tiles[i].0 != tiles[j].0);
        }
        lemma_record_all(rectangles, rest);
        assert forall|i: int| 0 <= i < tiles.len() implies record_all(
            rectangles,
            tiles,
        ).contains_key((#[trigger] tiles[i]).0) && record_all(rectangles, tiles)[tiles[i].0]
            == VirtualOutputRelativeRect(tiles[i].1) by {
            if i < rest.len() {
                assert(rest[i] == tiles[i]);
                assert(tiles[i].0 != tiles[tiles.len() - 1].0);
            }
        }
        assert forall|w: WindowId|
            (forall|i: int| 0 <= i < tiles.len() ==> (
            #[trigger] tiles[i]).0 != w) implies (#[trigger] record_all(
            rectangles,
            tiles,
        ).contains_key(w) <==> rectangles.contains_key(w)) && (rectangles.contains_key(w)
            ==> record_all(rectangles, tiles)[w] == rectangles[w]) by {
            assert(tiles[tiles.len() - 1].0 != w);
            assert forall|i: int| 0 <= i < rest.len() implies (#[trigger] rest[i]).0 != w by {
                assert(tiles[i].0 != w);
            }
            assert(record_all(rectangles, rest).contains_key(w) <==> rectangles.contains_key(w));
        }
    }
}

proof fn lemma_tiles_distinct(w: WorkspaceView, master_share: int)
    requires
        w.windows.no_duplicates(),
        0 <= w.active_tab,
    ensures
        w.tiled().no_duplicates(),
        forall|i: int, j: int|
            0 <= i < j < w.shown_tiles(master_share).len() ==> (
            #[trigger] w.shown_tiles(master_share)[i]).0 != (
            #[trigger] w.shown_tiles(master_share)[j]).0,
        forall|i: int|
            0 <= i < w.shown_tiles(master_share).len() ==> w.windows.contains(
                (#[trigger] w.shown_tiles(master_share)[i]).0,
            ),
{
    lemma_filter_no_duplicates(w.windows, w.tiled_filter());
    let tiles = w.shown_tiles(master_share);
    assert forall|i: int| 0 <= i < tiles.len() implies w.windows.contains(
        (#[trigger] tiles[i]).0,
    ) by {
        assert(w.tiled().contains(tiles[i].0)) by {
            if w.layout_mode == LayoutMode::Tiling {
                assert(w.tiled()[i] == tiles[i].0);
            } else {
                assert(w.tiled()[w.active_tab] == tiles[i].0);
            }
        }
        lemma_filter_contains(w.windows, w.tiled_filter(), tiles[i].0);
    }
}

/// Once a workspace is arranged it needs no arrangement, it fills its area, and every
/// tiled window has the rectangle that the layout gives it.
pub proof fn law_arranged_rectangles(
    w: WorkspaceView,
    frame: Frame,
    dead: Seq<WindowId>,
    offsets: Seq<(WindowId, Point)>,
    i: int,
)
    requires
        w.consistent(),
    ensures
        ({
            let (a, commands) = w.arranged(frame, dead, offsets);
            &&& !a.needs_arrange
            &&& a.available_area == frame.area
            &&& a.fullscreen is None && a.layout_mode == LayoutMode::Tiling && 0 <= i
                < a.tiled().len() ==> a.rectangles.contains_key(a.tiled()[i])
                && a.rectangles[a.tiled()[i]].0 == tile_rect(
                frame.area.0,
                a.master_count as int,
                frame.master_share,
                a.tiled().len() as int,
                i,
            )
        }),
{
    let p = w.prepared(frame.area, dead);
    let a = w.arranged(frame, dead, offsets).0;
    lemma_filter_no_duplicates(w.windows, lists::not_among(dead));
    lemma_tiles_distinct(p, frame.master_share);
    lemma_tiled_frame(a, p);
    if a.fullscreen is None && a.layout_mode == LayoutMode::Tiling && 0 <= i < a.tiled().len() {
        let tiles = p.tiles(frame.master_share);
        lemma_record_all(p.rectangles, tiles);
        assert(tiles[i].0 == a.tiled()[i]);
    }
}

/// Arranging a workspace again, with nothing changed around it, changes nothing, and
/// gives the same commands.
pub proof fn law_arrange_idempotent(
    w: WorkspaceView,
    frame: Frame,
    dead: Seq<WindowId>,
    offsets: Seq<(WindowId, Point)>,
)
    requires
        w.consistent(),
    ensures
        ({
            let (a, commands) = w.arranged(frame, dead, offsets);
            a.arranged(frame, dead, offsets) == (a, commands)
        }),
{
    let p = w.prepared(frame.area, dead);
    let (a, commands) = w.arranged(frame, dead, offsets);
    let alive = lists::not_among(dead);
    lemma_filter_no_duplicates(w.windows, alive);
    assert forall|x: WindowId| p.windows.contains(x) implies alive(x) by {
        lemma_filter_contains(w.windows, alive, x);
    }
    assert forall|x: WindowId| p.focus_stack.contains(x) implies alive(x) by {
        lemma_filter_contains(w.focus_stack, alive, x);
    }
    lists::lemma_filter_all(p.windows, alive);
    lists::lemma_filter_all(p.focus_stack, alive);
    assert(a.windows == p.windows && a.focus_stack == p.focus_stack && a.floating == p.floating
        && a.fullscreen == p.fullscreen);
    assert(a.floating.difference(dead.to_set()) =~= a.floating);
    lemma_tiles_distinct(p, frame.master_share);
    let tiles = p.shown_tiles(frame.master_share);
    lemma_record_all(p.rectangles, tiles);
    assert forall|x: WindowId| a.rectangles.contains_key(x) implies !dead.to_set().contains(x) by {
        if p.fullscreen is None {
            if exists|i: int| 0 <= i < tiles.len() && (#[trigger] tiles[i]).0 == x {
                let i = choose|i: int| 0 <= i < tiles.len() && (#[trigger] tiles[i]).0 == x;
                assert(p.windows.contains(tiles[i].0));
                assert(alive(x));
            } else {
                assert(p.rectangles.contains_key(x));
            }
        }
    }
    assert(a.rectangles.remove_keys(dead.to_set()) =~= a.rectangles);
    let q = a.prepared(frame.area, dead);
    assert(q == a);
    lemma_tiled_frame(a, p);
    assert(a.shown_tiles(frame.master_share) =~= tiles);
    if p.fullscreen is None {
        lemma_record_twice(p.rectangles, tiles);
    }
}

/// Recording the same rectangles twice does what recording them once does.
proof fn lemma_record_twice(
    rectangles: Map<WindowId, VirtualOutputRelativeRect>,
    tiles: Seq<(WindowId, Rectangle)>,
)
    requires
        forall|i: int, j: int|
            0 <= i < j < tiles.len() ==> (#[trigger] tiles[i]).0 != (#[trigger] tiles[j]).0,
    ensures
        record_all(record_all(rectangles, tiles), tiles) == record_all(rectangles, tiles),
{
    let once = record_all(rectangles, tiles);
    let twice = record_all(once, tiles);
    lemma_record_all(rectangles, tiles);
    lemma_record_all(once, tiles);
    assert forall|w: WindowId| #[trigger] twice.contains_key(w) <==> once.contains_key(w) by {
        if exists|i: int| 0 <= i < tiles.len() && (#[trigger] tiles[i]).0 == w {
            let i = choose|i: int| 0 <= i < tiles.len() && (#[trigger] tiles[i]).0 == w;
            assert(once.contains_key(tiles[i].0));
            assert(twice.contains_key(tiles[i].0));
        }
    }
    assert forall|w: WindowId| twice.contains_key(w) implies #[trigger] twice[w] == once[w] by {
        if exists|i: int| 0 <= i < tiles.len() && (#[trigger] tiles[i]).0 == w {
            let i = choose|i: int| 0 <= i < tiles.len() && (#[trigger] tiles[i]).0 == w;
            assert(once[tiles[i].0] == twice[tiles[i].0]);
        } else {
            assert(twice.contains_key(w));
        }
    }
    assert(twice =~= once);
}

/// Showing a workspace changes neither the identifiers nor the regions of virtual outputs.
proof fn lemma_set_active_fields(m: ManagerView, id: VirtualOutputId, workspace: Option<WorkspaceId>)
    ensures
        m.set_active(id, workspace).next_id == m.next_id,
        m.set_active(id, workspace).outputs.len() == m.outputs.len(),
        forall|j: int|
            0 <= j < m.outputs.len() ==> (#[trigger] m.set_active(id, workspace).outputs[j]).id
                == m.outputs[j].id && m.set_active(id, workspace).outputs[j].regions
                == m.outputs[j].regions,
{
    lemma_view_position(m.outputs, id);
}

/// Switching a virtual output to a workspace leaves all virtual outputs where they are:
/// every output shows the same ones as before.
pub proof fn law_switch_keeps_outputs(s: ShellView, id: VirtualOutputId, name: Seq<char>, output: Seq<char>)
    ensures
        ({
            let t = s.switch_on_virtual(id, name).0;
            &&& t.manager.next_id == s.manager.next_id
            &&& ids_of(shown_on(t.manager.outputs, output)) == ids_of(
                shown_on(s.manager.outputs, output),
            )
            &&& t.workspaces.len() <= s.workspaces.len() + 2
        }),
{
    let (s1, index) = s.find_or_create(name);
    let (s2, released) = s1.release(id, index);
    let t = s.switch_on_virtual(id, name).0;
    lemma_first_below(s.workspaces.len(), named(s.workspaces, name));
    match s1.owner(index) {
        Some(j) => {
            lemma_first_below(
                s1.manager.outputs.len(),
                shows(s1.manager.outputs, workspace_id(index)),
            );
            let owner = s1.manager.outputs[j].id;
            let (f, fallback) = s1.find_fallback(index);
            lemma_set_active_fields(f.manager, owner, Some(workspace_id(fallback)));
        },
        None => {},
    }
    assert(s2.manager.outputs.len() == s.manager.outputs.len());
    assert forall|j: int| 0 <= j < s.manager.outputs.len() implies (
    #[trigger] s2.manager.outputs[j]).id == s.manager.outputs[j].id
        && s2.manager.outputs[j].regions == s.manager.outputs[j].regions by {}
    lemma_set_active_fields(s2.manager, id, Some(workspace_id(index)));
    assert forall|j: int| 0 <= j < t.manager.outputs.len() implies (
    #[trigger] t.manager.outputs[j]).id == s.manager.outputs[j].id
        && t.manager.outputs[j].regions == s.manager.outputs[j].regions by {
        assert(s2.manager.outputs[j].id == s.manager.outputs[j].id);
    }
    lemma_shown_on_ids(t.manager.outputs, s.manager.outputs, output);
}

/// The shell with a virtual output made for an output, as adding the output leaves it before
/// the first workspace is shown.
pub open spec fn with_default(s: ShellView, outputs: Seq<OutputView>, k: int) -> ShellView {
    let updated = s.with_manager(s.manager.update_all(outputs));
    updated.with_manager(updated.manager.create_default(outputs[k]))
}

/// Adding an output keeps workspaces and virtual outputs one to one.
pub proof fn law_add_output_one_to_one(s: ShellView, outputs: Seq<OutputView>, k: int)
    requires
        valid(s),
        s.one_to_one(),
        s.manager.next_id < u32::MAX,
        forall|j: int|
            0 <= j < s.manager.outputs.len() ==> (#[trigger] s.manager.outputs[j]).id.0
                < s.manager.next_id,
        0 <= k < outputs.len(),
        can_switch(with_default(s, outputs, k), decimal(1)),
    ensures
        s.add_output(outputs, k).0.one_to_one(),
{
    let s1 = s.with_manager(s.manager.update_all(outputs));
    let olds = s.manager.outputs;
    assert forall|j: int| 0 <= j < olds.len() implies (#[trigger] s1.manager.outputs[j]).id
        == olds[j].id && s1.manager.outputs[j].active == olds[j].active by {}
    assert forall|i: int, j: int|
        0 <= i < j < s1.manager.outputs.len() && (
        #[trigger] s1.manager.outputs[i]).active is Some implies s1.manager.outputs[i].active != (
    #[trigger] s1.manager.outputs[j]).active by {
        assert(olds[i].active != olds[j].active);
    }
    if shown_on(s1.manager.outputs, outputs[k].name).len() == 0 {
        let s2 = with_default(s, outputs, k);
        let id = VirtualOutputId(s1.manager.next_id as u32);
        let outs = s2.manager.outputs;
        assert forall|i: int, j: int| 0 <= i < j < outs.len() implies (#[trigger] outs[i]).id != (
        #[trigger] outs[j]).id by {
            assert(olds[i].id.0 < s.manager.next_id);
            if j < olds.len() {
                assert(olds[i].id != olds[j].id);
            }
        }
        assert forall|j: int| 0 <= j < outs.len() implies ((
        #[trigger] outs[j]).active matches Some(w) ==> 1 <= w.0 <= s2.workspaces.len()) by {
            if j < olds.len() {
                assert(outs[j].active == olds[j].active);
            }
        }
        assert forall|i: int, j: int|
            0 <= i < j < outs.len() && (#[trigger] outs[i]).active is Some implies outs[i].active
            != (#[trigger] outs[j]).active by {
            if j < olds.len() {
                assert(olds[i].active != olds[j].active);
            }
        }
        assert(valid(s2));
        lemma_view_position(outs, id);
        assert(outs[olds.len() as int].id == id);
        law_switch_one_to_one(s2, id, decimal(1));
    }
}

/// Changing whether something is fullscreen in a workspace moves no window.
proof fn lemma_fullscreen_holder(s: ShellView, i: int, fullscreen: Option<WindowId>, window: WindowId)
    requires
        0 <= i < s.workspaces.len(),
    ensures
        s.with_workspace(i, s.workspaces[i].set_fullscreen(fullscreen)).holder(window) == s.holder(
            window,
        ),
{
    let t = s.with_workspace(i, s.workspaces[i].set_fullscreen(fullscreen));
    let p = holds(s.workspaces, window);
    let q = holds(t.workspaces, window);
    lemma_first_below(s.workspaces.len(), p);
    match s.holder(window) {
        Some(k) => {
            assert(q(k));
            assert forall|j: int| 0 <= j < k implies !(#[trigger] q(j)) by {
                assert(!p(j));
            }
            lemma_is_first_below(t.workspaces.len(), q, k);
        },
        None => {
            assert forall|j: int| 0 <= j < t.workspaces.len() implies !(#[trigger] q(j)) by {
                assert(!p(j));
            }
            lemma_none_below(t.workspaces.len(), q);
        },
    }
}

/// A window that is made fullscreen is the fullscreen window of its workspace, and one that is
/// made fullscreen and back leaves its workspace without one. If there was none before, the
/// same windows are tiled and the same tab is active. No other workspace changes.
pub proof fn law_fullscreen_round_trip(s: ShellView, window: WindowId, i: int)
    requires
        s.holder(window) == Some(i),
    ensures
        ({
            let t = s.set_fullscreen(window, true);
            let u = t.set_fullscreen(window, false);
            &&& t.workspaces[i].fullscreen == Some(window)
            &&& u.workspaces[i].fullscreen is None
            &&& u.workspaces[i].windows == s.workspaces[i].windows
            &&& s.workspaces[i].fullscreen is None ==> same_tabs(s.workspaces[i], u.workspaces[i])
            &&& forall|j: int|
                0 <= j < s.workspaces.len() && j != i ==> #[trigger] u.workspaces[j]
                    == s.workspaces[j]
        }),
{
    lemma_first_below(s.workspaces.len(), holds(s.workspaces, window));
    lemma_fullscreen_holder(s, i, Some(window), window);
    if s.workspaces[i].fullscreen is None {
        lemma_fullscreen_tabs(s.workspaces[i], Some(window));
    }
}

/// Whether two workspaces have the same tabs, and the same of them is chosen and, if the first
/// workspace is consistent, active.
pub open spec fn same_tabs(a: WorkspaceView, b: WorkspaceView) -> bool {
    &&& b.tiled() == a.tiled()
    &&& b.chosen_tab == a.chosen_tab
    &&& a.consistent() ==> b.active_tab == a.active_tab
}

/// Making a window fullscreen and back changes no tab.
proof fn lemma_fullscreen_tabs(w: WorkspaceView, window: Option<WindowId>)
    requires
        w.fullscreen is None,
    ensures
        same_tabs(w, w.set_fullscreen(window).set_fullscreen(None)),
{
    let u = w.set_fullscreen(window).set_fullscreen(None);
    lemma_tiled_frame(u, w);
    lemma_valid_tab_frame(u, w);
}

/// Toggling fullscreen makes the focused window the fullscreen one of its workspace, and
/// toggling it again leaves the workspace without a fullscreen window. If there was none
/// before, the same windows are tiled and the same tab is active. No other workspace changes.
pub proof fn law_toggle_fullscreen_round_trip(s: ShellView, i: int)
    requires
        s.fullscreen_target() == Some(i),
        s.workspaces[i].fullscreen != s.focused,
    ensures
        ({
            let t = s.toggle_fullscreen();
            let u = t.toggle_fullscreen();
            &&& s.focused matches Some(window) && s.workspaces[i].windows.contains(window)
            &&& t.workspaces[i].fullscreen == s.focused
            &&& u.workspaces[i].fullscreen is None
            &&& u.workspaces[i].windows == s.workspaces[i].windows
            &&& s.workspaces[i].fullscreen is None ==> same_tabs(s.workspaces[i], u.workspaces[i])
            &&& forall|j: int|
                0 <= j < s.workspaces.len() && j != i ==> #[trigger] u.workspaces[j]
                    == s.workspaces[j]
        }),
{
    let w = s.focused.unwrap();
    lemma_first_below(s.workspaces.len(), holds(s.workspaces, w));
    lemma_fullscreen_holder(s, i, s.focused, w);
    if s.workspaces[i].fullscreen is None {
        lemma_fullscreen_tabs(s.workspaces[i], s.focused);
    }
}

/// Whether a command puts a window, which is not fullscreen, in its rectangle in a virtual output:
/// its content, which begins `offset` from its corner, begins at the corner of the rectangle,
/// which is counted from the corner of the virtual output.
pub open spec fn placed_in(
    command: Command,
    window: WindowId,
    rect: Rectangle,
    offset: Point,
    origin: Point,
) -> bool {
    match command {
        Command::Place { window: placed, location, size, fullscreen } => {
            &&& placed == window
            &&& !fullscreen
            &&& size == rect.size
            &&& fits_i32(rect.loc.x + origin.x) && fits_i32(rect.loc.x + origin.x - offset.x)
                ==> location.x + offset.x == rect.loc.x + origin.x
            &&& fits_i32(rect.loc.y + origin.y) && fits_i32(rect.loc.y + origin.y - offset.y)
                ==> location.y + offset.y == rect.loc.y + origin.y
        },
        _ => false,
    }
}

/// What arranging a workspace asks for. A fullscreen window is put at the corner of the virtual
/// output in the size given for it. Without one, in tiling mode each tiled window is put in its
/// recorded rectangle, in order; in tabbed mode all tiled windows are hidden, and then that of
/// the active tab is put below the tab bar, where it fills the area.
pub proof fn law_placed(
    w: WorkspaceView,
    frame: Frame,
    dead: Seq<WindowId>,
    offsets: Seq<(WindowId, Point)>,
    i: int,
)
    requires
        w.consistent(),
    ensures
        ({
            let (a, commands) = w.arranged(frame, dead, offsets);
            let origin = frame.geometry.0.loc;
            let n = a.tiled().len();
            &&& a.fullscreen matches Some(window) ==> commands == seq![
                Command::Place {
                    window,
                    location: origin,
                    size: frame.fullscreen_size,
                    fullscreen: true,
                },
            ]
            &&& a.fullscreen is None && a.layout_mode == LayoutMode::Tiling ==> commands.len() == n
            &&& a.fullscreen is None && a.layout_mode == LayoutMode::Tiling && 0 <= i < n ==> {
                &&& a.rectangles.contains_key(a.tiled()[i])
                &&& placed_in(
                    commands[i],
                    a.tiled()[i],
                    a.rectangles[a.tiled()[i]].0,
                    offset_of(offsets, a.tiled()[i]),
                    origin,
                )
            }
            &&& a.fullscreen is None && a.layout_mode == LayoutMode::Tabbed && 0 <= i < n
                ==> commands[i] == (Command::Hide { window: a.tiled()[i] })
            &&& a.fullscreen is None && a.layout_mode == LayoutMode::Tabbed && n == 0
                ==> commands.len() == 0
            &&& a.fullscreen is None && a.layout_mode == LayoutMode::Tabbed && n > 0 ==> {
                let tab = a.tiled()[a.active_tab];
                let rect = a.rectangles[tab].0;
                &&& commands.len() == n + 1
                &&& 0 <= a.active_tab < n
                &&& a.rectangles.contains_key(tab)
                &&& placed_in(commands[n as int], tab, rect, offset_of(offsets, tab), origin)
                &&& rect.loc.x == frame.area.0.loc.x && rect.size.w == frame.area.0.size.w
                &&& frame.area.0.regular() && frame.area.0.size.h >= TAB_HEIGHT ==> rect.loc.y
                    == frame.area.0.loc.y + TAB_HEIGHT && rect.loc.y + rect.size.h
                    == frame.area.0.loc.y + frame.area.0.size.h
            }
        }),
{
    let p = w.prepared(frame.area, dead);
    let (a, commands) = w.arranged(frame, dead, offsets);
    lemma_filter_no_duplicates(w.windows, lists::not_among(dead));
    lemma_tiles_distinct(p, frame.master_share);
    lemma_tiled_frame(a, p);
    let tiles = p.shown_tiles(frame.master_share);
    lemma_record_all(p.rectangles, tiles);
    if a.fullscreen is None {
        if a.layout_mode == LayoutMode::Tiling {
            if 0 <= i < a.tiled().len() {
                assert(tiles[i].0 == a.tiled()[i]);
            }
        } else if a.tiled().len() > 0 {
            assert(tiles[0].0 == a.tiled()[a.active_tab]);
        }
    }
}

/// Where the area of a workspace lies inside its virtual output and has room for its windows,
/// each tiled window is put inside the virtual output, content and size, wherever that lies in
/// the global space.
pub proof fn law_placed_inside(
    w: WorkspaceView,
    frame: Frame,
    dead: Seq<WindowId>,
    offsets: Seq<(WindowId, Point)>,
    i: int,
)
    requires
        w.consistent(),
        frame.geometry.0.regular(),
        frame.area.0.regular(),
        0 <= frame.area.0.loc.x,
        0 <= frame.area.0.loc.y,
        frame.area.0.loc.x + frame.area.0.size.w <= frame.geometry.0.size.w,
        frame.area.0.loc.y + frame.area.0.size.h <= frame.geometry.0.size.h,
        ({
            let a = w.arranged(frame, dead, offsets).0;
            &&& a.fullscreen is None
            &&& a.layout_mode == LayoutMode::Tiling
            &&& 0 <= i < a.tiled().len()
            &&& has_room_for(
                frame.area.0,
                a.master_count as int,
                frame.master_share,
                a.tiled().len() as int,
            )
        }),
    ensures
        ({
            let (a, commands) = w.arranged(frame, dead, offsets);
            let offset = offset_of(offsets, a.tiled()[i]);
            let bounds = frame.geometry.0;
            match commands[i] {
                Command::Place { window, location, size, fullscreen } => {
                    let x = location.x + offset.x;
                    let y = location.y + offset.y;
                    &&& window == a.tiled()[i]
                    &&& -0x4000_0000 <= offset.x <= 0x4000_0000 && -0x4000_0000 <= bounds.loc.x
                        && bounds.loc.x + bounds.size.w <= 0x4000_0000 ==> bounds.loc.x < x && x
                        + size.w < bounds.loc.x + bounds.size.w
                    &&& -0x4000_0000 <= offset.y <= 0x4000_0000 && -0x4000_0000 <= bounds.loc.y
                        && bounds.loc.y + bounds.size.h <= 0x4000_0000 ==> bounds.loc.y < y && y
                        + size.h < bounds.loc.y + bounds.size.h
                },
                _ => false,
            }
        }),
{
    let a = w.arranged(frame, dead, offsets).0;
    law_placed(w, frame, dead, offsets, i);
    law_arranged_rectangles(w, frame, dead, offsets, i);
    law_tile_inside(
        frame.area.0,
        a.master_count as int,
        frame.master_share,
        a.tiled().len() as int,
        i,
    );
}

} // verus!
