//! Calls on devices, frames and pointers.

use vstd::prelude::*;

use crate::backend::cursor::{
    image_is, load_cursor_env, shape_is, Cursor, CursorFrame, CursorImageStatus, CursorStateInner,
};
use crate::backend::device::{
    law_initial_mode, other_modes, populate_modes, Device, DrmMode, ModePlan, OutputMode,
};
use crate::backend::drm_helpers::{edid_info, name_or_unknown, EdidInfo};
use crate::backend::kms::{device_is, KmsState};
use crate::backend::surface::{
    estimate_delay, AdaptiveSync, FrameAction, FrameScheduler, PlaneAssignment, QueueState,
    SurfaceEntry, SurfaceManager,
};
use crate::shell::output::Scale;
use crate::utils::lists::lemma_filter_members;
use crate::utils::search;
use crate::utils::table;

verus! {

/// A new scheduler has no display and waits for nothing. Once it has a display, a redraw is
/// queued, unless one is waited for already.
pub proof fn law_scheduler_starts(mode: AdaptiveSync, r: FrameScheduler)
    requires
        call_ensures(FrameScheduler::new, (mode,), r),
    ensures
        !r@.has_compositor,
        r@.state is Idle,
        r@.frame_count == 0,
        r@.frame_callback_seq == 0,
        r@.vrr_mode == mode,
        forall|s: &mut FrameScheduler, actions: Vec<FrameAction>|
            #[trigger] call_ensures(FrameScheduler::resume, (s,), actions) ==> {
                &&& final(s)@.has_compositor
                &&& s@.state is Idle ==> final(s)@.state == QueueState::Queued(s@.next_timer)
                    && actions@ == seq![FrameAction::StartRender(s@.next_timer)]
                &&& s@.state is Queued ==> final(s)@.state == s@.state && actions@.len() == 0
                &&& final(s)@.frame_count == s@.frame_count
                &&& final(s)@.vrr_mode == s@.vrr_mode
            },
        forall|s: &mut FrameScheduler, m: AdaptiveSync, u: ()|
            #[trigger] call_ensures(FrameScheduler::use_adaptive_sync, (s, m), u) ==> {
                &&& final(s)@.vrr_mode == m
                &&& final(s)@.state == s@.state
                &&& final(s)@.has_compositor == s@.has_compositor
                &&& final(s)@.next_timer == s@.next_timer
                &&& final(s)@.frame_count == s@.frame_count
                &&& final(s)@.frame_callback_seq == s@.frame_callback_seq
            },
{
}

/// The timer in place of a frame ends at the time of the next frame; where that is over, it takes
/// as long as a frame does.
pub proof fn law_delay(target: u64, now: u64, refresh_interval: u64, r: u64)
    requires
        call_ensures(estimate_delay, (target, now, refresh_interval), r),
    ensures
        target > now ==> now + r == target,
        target <= now ==> r == refresh_interval,
{
}

/// Nothing is put on planes of its own, or scanned out directly.
pub proof fn law_no_planes(
    s: &FrameScheduler,
    count: usize,
    planes: Vec<PlaneAssignment>,
    scanout: bool,
)
    requires
        call_ensures(FrameScheduler::assign_planes, (s, count), planes),
        call_ensures(FrameScheduler::can_direct_scanout, (s, count), scanout),
    ensures
        planes@.len() == 0,
        !scanout,
{
}

/// A surface is found under its controller once it is created, and no longer once it is removed;
/// the surfaces of other controllers stay. A new one comes last.
pub proof fn law_surfaces_kept(crtc: u32, other: u32)
    ensures
        forall|s: &mut SurfaceManager, output: u64, connector: u32, u: ()|
            #[trigger] call_ensures(
                SurfaceManager::create_surface,
                (s, output, crtc, connector),
                u,
            ) && table::keys_distinct(s@) ==> {
                &&& table::filed(final(s)@, crtc) == Some(SurfaceEntry { output, connector })
                &&& other != crtc ==> table::filed(final(s)@, other) == table::filed(s@, other)
                &&& table::filed(s@, crtc) is None ==> final(s)@ == s@.push(
                    (crtc, SurfaceEntry { output, connector }),
                )
            },
        forall|s: &mut SurfaceManager, r: Option<SurfaceEntry>|
            #[trigger] call_ensures(SurfaceManager::remove, (s, crtc), r) && table::keys_distinct(s@)
                ==> {
                &&& r == table::filed(s@, crtc)
                &&& table::filed(final(s)@, crtc) is None
                &&& other != crtc ==> table::filed(final(s)@, other) == table::filed(s@, other)
            },
        forall|s: &SurfaceManager, r: bool|
            #[trigger] call_ensures(SurfaceManager::on_vblank, (s, crtc), r) ==> r == (table::filed(
                s@,
                crtc,
            ) is Some),
        forall|s: &SurfaceManager, r: Vec<u32>, i: int|
            #![trigger call_ensures(SurfaceManager::update_surface_nodes, (s,), r), r@[i]]
            call_ensures(SurfaceManager::update_surface_nodes, (s,), r) ==> r@.len() == s@.len() && (
            0 <= i < s@.len() ==> r@[i] == s@[i].0),
{
    assert forall|s: &mut SurfaceManager, output: u64, connector: u32, u: ()|
        #[trigger] call_ensures(SurfaceManager::create_surface, (s, output, crtc, connector), u)
            && table::keys_distinct(s@) implies {
        &&& table::filed(final(s)@, crtc) == Some(SurfaceEntry { output, connector })
        &&& other != crtc ==> table::filed(final(s)@, other) == table::filed(s@, other)
        &&& table::filed(s@, crtc) is None ==> final(s)@ == s@.push(
            (crtc, SurfaceEntry { output, connector }),
        )
    } by {
        table::law_insert_then_get(s@, crtc, SurfaceEntry { output, connector }, other);
    }
    assert forall|s: &mut SurfaceManager, r: Option<SurfaceEntry>|
        #[trigger] call_ensures(SurfaceManager::remove, (s, crtc), r) && table::keys_distinct(
            s@,
        ) implies {
        &&& r == table::filed(s@, crtc)
        &&& table::filed(final(s)@, crtc) is None
        &&& other != crtc ==> table::filed(final(s)@, other) == table::filed(s@, other)
    } by {
        table::law_remove_then_get(s@, crtc, other);
    }
}

/// An output gets the modes of its connector, in their order, and loses those that are there no
/// more. It starts unscaled, upright and in the corner of the global space, with the first mode that
/// its connector prefers, or else with the first. Without a mode there is nothing to plan.
pub proof fn law_modes_planned(
    modes: &Vec<DrmMode>,
    current: &Vec<OutputMode>,
    r: Option<ModePlan>,
    i: int,
    m: OutputMode,
)
    requires
        call_ensures(populate_modes, (modes, current), r),
    ensures
        r is None <==> modes@.len() == 0,
        r matches Some(plan) ==> {
            &&& plan.add@.len() == modes@.len()
            &&& 0 <= i < modes@.len() ==> plan.add@[i].size.w == modes@[i].width
                && plan.add@[i].size.h == modes@[i].height
            &&& 0 <= i < modes@.len() && modes@[i].preferred && (forall|j: int|
                0 <= j < i ==> !(#[trigger] modes@[j]).preferred) ==> plan.preferred == plan.add@[i]
            &&& (forall|j: int|
                0 <= j < modes@.len() ==> !(#[trigger] modes@[j]).preferred) ==> plan.preferred
                == plan.add@[0]
            &&& plan.remove@.contains(m) <==> current@.contains(m) && !plan.add@.contains(m)
            &&& plan.scale == Scale(256)
            &&& plan.transform is Normal
            &&& plan.position.x == 0 && plan.position.y == 0
        },
{
    law_initial_mode(modes@, i);
    if r is Some {
        lemma_filter_members(current@, other_modes(r.unwrap().add@), m);
    }
}

/// A device draws itself where no other node is named for that. It starts without a driver, and
/// its formats are announced once: when it has a driver, the driver is new, and nobody has done
/// so before.
pub proof fn law_device_starts(
    node: u64,
    render: Option<u64>,
    r: Device,
    d: &Device,
    updated: bool,
    announced: bool,
    announces: bool,
)
    requires
        call_ensures(Device::new, (node, render), r),
        call_ensures(Device::announces_formats, (d, updated, announced), announces),
    ensures
        r@.drm_node == node,
        render matches Some(n) ==> r@.render_node == n,
        render is None ==> r@.render_node == node,
        !r@.has_egl,
        r@.outputs.len() == 0,
        r@.surfaces.len() == 0,
        r@.managed.len() == 0,
        announces ==> updated && d@.has_egl && !announced,
        updated && d@.has_egl && !announced ==> announces,
{
}

/// A device is taken up while the session is active, if it has a node under which none is known.
pub proof fn law_device_wanted(s: &KmsState, active: bool, node: Option<u64>, r: bool)
    requires
        call_ensures(KmsState::wants_device, (s, active, node), r),
    ensures
        !active ==> !r,
        node is None ==> !r,
        active && node is Some ==> (r <==> forall|j: int|
            0 <= j < s@.devices.len() ==> Some((#[trigger] s@.devices[j]).0) != node),
{
    if node is Some {
        let p = device_is(s@.devices, node.unwrap());
        search::lemma_first_below(s@.devices.len(), p);
        if active && r {
            assert forall|j: int| 0 <= j < s@.devices.len() implies Some(
                (#[trigger] s@.devices[j]).0,
            ) != node by {
                assert(!p(j));
            }
        }
    }
}

/// Without settings the pointer is of the default theme, and 24 pixels large.
pub proof fn law_pointer_settings(theme: &str, r: (String, u32), named: (String, u32))
    requires
        call_ensures(load_cursor_env, (None::<&str>, None::<&str>), r),
        call_ensures(load_cursor_env, (Some(theme), None::<&str>), named),
    ensures
        r.0@ == "default"@,
        r.1 == 24,
        named.0@ == theme@,
        named.1 == 24,
{
}

/// The shape that the compositor wants is the last that was named; hiding the pointer or giving
/// it a surface changes nothing about it.
pub proof fn law_shape_wanted(status: CursorImageStatus)
    ensures
        forall|s: &mut CursorStateInner, u: ()|
            #[trigger] call_ensures(CursorStateInner::cursor_image, (s, status), u) ==> {
                &&& status matches CursorImageStatus::Named(shape) ==> final(s)@.current == Some(
                    shape,
                )
                &&& !(status is Named) ==> final(s)@.current == s@.current
                &&& final(s)@.size == s@.size
                &&& final(s)@.cursors == s@.cursors
                &&& final(s)@.cache == s@.cache
                &&& final(s)@.current_image == s@.current_image
            },
{
}

/// A pointer's shape is loaded once: asked for again, it is found where it was put.
pub proof fn law_shape_loaded_once()
    ensures
        forall|s: &mut CursorStateInner, shape: u32, load: Cursor, r: usize|
            #[trigger] call_ensures(CursorStateInner::get_named_cursor, (s, shape, load), r) ==> {
                &&& r < final(s)@.cursors.len()
                &&& final(s)@.cursors[r as int].0 == shape
                &&& final(s)@.cursors.len() <= s@.cursors.len() + 1
                &&& final(s)@.cursors.len() == s@.cursors.len() <==> exists|j: int|
                    0 <= j < s@.cursors.len() && (#[trigger] s@.cursors[j]).0 == shape
                &&& final(s)@.cursors.len() > s@.cursors.len() ==> final(s)@.cursors[r as int].1
                    == load@
                &&& forall|j: int|
                    0 <= j < s@.cursors.len() ==> #[trigger] final(s)@.cursors[j] == s@.cursors[j]
                &&& final(s)@.cache == s@.cache
            },
{
    assert forall|s: &mut CursorStateInner, shape: u32, load: Cursor, r: usize|
        #[trigger] call_ensures(CursorStateInner::get_named_cursor, (s, shape, load), r) implies {
        &&& r < final(s)@.cursors.len()
        &&& final(s)@.cursors[r as int].0 == shape
        &&& final(s)@.cursors.len() <= s@.cursors.len() + 1
        &&& final(s)@.cursors.len() == s@.cursors.len() <==> exists|j: int|
            0 <= j < s@.cursors.len() && (#[trigger] s@.cursors[j]).0 == shape
        &&& final(s)@.cursors.len() > s@.cursors.len() ==> final(s)@.cursors[r as int].1 == load@
        &&& forall|j: int|
            0 <= j < s@.cursors.len() ==> #[trigger] final(s)@.cursors[j] == s@.cursors[j]
        &&& final(s)@.cache == s@.cache
    } by {
        let p = shape_is(s@.cursors, shape);
        search::lemma_first_below(s@.cursors.len(), p);
        if exists|j: int| 0 <= j < s@.cursors.len() && (#[trigger] s@.cursors[j]).0 == shape {
            let j = choose|j: int|
                0 <= j < s@.cursors.len() && (#[trigger] s@.cursors[j]).0 == shape;
            assert(p(j));
        }
    }
}

/// The image that is drawn for a pointer is among those that were uploaded, and is uploaded only
/// if it was not there before. Its tip is where the image says, counted at the image's scale.
pub proof fn law_pointer_drawn()
    ensures
        forall|s: &mut CursorStateInner, cursor: usize, scale: u32, millis: u32, r: Option<CursorFrame>|
            #[trigger] call_ensures(CursorStateInner::draw_cursor, (s, cursor, scale, millis), r)
                ==> {
                &&& r is None ==> final(s)@ == s@
                &&& r is Some ==> cursor < s@.cursors.len()
                &&& r matches Some(frame) ==> {
                    let image = s@.cursors[cursor as int].1.image(scale, millis);
                    &&& frame.image < final(s)@.cache.len()
                    &&& final(s)@.cache[frame.image as int] == image
                    &&& final(s)@.current_image == Some(frame.image as int)
                    &&& frame.upload <==> !s@.cache.contains(image)
                    &&& frame.upload ==> final(s)@.cache == s@.cache.push(image)
                    &&& !frame.upload ==> final(s)@.cache == s@.cache
                    &&& frame.scale >= 1
                    &&& frame.hotspot_x * frame.scale <= image.xhot < (frame.hotspot_x + 1)
                        * frame.scale
                    &&& frame.hotspot_y * frame.scale <= image.yhot < (frame.hotspot_y + 1)
                        * frame.scale
                    &&& final(s)@.cursors == s@.cursors
                    &&& final(s)@.current == s@.current
                }
            },
{
    assert forall|
        s: &mut CursorStateInner,
        cursor: usize,
        scale: u32,
        millis: u32,
        r: Option<CursorFrame>,
    | #[trigger]
        call_ensures(CursorStateInner::draw_cursor, (s, cursor, scale, millis), r) implies {
        &&& r is None ==> final(s)@ == s@
        &&& r is Some ==> cursor < s@.cursors.len()
        &&& r matches Some(frame) ==> {
            let image = s@.cursors[cursor as int].1.image(scale, millis);
            &&& frame.image < final(s)@.cache.len()
            &&& final(s)@.cache[frame.image as int] == image
            &&& final(s)@.current_image == Some(frame.image as int)
            &&& frame.upload <==> !s@.cache.contains(image)
            &&& frame.upload ==> final(s)@.cache == s@.cache.push(image)
            &&& !frame.upload ==> final(s)@.cache == s@.cache
            &&& frame.scale >= 1
            &&& frame.hotspot_x * frame.scale <= image.xhot < (frame.hotspot_x + 1) * frame.scale
            &&& frame.hotspot_y * frame.scale <= image.yhot < (frame.hotspot_y + 1) * frame.scale
            &&& final(s)@.cursors == s@.cursors
            &&& final(s)@.current == s@.current
        }
    } by {
        if r is Some {
            let frame = r.unwrap();
            let image = s@.cursors[cursor as int].1.image(scale, millis);
            let p = image_is(s@.cache, image);
            search::lemma_first_below(s@.cache.len(), p);
            if s@.cache.contains(image) {
                let j = choose|j: int| 0 <= j < s@.cache.len() && s@.cache[j] == image;
                assert(p(j));
            }
            let c = frame.scale as int;
            let x = image.xhot as int;
            let y = image.yhot as int;
            assert((x / c) * c <= x < (x / c + 1) * c) by (nonlinear_arith)
                requires
                    c >= 1,
                    x >= 0,
            ;
            assert((y / c) * c <= y < (y / c + 1) * c) by (nonlinear_arith)
                requires
                    c >= 1,
                    y >= 0,
            ;
        }
    }
}

/// Nothing is known of a display's maker and model, and what is not known is called unknown.
pub proof fn law_display_unknown(info: EdidInfo, name: String, r: String, none: String)
    requires
        call_ensures(edid_info, (), info),
        call_ensures(name_or_unknown, (Some(name),), r),
        call_ensures(name_or_unknown, (None::<String>,), none),
    ensures
        info@.make is None && info@.model is None && info@.serial is None,
        r@ == name@,
        none@ == "Unknown"@,
{
}

} // verus!
