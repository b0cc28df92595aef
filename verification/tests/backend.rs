use swl::backend::device::{
    begin_scan, has_mode, populate_modes, Device, DrmMode, EglPlan, OutputMode, ScanStage,
};
use swl::backend::drm_helpers::{
    calculate_refresh_rate, display_configuration, edid_info, find_primary_gpu, interface_name,
    interface_short_name, name_or_unknown, GpuNode, Interface, ListedConnector, ProbedConnector,
};
use swl::backend::kms::{ImportAttempt, ImportError, KmsState};
use swl::backend::render::GbmGlowBackend;
use swl::backend::surface::{
    draw_list, estimate_delay, AdaptiveSync, DrawItem, FrameAction, FrameOutcome, FrameScheduler,
    QueueState, RedrawStep, StepReport, SurfaceManager, ThreadCommand, ThreadReaction,
};
use swl::shell::output::{Output, Scale, Transform};
use swl::shell::Shell;
use swl::utils::coordinates::GlobalPoint;
use swl::utils::geometry::{Point, Size};

fn listed(handle: u32, connected: bool, candidates: Vec<u32>) -> ListedConnector {
    ListedConnector { handle, connected, candidates }
}

fn mode(width: u16, height: u16, clock: u32, htotal: u16, vtotal: u16, preferred: bool) -> DrmMode {
    DrmMode { width, height, clock, htotal, vtotal, preferred }
}

#[test]
fn existing_mappings_stay_and_free_crtcs_are_given_out() {
    let probed = vec![
        ProbedConnector { handle: 1, connected: true, crtc: Some(50) },
        ProbedConnector { handle: 2, connected: false, crtc: Some(51) },
        ProbedConnector { handle: 3, connected: true, crtc: None },
    ];
    let connectors = vec![
        listed(1, true, vec![51]),
        listed(2, false, vec![51]),
        listed(3, true, vec![50, 51]),
        listed(4, true, vec![50, 51]),
        listed(5, true, vec![]),
    ];
    assert_eq!(
        display_configuration(&probed, &connectors),
        vec![(1, Some(50)), (3, Some(51)), (4, None), (5, None)]
    );
    assert!(display_configuration(&vec![], &vec![]).is_empty());
}

#[test]
fn connectors_are_named_by_kind_and_number() {
    assert_eq!(interface_name(Interface::DisplayPort, 1), "DP-1");
    assert_eq!(interface_name(Interface::HDMIA, 12), "HDMI-A-12");
    assert_eq!(interface_name(Interface::EmbeddedDisplayPort, 1), "eDP-1");
    assert_eq!(interface_short_name(Interface::SVideo), "S-VIDEO");
    assert_eq!(interface_short_name(Interface::VGA), "Unknown");
}

#[test]
fn displays_are_unknown() {
    let info = edid_info();
    assert_eq!(info.make(), None);
    assert_eq!(info.model(), None);
    assert_eq!(info.serial(), None);
    assert_eq!(name_or_unknown(info.make()), "Unknown");
    assert_eq!(name_or_unknown(Some(String::from("ACME"))), "ACME");
}

#[test]
fn refresh_rates_are_in_thousandths_of_a_hertz() {
    // 1920x1080 at 60 Hz: 148.5 MHz over 2200x1125 pixels
    assert_eq!(calculate_refresh_rate(148500, 2200, 1125), 60000);
    assert_eq!(calculate_refresh_rate(148352, 2200, 1125), 59940);
    assert_eq!(calculate_refresh_rate(1, 1, 3), 333333);
    assert_eq!(calculate_refresh_rate(u32::MAX, 1, 1), (u32::MAX as u64 * 1000000) as u32);
}

#[test]
fn the_preferred_mode_comes_first() {
    let modes = vec![
        mode(800, 600, 40000, 1056, 628, false),
        mode(1920, 1080, 148500, 2200, 1125, true),
        mode(1280, 720, 74250, 1650, 750, true),
    ];
    let stale = OutputMode { size: Size::new(640, 480), refresh: 60000 };
    let kept = OutputMode { size: Size::new(1920, 1080), refresh: 60000 };
    let plan = populate_modes(&modes, &vec![stale, kept]).unwrap();
    assert_eq!(plan.scale, Scale::identity());
    assert_eq!(plan.transform, Transform::Normal);
    assert_eq!(plan.position, Point { x: 0, y: 0 });
    assert_eq!(plan.preferred, kept);
    assert_eq!(plan.add.len(), 3);
    assert_eq!(plan.add[0].size, Size::new(800, 600));
    assert_eq!(plan.add[0].refresh, 60317);
    assert_eq!(plan.remove, vec![stale]);
    assert!(has_mode(&plan.add, kept) && !has_mode(&plan.add, stale));
    let first = populate_modes(&modes[..1].to_vec(), &vec![]).unwrap();
    assert_eq!(first.preferred.size, Size::new(800, 600));
    assert!(populate_modes(&vec![], &vec![]).is_none());
}

#[test]
fn the_primary_gpu_is_the_one_that_booted() {
    let node = |node: u64, text: Option<&str>| GpuNode { node, boot_vga: text.map(String::from) };
    assert_eq!(
        find_primary_gpu(&vec![node(1, Some("0\n")), node(2, None), node(3, Some(" 1\n"))]),
        Some(3)
    );
    assert_eq!(find_primary_gpu(&vec![node(1, Some("yes")), node(2, None)]), Some(1));
    assert_eq!(find_primary_gpu(&vec![]), None);
}

#[test]
fn a_connector_becomes_an_output_step_by_step() {
    let mut device = Device::new(10, None);
    assert_eq!(begin_scan(None, Some(1)), ScanStage::Skip);
    assert_eq!(begin_scan(Some(false), Some(1)), ScanStage::Skip);
    assert_eq!(begin_scan(Some(true), None), ScanStage::Skip);
    let mut stage = begin_scan(Some(true), Some(1));
    let mut seen = vec![stage];
    while stage != ScanStage::Store {
        stage = device.scan_outputs(stage, true);
        seen.push(stage);
    }
    assert_eq!(
        seen,
        vec![
            ScanStage::CreateOutput,
            ScanStage::PopulateModes,
            ScanStage::CreateSurface,
            ScanStage::GetRenderer,
            ScanStage::CreateCompositor,
            ScanStage::Store,
        ]
    );
    device.set_egl(true);
    assert_eq!(device.scan_outputs(ScanStage::CreateSurface, true), ScanStage::ShareContext);
    assert_eq!(device.scan_outputs(ScanStage::ShareContext, false), ScanStage::Abort);
    assert_eq!(device.scan_outputs(ScanStage::PopulateModes, false), ScanStage::Skip);
    device.surface_created(7, 1, 70);
    device.store_output(7, 1, 70);
    device.store_output(8, 2, 80);
    assert_eq!(device.outputs(), vec![70, 80]);
    assert_eq!(device.schedule_render(70), vec![1]);
    assert!(device.schedule_render(80).is_empty());
}

#[test]
fn only_the_primary_device_keeps_its_context() {
    let mut device = Device::new(10, Some(128));
    assert_eq!(device.render_node(), 128);
    assert_eq!(Device::new(10, None).render_node(), 10);
    assert_eq!(device.update_egl(None), EglPlan::Create);
    assert_eq!(device.update_egl(Some(10)), EglPlan::Create);
    assert_eq!(device.update_egl(Some(11)), EglPlan::Nothing);
    assert!(!device.announces_formats(true, false));
    device.set_egl(true);
    assert!(device.has_egl());
    assert!(device.announces_formats(true, false));
    assert!(!device.announces_formats(true, true));
    assert!(!device.announces_formats(false, false));
    assert_eq!(device.update_egl(Some(10)), EglPlan::Keep);
    assert_eq!(device.update_egl(Some(11)), EglPlan::Drop);
}

#[test]
fn the_primary_gpu_is_replaced_when_it_goes() {
    let mut kms = KmsState::new();
    assert_eq!(kms.primary_gpu(), None);
    assert!(kms.wants_device(true, Some(1)));
    assert!(!kms.wants_device(false, Some(1)));
    assert!(!kms.wants_device(true, None));
    assert_eq!(kms.primary_with(1), 1);
    for node in [1, 2, 3] {
        kms.device_added(node, Device::new(node, None));
    }
    assert!(!kms.wants_device(true, Some(2)));
    assert_eq!(kms.primary_gpu(), Some(1));
    assert!(kms.device_removed(2));
    assert_eq!(kms.primary_gpu(), Some(1));
    assert!(!kms.device_removed(2));
    assert!(kms.device_removed(1));
    assert_eq!(kms.primary_gpu(), Some(3));
    assert_eq!(kms.len(), 1);
    assert_eq!(kms.device_at(0).map(|(node, _)| node), Some(3));
    assert!(kms.device_at(1).is_none());
    assert!(kms.device_removed(3));
    assert_eq!(kms.primary_gpu(), None);
}

#[test]
fn devices_keep_their_order() {
    let mut kms = KmsState::new();
    for node in [30, 10, 20] {
        let mut device = Device::new(node, None);
        device.surface_created(1, node as u32, 5);
        kms.device_added(node, device);
    }
    kms.device_added(10, Device::new(10, Some(11)));
    assert_eq!(kms.schedule_render(5), vec![(30, 30), (20, 20)]);
    assert_eq!(kms.device_at(1).unwrap().1.render_node(), 11);
}

#[test]
fn the_first_device_that_takes_a_buffer_wins() {
    let mut kms = KmsState::new();
    assert_eq!(kms.dmabuf_imported(&vec![]), Err(ImportError::NoDevice));
    for node in [1, 2, 3] {
        let mut device = Device::new(node, Some(node + 100));
        device.set_egl(node != 1);
        kms.device_added(node, device);
    }
    assert_eq!(kms.dmabuf_imported(&vec![ImportAttempt::NotTried, ImportAttempt::Failed(4), ImportAttempt::Imported]), Ok(103));
    assert_eq!(kms.dmabuf_imported(&vec![ImportAttempt::Imported, ImportAttempt::Imported, ImportAttempt::NotTried]), Ok(102));
    assert_eq!(
        kms.dmabuf_imported(&vec![ImportAttempt::NotTried, ImportAttempt::Failed(4), ImportAttempt::Failed(5)]),
        Err(ImportError::Failed(5))
    );
    assert_eq!(
        kms.dmabuf_imported(&vec![ImportAttempt::Failed(9), ImportAttempt::Unsupported, ImportAttempt::Unsupported]),
        Err(ImportError::NoDevice)
    );
}

#[test]
fn renderers_are_taken_up_once() {
    let mut backend = GbmGlowBackend::new();
    assert!(!backend.needs_enumeration());
    assert!(GbmGlowBackend::default().needs_enumeration());
    backend.add_node(1);
    backend.add_node(2);
    backend.add_node(1);
    assert!(backend.needs_enumeration());
    let list = backend.enumerate(&vec![9]);
    assert_eq!(list, vec![1, 2]);
    assert!(!backend.needs_enumeration());
    assert_eq!(backend.enumerate(&list), list);
    // the renderers are gone: a list that lost its devices gets none back
    assert!(backend.enumerate(&vec![]).is_empty());
    backend.remove_node(1);
    assert!(backend.needs_enumeration());
    assert_eq!(backend.enumerate(&list), vec![2]);
    backend.remove_node(7);
    assert!(!backend.needs_enumeration());
}

#[test]
fn surfaces_are_found_by_crtc_and_output() {
    let mut surfaces = SurfaceManager::new();
    surfaces.create_surface(70, 1, 11);
    surfaces.create_surface(70, 2, 12);
    surfaces.create_surface(80, 1, 13);
    assert_eq!(surfaces.get(1).map(|s| (s.output, s.connector)), Some((80, 13)));
    assert_eq!(surfaces.surfaces_for_output(70), vec![2]);
    assert_eq!(surfaces.update_surface_nodes(), vec![1, 2]);
    assert!(surfaces.on_vblank(2) && !surfaces.on_vblank(3));
    assert!(surfaces.remove(2).is_some());
    assert!(surfaces.remove(2).is_none());
    assert!(!surfaces.on_vblank(2));
}

#[test]
fn adaptive_sync_follows_its_setting() {
    assert_eq!(AdaptiveSync::default(), AdaptiveSync::Disabled);
    assert_eq!(AdaptiveSync::from_setting(None), AdaptiveSync::Enabled);
    assert_eq!(AdaptiveSync::from_setting(Some("FORCE")), AdaptiveSync::Force);
    assert_eq!(AdaptiveSync::from_setting(Some("Disabled")), AdaptiveSync::Disabled);
    assert_eq!(AdaptiveSync::from_setting(Some("dIsabled")), AdaptiveSync::Enabled);
    assert!(AdaptiveSync::Force.active(false));
    assert!(AdaptiveSync::Enabled.active(true) && !AdaptiveSync::Enabled.active(false));
    assert!(!AdaptiveSync::Disabled.active(true));
}

#[test]
fn a_redraw_is_queued_once() {
    let mut s = FrameScheduler::new(AdaptiveSync::Enabled);
    assert!(s.queue_redraw().is_empty());
    assert_eq!(s.resume(), vec![FrameAction::StartRender(0)]);
    assert!(s.queue_redraw().is_empty());
    assert_eq!(
        s.queue_redraw_force(true),
        vec![FrameAction::StartRender(1), FrameAction::Cancel(0)]
    );
    assert_eq!(s.state(), QueueState::Queued(1));
}

#[test]
fn a_redraw_during_a_frame_waits_for_its_end() {
    let mut s = FrameScheduler::new(AdaptiveSync::Enabled);
    s.resume();
    assert_eq!(
        s.frame_drawn(FrameOutcome::Queued),
        vec![FrameAction::SendFrameCallbacks, FrameAction::ReportStates]
    );
    assert!(s.queue_redraw().is_empty());
    assert_eq!(s.state(), QueueState::WaitingForVBlank { redraw_needed: true });
    assert_eq!(s.on_vblank(false), vec![FrameAction::StartRender(1)]);
    assert_eq!(s.frame_count(), 1);
    assert_eq!(s.frame_callback_seq(), 2);
}

#[test]
fn an_empty_frame_is_waited_for_by_a_timer() {
    let mut s = FrameScheduler::new(AdaptiveSync::Enabled);
    s.resume();
    assert!(s.can_estimate());
    assert_eq!(
        s.frame_drawn(FrameOutcome::Empty),
        vec![FrameAction::StartEstimate { timer: 1, force: false }]
    );
    assert_eq!(s.queue_redraw(), vec![FrameAction::StartRender(2)]);
    assert!(s.on_estimated_vblank(false, false).is_empty());
    assert_eq!(s.state(), QueueState::Queued(2));
    s.frame_drawn(FrameOutcome::Empty);
    assert_eq!(s.on_estimated_vblank(false, false), vec![FrameAction::SendFrameCallbacks]);
    assert_eq!(s.state(), QueueState::Idle);
    assert!(!s.can_estimate());
}

#[test]
fn a_failed_frame_is_tried_again() {
    let mut s = FrameScheduler::new(AdaptiveSync::Enabled);
    s.resume();
    assert_eq!(
        s.frame_drawn(FrameOutcome::Failed),
        vec![FrameAction::StartRender(1), FrameAction::Cancel(0)]
    );
}

#[test]
fn commands_reach_the_scheduler() {
    let mut s = FrameScheduler::new(AdaptiveSync::Enabled);
    assert_eq!(
        s.handle_command(ThreadCommand::AdaptiveSyncAvailable, false).1,
        ThreadReaction::AnswerInactive
    );
    assert_eq!(
        s.handle_command(ThreadCommand::Resume, false).0,
        vec![FrameAction::StartRender(0)]
    );
    assert_eq!(
        s.handle_command(ThreadCommand::AdaptiveSyncAvailable, false).1,
        ThreadReaction::AnswerAdaptiveSync
    );
    assert_eq!(
        s.handle_command(ThreadCommand::NodeAdded(5), false).1,
        ThreadReaction::AddNode(5)
    );
    assert_eq!(
        s.handle_command(ThreadCommand::NodeRemoved(5), false).1,
        ThreadReaction::RemoveNode(5)
    );
    assert_eq!(s.handle_command(ThreadCommand::End, false).1, ThreadReaction::Stop);
    assert!(s.can_use_direct_render() && !s.can_direct_scanout(1));
    assert!(s.assign_planes(3).is_empty());
}

#[test]
fn a_redraw_is_planned_from_the_shell() {
    let output = Output {
        id: 1,
        name: String::from("DP-1"),
        position: GlobalPoint::new(0, 0),
        mode: Some(Size::new(800, 600)),
        transform: Transform::Normal,
        scale: Scale::identity(),
    };
    let mut shell = Shell::new(None);
    let mut s = FrameScheduler::new(AdaptiveSync::Enabled);
    assert_eq!(s.plan_redraw(&shell, &output, Point::new(0, 0)), None);
    s.resume();
    let outputs = vec![output];
    shell.add_output(&outputs, 0);
    shell.add_window(1, &outputs[0], false, None);
    shell.set_fullscreen(1, true, 1);
    let plan = s.plan_redraw(&shell, &outputs[0], Point::new(799, 0)).unwrap();
    assert!(plan.arrange && plan.cursor && plan.vrr);
    s.use_adaptive_sync(AdaptiveSync::Disabled);
    let plan = s.plan_redraw(&shell, &outputs[0], Point::new(800, 0)).unwrap();
    assert!(!plan.cursor && !plan.vrr);
}

#[test]
fn an_overdue_frame_waits_one_interval() {
    assert_eq!(estimate_delay(1000, 400, 16), 600);
    assert_eq!(estimate_delay(400, 400, 16), 16);
    assert_eq!(estimate_delay(100, 400, 16), 16);
}

#[test]
fn a_frame_is_drawn_step_by_step() {
    let mut s = FrameScheduler::new(AdaptiveSync::Enabled);
    assert_eq!(s.begin_redraw(7, true), RedrawStep::Skip);
    s.resume();
    let first = s.begin_redraw(7, false);
    assert_eq!(first, RedrawStep::GetRenderer { render: 7, target: 7 });
    assert_eq!(s.next_step(first, StepReport::Failed), RedrawStep::End(FrameOutcome::Failed));
    let render = s.next_step(first, StepReport::Succeeded);
    assert_eq!(render, RedrawStep::RenderFrame);
    assert_eq!(s.next_step(RedrawStep::DrawOffscreen, StepReport::Succeeded), render);
    assert_eq!(
        s.next_step(render, StepReport::Empty),
        RedrawStep::QueueFrame { feedback: false }
    );
    let queue = s.next_step(render, StepReport::Succeeded);
    assert_eq!(queue, RedrawStep::QueueFrame { feedback: true });
    assert_eq!(s.next_step(queue, StepReport::Empty), RedrawStep::End(FrameOutcome::Empty));
    let end = s.next_step(queue, StepReport::Succeeded);
    assert_eq!(end, RedrawStep::End(FrameOutcome::Queued));
    assert_eq!(s.next_step(end, StepReport::Failed), end);
}

#[test]
fn nothing_covers_the_pointer() {
    assert_eq!(
        draw_list(2, 1),
        vec![DrawItem::Cursor(0), DrawItem::Cursor(1), DrawItem::Scene(0)]
    );
    assert!(draw_list(0, 0).is_empty());
}
