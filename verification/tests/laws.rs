use swl::backend::device::{populate_modes, Device, DrmMode, EglPlan, OutputMode};
use swl::backend::drm_helpers::{display_configuration, interface_name, Interface, ListedConnector};
use swl::backend::surface::{AdaptiveSync, FrameAction, FrameOutcome, FrameScheduler};
use swl::input::has_room_to_act;
use swl::input::keybindings::Action;
use swl::shell::output::{Output, Scale, Transform};
use swl::shell::tiling::TilingLayout;
use swl::shell::virtual_output::parse_rectangle_spec;
use swl::shell::Shell;
use swl::state::State;
use swl::utils::coordinates::{
    GlobalPoint, VirtualOutputRelativePoint, VirtualOutputRelativeRect,
};
use swl::utils::geometry::{Point, Rectangle, Size};
use swl::wayland::output_configuration::{HeadRequest, PendingOutputConfigurationInner};

fn output(id: u64, name: &str, x: i32) -> Output {
    Output {
        id,
        name: String::from(name),
        position: GlobalPoint::new(x, 0),
        mode: Some(Size::new(1000, 500)),
        transform: Transform::Normal,
        scale: Scale::identity(),
    }
}

#[test]
fn tiles_do_not_overlap() {
    let area = VirtualOutputRelativeRect::new(
        VirtualOutputRelativePoint::new(10, 20),
        Size::new(1001, 777),
    );
    for n_master in ["0", "1", "2", "9"] {
        let layout = TilingLayout::new(area, Some(n_master));
        let tiles = layout.tile(&(1..8).collect(), 613);
        for (i, (_, a)) in tiles.iter().enumerate() {
            assert!(a.size.w > 0 && a.size.h > 0);
            for (_, b) in &tiles[i + 1..] {
                assert!(!a.overlaps(b) && !b.overlaps(a));
                let wider = Rectangle::new(
                    Point::new(a.loc.x - 1, a.loc.y - 1),
                    Size::new(a.size.w + 2, a.size.h + 2),
                );
                assert!(!wider.overlaps(b));
            }
        }
    }
}

#[test]
fn tiles_lie_inside_the_area() {
    let area = VirtualOutputRelativeRect::new(
        VirtualOutputRelativePoint::new(10, 20),
        Size::new(1001, 777),
    );
    for n_master in ["0", "1", "2", "9"] {
        let layout = TilingLayout::new(area, Some(n_master));
        for n in 1..8 {
            for (_, r) in layout.tile(&(0..n).collect(), 613) {
                assert!(10 < r.loc.x && 20 < r.loc.y);
                assert!(r.loc.x + r.size.w < 1011 && r.loc.y + r.size.h < 797);
            }
        }
    }
}

#[test]
fn arranging_twice_changes_nothing() {
    let outputs = vec![output(1, "A", 0)];
    let mut shell = Shell::new(None);
    shell.add_output(&outputs, 0);
    for window in [1, 2, 3] {
        shell.add_window(window, &outputs[0], false, None);
    }
    let zone = Rectangle::new(Point::new(0, 30), Size::new(1000, 470));
    let first = shell.arrange_windows_on_output(&outputs[0], zone, &vec![499], &vec![], &vec![]);
    let tiles: Vec<_> = [1, 2, 3].map(|w| shell.workspaces()[0].rectangle_of(w)).to_vec();
    assert!(!shell.active_needs_arrange("A"));
    let second = shell.arrange_windows_on_output(&outputs[0], zone, &vec![499], &vec![], &vec![]);
    assert_eq!(first, second);
    assert_eq!(tiles, [1, 2, 3].map(|w| shell.workspaces()[0].rectangle_of(w)).to_vec());
}

#[test]
fn focus_forth_and_back_ends_where_it_started() {
    let outputs = vec![output(1, "A", 0)];
    let mut shell = Shell::new(None);
    shell.add_output(&outputs, 0);
    for window in [1, 2, 3] {
        shell.add_window(window, &outputs[0], false, None);
    }
    for window in [1, 2, 3] {
        shell.set_focus(window);
        shell.focus_next(&vec![]);
        assert_ne!(shell.focused_window(), Some(window));
        shell.focus_prev(&vec![]);
        assert_eq!(shell.focused_window(), Some(window));
        assert_eq!(shell.workspaces()[0].windows(), &vec![1, 2, 3]);
    }
}

#[test]
fn rectangles_are_read_back_as_written() {
    for (x, y, w, h) in [(0, 0, 1920, 1080), (-5, 7, 1, 2), (i32::MIN, i32::MAX, -1, 10)] {
        assert_eq!(
            parse_rectangle_spec(&format!("{},{},{}x{}", x, y, w, h)),
            Some(Rectangle::new(Point::new(x, y), Size::new(w, h)))
        );
    }
}

#[test]
fn other_virtual_outputs_keep_their_workspaces() {
    let outputs = vec![output(1, "A", 0), output(2, "B", 1000), output(3, "C", 2000)];
    let mut shell = Shell::new(None);
    for k in 0..3 {
        shell.add_output(&outputs, k);
    }
    let before = shell.workspace_names_on_output("C");
    let shown = shell.workspace_names_on_output("B");
    shell.switch_to_workspace("A", &shown[0]);
    assert_eq!(shell.workspace_names_on_output("A"), shown);
    assert_ne!(shell.workspace_names_on_output("B"), shown);
    assert_eq!(shell.workspace_names_on_output("C"), before);
    let again = shell.workspace_names_on_output("B");
    shell.switch_to_workspace("A", "new");
    assert_eq!(shell.workspace_names_on_output("A"), vec!["new"]);
    assert_eq!(shell.workspace_names_on_output("B"), again);
    assert_eq!(shell.workspace_names_on_output("C"), before);
}

#[test]
fn each_virtual_output_is_listed_once() {
    let outputs = vec![output(1, "A", 0), output(2, "B", 1000)];
    let mut shell = Shell::new(None);
    shell.load_virtual_outputs(Some("A:0,0,500x500;A:500,0,500x500"), &outputs);
    for _ in 0..2 {
        shell.update_output_position(&outputs);
        let ids = |name: &str| -> Vec<u32> {
            shell
                .virtual_output_manager()
                .virtual_outputs_for_physical(name)
                .iter()
                .map(|v| v.id().0)
                .collect()
        };
        assert_eq!(ids("A"), vec![1, 2]);
        assert_eq!(ids("B"), vec![3]);
        assert!(ids("C").is_empty());
    }
    shell.update_output_position(&outputs[1..].iter().map(|o| output(o.id, &o.name, 0)).collect());
    assert!(shell.virtual_output_manager().virtual_outputs_for_physical("A").is_empty());
}

#[test]
fn floating_and_back_is_tiled() {
    let outputs = vec![output(1, "A", 0)];
    let mut shell = Shell::new(None);
    shell.add_output(&outputs, 0);
    shell.add_window(1, &outputs[0], false, None);
    shell.toggle_floating(1, 1);
    assert!(shell.workspaces()[0].is_floating(1));
    shell.toggle_floating(1, 1);
    assert!(!shell.workspaces()[0].is_floating(1));
    assert_eq!(shell.workspaces()[0].tiled_windows(), vec![1]);
}

#[test]
fn a_moved_output_takes_its_virtual_output_along() {
    let mut state = State::new(Shell::new(None));
    state.add_output(output(1, "A", 0));
    state.add_output(output(2, "B", 1000));
    let mut moved = output(2, "B", 0);
    moved.position = GlobalPoint::new(0, 500);
    state.update_output_position(moved);
    let shown = state.shell().virtual_output_manager().virtual_outputs_for_physical("B");
    assert_eq!(shown.len(), 1);
    assert_eq!(
        shown[0].logical_geometry().as_rectangle(),
        Rectangle::new(Point::new(0, 500), Size::new(1000, 500))
    );
    assert_eq!(state.shell().workspace_names_on_output("B"), vec!["1"]);
    state.update_output_position(output(9, "C", 0));
    assert_eq!(state.outputs().len(), 2);
    assert_eq!(state.outputs()[1].position, GlobalPoint::new(0, 500));
}

#[test]
fn room_is_tested_before_it_is_needed() {
    let mut state = State::new(Shell::new(None));
    let first = output(1, "A", 0);
    assert!(state.can_map_window());
    assert!(state.can_add_output(&first));
    let carry = Action::MoveToWorkspace(String::from("2"));
    assert!(has_room_to_act(state.shell(), &carry, &first));
    let mut dark = output(2, "B", 1000);
    dark.mode = None;
    assert!(!state.can_add_output(&dark));
    assert!(has_room_to_act(state.shell(), &carry, &dark));
    state.shell_mut().set_focus(7);
    assert!(!has_room_to_act(state.shell(), &carry, &dark));
    assert!(has_room_to_act(state.shell(), &Action::Zoom, &dark));
    state.add_output(first);
    assert!(state.can_map_window());
}

#[test]
fn settings_can_be_made_in_any_order() {
    let requests = [
        HeadRequest::SetPosition { x: 1, y: 2 },
        HeadRequest::SetScale(Scale(512)),
        HeadRequest::SetAdaptiveSync(Some(false)),
    ];
    let mut there = PendingOutputConfigurationInner::default();
    let mut back = PendingOutputConfigurationInner::default();
    for i in 0..3 {
        assert_eq!(there.request(requests[i]), Ok(()));
        assert_eq!(back.request(requests[2 - i]), Ok(()));
    }
    assert_eq!(there, back);
    assert_eq!(there.finish(), back.finish());
}

#[test]
fn no_two_connectors_share_a_crtc() {
    let listed = (1..6)
        .map(|handle| ListedConnector { handle, connected: true, candidates: vec![7, 8, 9] })
        .collect();
    let config = display_configuration(&vec![], &listed);
    let crtcs: Vec<_> = config.iter().filter_map(|(_, crtc)| *crtc).collect();
    assert_eq!(crtcs, vec![7, 8, 9]);
    assert_eq!(config.len(), 5);
}

#[test]
fn connectors_have_names_of_their_own() {
    assert_ne!(
        interface_name(Interface::DisplayPort, 1),
        interface_name(Interface::DisplayPort, 11)
    );
    assert_ne!(interface_name(Interface::HDMIA, 1), interface_name(Interface::HDMIB, 1));
}

#[test]
fn an_output_ends_up_with_the_modes_of_its_connector() {
    let mode = |width: u16| DrmMode {
        width,
        height: 600,
        clock: 40000,
        htotal: 1056,
        vtotal: 628,
        preferred: false,
    };
    let mut current = vec![OutputMode { size: Size::new(1, 1), refresh: 1 }];
    let plan = populate_modes(&vec![mode(800), mode(640)], &current).unwrap();
    for added in &plan.add {
        if !current.contains(added) {
            current.push(*added);
        }
    }
    current.retain(|mode| !plan.remove.contains(mode));
    assert_eq!(current, plan.add);
    assert!(current.contains(&plan.preferred));
    let again = populate_modes(&vec![mode(800), mode(640)], &current).unwrap();
    assert!(again.remove.is_empty());
}

#[test]
fn the_rendering_context_settles() {
    for primary in [None, Some(1), Some(2)] {
        for has_egl in [false, true] {
            let mut device = Device::new(1, None);
            device.set_egl(has_egl);
            match device.update_egl(primary) {
                EglPlan::Create => device.set_egl(true),
                EglPlan::Drop => device.set_egl(false),
                EglPlan::Keep | EglPlan::Nothing => {}
            }
            assert!(matches!(device.update_egl(primary), EglPlan::Keep | EglPlan::Nothing));
        }
    }
}

#[test]
fn running_timers_are_the_ones_that_were_started() {
    let mut s = FrameScheduler::new(AdaptiveSync::Disabled);
    let mut running: Vec<u64> = Vec::new();
    let note = |running: &mut Vec<u64>, actions: Vec<FrameAction>| {
        for action in actions {
            match action {
                FrameAction::StartRender(timer) | FrameAction::StartEstimate { timer, .. } => {
                    assert!(!running.contains(&timer));
                    running.push(timer);
                }
                FrameAction::Cancel(timer) => {
                    assert!(running.contains(&timer));
                    running.retain(|other| *other != timer);
                }
                _ => {}
            }
        }
    };
    assert!(s.has_next_timer());
    note(&mut running, s.resume());
    assert_eq!(running, vec![0]);
    running.clear();
    note(&mut running, s.frame_drawn(FrameOutcome::Empty));
    note(&mut running, s.queue_redraw());
    note(&mut running, s.queue_redraw_force(true));
    assert_eq!(running.len(), 2);
    note(&mut running, s.on_vblank(false));
    assert_eq!(running, vec![3]);
    // the scheduler counts a render timer as running until its frame is drawn
    note(&mut running, s.frame_drawn(FrameOutcome::Failed));
    assert_eq!(running, vec![4]);
}
