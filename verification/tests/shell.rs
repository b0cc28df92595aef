use swl::shell::hit::{Element, LayerHit, LayerHits, OutputArea, SurfaceHit};
use swl::shell::model::Command;
use swl::shell::output::{Output, Scale, Transform};
use swl::shell::render::{Layer, LayerSurface, RenderItem, SolidColor};
use swl::shell::tabs::Pointer;
use swl::shell::virtual_output::{
    parse_rectangle_spec, VirtualOutput, VirtualOutputId, VirtualOutputManager,
};
use swl::shell::workspace::WorkspaceId;
use swl::shell::Shell;
use swl::utils::coordinates::{GlobalPoint, VirtualOutputRelativeRect};
use swl::utils::geometry::{Point, Rectangle, Size};

fn rect(x: i32, y: i32, w: i32, h: i32) -> Rectangle {
    Rectangle::new(Point::new(x, y), Size::new(w, h))
}

fn output(id: u64, name: &str, x: i32, w: i32, h: i32) -> Output {
    Output {
        id,
        name: String::from(name),
        position: GlobalPoint::new(x, 0),
        mode: Some(Size::new(w, h)),
        transform: Transform::Normal,
        scale: Scale::identity(),
    }
}

fn one_output() -> (Shell, Vec<Output>) {
    let outputs = vec![output(1, "DP-1", 0, 1003, 602)];
    let mut shell = Shell::new(None);
    shell.add_output(&outputs, 0);
    (shell, outputs)
}

fn element(window: u64, x: i32, y: i32, w: i32, h: i32) -> Element {
    Element {
        window,
        location: Some(GlobalPoint::new(x, y)),
        bbox: rect(0, 0, w, h),
        geometry: rect(0, 0, w, h),
        fullscreen: false,
    }
}

#[test]
fn rectangle_specs_are_parsed_strictly() {
    assert_eq!(parse_rectangle_spec("0,0,1920x1080"), Some(rect(0, 0, 1920, 1080)));
    assert_eq!(parse_rectangle_spec("-5,7,1x2"), Some(rect(-5, 7, 1, 2)));
    assert_eq!(parse_rectangle_spec("0,0,1920"), None);
    assert_eq!(parse_rectangle_spec("0,0"), None);
    assert_eq!(parse_rectangle_spec("0,0,1x2x3"), None);
    assert_eq!(parse_rectangle_spec("a,0,1x2"), None);
}

#[test]
fn a_split_is_scaled_and_placed() {
    let mut o = output(1, "DP-1", 100, 3840, 2160);
    o.scale = Scale(512);
    let v = VirtualOutput::from_split(VirtualOutputId(9), &o, rect(50, 30, 1001, 800));
    assert_eq!(v.id(), VirtualOutputId(9));
    assert_eq!(v.logical_geometry().as_rectangle(), rect(75, 15, 500, 400));
    assert_eq!(v.regions().len(), 1);
    assert_eq!(v.active_workspace(), None);
}

#[test]
fn a_merge_covers_its_regions() {
    let parts = vec![
        (output(1, "A", 0, 800, 600), rect(0, 0, 800, 600)),
        (output(2, "B", 800, 1024, 768), rect(0, 0, 1024, 768)),
    ];
    let v = VirtualOutput::from_merge(VirtualOutputId(1), &parts);
    assert_eq!(v.logical_geometry().as_rectangle(), rect(0, 0, 1824, 768));
    assert_eq!(v.regions().len(), 2);
    let none = VirtualOutput::from_merge(VirtualOutputId(1), &vec![]);
    assert_eq!(none.logical_geometry().as_rectangle(), rect(0, 0, 1920, 1080));
}

#[test]
fn a_configuration_splits_outputs() {
    let outputs = vec![output(1, "DP-1", 0, 3840, 1080), output(2, "DP-2", 3840, 1280, 720)];
    let mut manager = VirtualOutputManager::new();
    manager.load_config(
        Some("DP-1:0,0,1920x1080;DP-1:1920,0,1920x1080;nonsense;DP-9:0,0,1x1"),
        &outputs,
    );
    assert_eq!(manager.len(), 3);
    assert_eq!(manager.at(0).logical_geometry().as_rectangle(), rect(0, 0, 1920, 1080));
    assert_eq!(manager.at(1).logical_geometry().as_rectangle(), rect(1920, 0, 1920, 1080));
    assert_eq!(manager.at(2).logical_geometry().as_rectangle(), rect(3840, 0, 1280, 720));
    assert_eq!(manager.at(2).id(), VirtualOutputId(3));
    assert_eq!(manager.virtual_outputs_for_physical("DP-1").len(), 2);
    assert_eq!(manager.virtual_outputs_for_physical("DP-2").len(), 1);
    assert!(manager.virtual_outputs_for_physical("DP-9").is_empty());
    assert!(manager.get(VirtualOutputId(4)).is_none());
    let before: Vec<_> = manager.all().iter().map(|v| v.logical_geometry()).collect();
    manager.update_all(&outputs);
    let after: Vec<_> = manager.all().iter().map(|v| v.logical_geometry()).collect();
    assert_eq!(before, after);
    manager.load_config(None, &outputs);
    assert_eq!(manager.len(), 3);
}

#[test]
fn virtual_outputs_follow_their_output() {
    let mut outputs = vec![output(1, "DP-1", 0, 800, 600)];
    let mut manager = VirtualOutputManager::new();
    let id = manager.create_default(&outputs[0]);
    outputs[0].position = GlobalPoint::new(100, 0);
    manager.update_all(&outputs);
    assert_eq!(
        manager.get(id).unwrap().logical_geometry().as_rectangle(),
        rect(100, 0, 800, 600)
    );
    manager.get_mut(id).unwrap().update_geometry();
    assert!(manager.get(id).unwrap().regions().is_empty());
}

#[test]
fn an_output_starts_on_the_first_workspace() {
    let (shell, _) = one_output();
    assert_eq!(shell.workspaces().len(), 1);
    assert_eq!(shell.workspaces()[0].name(), "1");
    assert_eq!(shell.find_workspace_owner(WorkspaceId(1)), Some(VirtualOutputId(1)));
    assert_eq!(shell.get_workspace_name(WorkspaceId(1)).as_deref(), Some("1"));
    assert_eq!(shell.get_workspace_name(WorkspaceId(2)), None);
    assert_eq!(shell.workspace_names_on_output("DP-1"), vec!["1"]);
    assert_eq!(shell.virtual_output_at_point(Point::new(5, 5)), Some(VirtualOutputId(1)));
    assert_eq!(shell.virtual_output_at_point(Point::new(-1, 5)), None);
    assert_eq!(
        shell.virtual_output_at_position("DP-1", Point::new(1002, 601)),
        Some(VirtualOutputId(1))
    );
}

#[test]
fn added_windows_are_shown_arranged_and_focused() {
    let (mut shell, outputs) = one_output();
    let commands = shell.add_window(7, &outputs[0], false, None);
    assert_eq!(
        commands,
        vec![
            Command::Show { window: 7, location: Point::new(0, 0) },
            Command::Arrange { output: 1 },
        ]
    );
    assert_eq!(shell.focused_window(), Some(7));
    assert_eq!(shell.focused_virtual_output_id(), Some(VirtualOutputId(1)));
    assert_eq!(shell.focused_physical_outputs(), vec![1]);
    assert_eq!(shell.close_focused(), Some(7));
    let (id, workspace, name) = shell.focused_virtual_output().unwrap();
    assert_eq!((id, workspace, name.as_str()), (VirtualOutputId(1), WorkspaceId(1), "1"));
}

#[test]
fn windows_with_a_parent_float() {
    let (mut shell, outputs) = one_output();
    shell.add_window(7, &outputs[0], true, None);
    assert!(shell.workspaces()[0].is_floating(7));
}

#[test]
fn arranging_places_the_tiles() {
    let (mut shell, outputs) = one_output();
    for window in [1, 2, 3] {
        shell.add_window(window, &outputs[0], false, None);
    }
    let zone = rect(0, 0, 1003, 602);
    let areas = shell.arrangement_areas(&outputs[0], zone);
    assert_eq!(areas, vec![(WorkspaceId(1), VirtualOutputRelativeRect::from(zone))]);
    let commands = shell.arrange_windows_on_output(
        &outputs[0],
        zone,
        &vec![500],
        &vec![],
        &vec![(2, Point::new(10, 5))],
    );
    assert_eq!(
        commands,
        vec![
            Command::Place {
                window: 1,
                location: Point::new(1, 1),
                size: Size::new(500, 600),
                fullscreen: false,
            },
            Command::Place {
                window: 2,
                location: Point::new(492, -4),
                size: Size::new(500, 300),
                fullscreen: false,
            },
            Command::Place {
                window: 3,
                location: Point::new(502, 302),
                size: Size::new(500, 299),
                fullscreen: false,
            },
        ]
    );
    assert_eq!(
        shell.workspaces()[0].rectangle_of(3).map(|r| r.as_rectangle()),
        Some(rect(502, 302, 500, 299))
    );
    assert!(!shell.any_workspace_needs_arrange_on_output("DP-1"));
}

#[test]
fn a_fullscreen_window_fills_the_output() {
    let (mut shell, outputs) = one_output();
    shell.add_window(1, &outputs[0], false, None);
    shell.add_window(2, &outputs[0], false, None);
    shell.set_fullscreen(2, true, 1);
    assert_eq!(shell.get_fullscreen("DP-1"), Some(2));
    let commands = shell.arrange_windows_on_output(
        &outputs[0],
        rect(0, 20, 1003, 582),
        &vec![500],
        &vec![],
        &vec![],
    );
    assert_eq!(
        commands,
        vec![Command::Place {
            window: 2,
            location: Point::new(0, 0),
            size: Size::new(1003, 602),
            fullscreen: true,
        }]
    );
    shell.set_fullscreen(1, false, 1);
    assert_eq!(shell.get_fullscreen("DP-1"), Some(2));
    shell.set_fullscreen(2, false, 1);
    assert_eq!(shell.get_fullscreen("DP-1"), None);
    shell.toggle_fullscreen(1);
    assert_eq!(shell.get_fullscreen("DP-1"), Some(2));
}

#[test]
fn a_rotated_output_swaps_the_fullscreen_size() {
    let mut o = output(1, "DP-1", 0, 1920, 1080);
    o.transform = Transform::Rotated90;
    assert_eq!(o.fullscreen_size(Size::new(0, 0)), Size::new(1080, 1920));
    o.scale = Scale(384);
    assert_eq!(o.fullscreen_size(Size::new(0, 0)), Size::new(720, 1280));
    assert_eq!(o.requested_size(), Some(Size::new(1280, 720)));
    o.mode = None;
    assert_eq!(o.fullscreen_size(Size::new(3, 4)), Size::new(3, 4));
    assert_eq!(o.requested_size(), None);
}

#[test]
fn logical_lengths_are_cut_or_rounded() {
    let scale = Scale(512);
    assert_eq!(scale.to_logical(5), 2);
    assert_eq!(scale.to_logical(-5), -2);
    assert_eq!(scale.to_logical_rounded(5), 3);
    assert_eq!(scale.to_logical_rounded(-5), -3);
    assert_eq!(Scale(384).to_logical_rounded(1000), 667);
    assert_eq!(Scale::identity().to_logical_rounded(17), 17);
    assert_eq!(Scale(0).to_logical(1), i32::MAX);
    for (n, v) in [(320, 1920), (333, 1081), (448, 2560), (640, 1)] {
        let f = v as f64 / (n as f64 / 256.0);
        assert_eq!(Scale(n).to_logical(v), f as i32);
        assert_eq!(Scale(n).to_logical_rounded(v), f.round() as i32);
    }
}

#[test]
fn switching_hides_and_shows_and_keeps_workspaces_one_to_one() {
    let outputs = vec![output(1, "A", 0, 800, 600), output(2, "B", 800, 800, 600)];
    let mut shell = Shell::new(None);
    shell.add_output(&outputs, 0);
    shell.add_window(7, &outputs[0], false, None);
    let commands = shell.add_output(&outputs, 1);
    // the second output takes the first workspace over
    assert_eq!(
        commands,
        vec![
            Command::Hide { window: 7 },
            Command::Show { window: 7, location: Point::new(0, 0) },
            Command::Arrange { output: 2 },
        ]
    );
    assert_eq!(shell.workspace_names_on_output("A"), vec!["2"]);
    assert_eq!(shell.workspace_names_on_output("B"), vec!["1"]);
    shell.switch_to_workspace("A", "1");
    assert_eq!(shell.workspace_names_on_output("A"), vec!["1"]);
    // "2" is still shown on A when B looks for another workspace
    assert_eq!(shell.workspace_names_on_output("B"), vec!["3"]);
    let again = shell.switch_to_workspace("A", "1");
    assert_eq!(
        again,
        vec![
            Command::Hide { window: 7 },
            Command::Show { window: 7, location: Point::new(0, 0) },
            Command::Arrange { output: 1 },
        ]
    );
    assert!(shell.switch_to_workspace("C", "1").is_empty());
}

#[test]
fn moving_a_window_leaves_it_in_one_workspace() {
    let (mut shell, outputs) = one_output();
    shell.add_window(7, &outputs[0], false, None);
    let commands = shell.move_window_to_workspace(7, "4", "DP-1", false, &vec![]);
    assert_eq!(commands, vec![Command::Hide { window: 7 }]);
    let holders: Vec<_> = shell.workspaces().iter().filter(|w| w.contains(7)).collect();
    assert_eq!(holders.len(), 1);
    assert_eq!(holders[0].name(), "4");
    assert_eq!(shell.focused_window(), Some(7));
    assert_eq!(shell.focused_virtual_output_id(), None);
}

#[test]
fn removed_windows_lose_focus_and_name_the_outputs_to_draw() {
    let (mut shell, outputs) = one_output();
    shell.add_window(7, &outputs[0], false, None);
    let (commands, affected) = shell.remove_window(7, &vec![]);
    assert_eq!(commands, vec![Command::Hide { window: 7 }]);
    assert_eq!(affected, vec![1]);
    assert_eq!(shell.focused_window(), None);
    let (_, affected) = shell.remove_window(7, &vec![]);
    assert!(affected.is_empty());
}

#[test]
fn focus_goes_round_the_tiled_windows() {
    let (mut shell, outputs) = one_output();
    for window in [1, 2, 3] {
        shell.add_window(window, &outputs[0], false, None);
    }
    shell.focus_next(&vec![]);
    assert_eq!(shell.focused_window(), Some(1));
    shell.focus_next(&vec![]);
    assert_eq!(shell.focused_window(), Some(2));
    shell.focus_prev(&vec![]);
    shell.focus_prev(&vec![]);
    assert_eq!(shell.focused_window(), Some(3));
    shell.focus_next(&vec![1]);
    assert_eq!(shell.focused_window(), Some(2));
}

#[test]
fn focus_falls_back_on_the_last_window_alive() {
    let (mut shell, outputs) = one_output();
    for window in [1, 2, 3] {
        shell.add_window(window, &outputs[0], false, None);
    }
    assert_eq!(shell.refresh_focus(&vec![3]), Some(2));
    assert_eq!(shell.focused_window(), Some(2));
    assert_eq!(shell.refresh_focus(&vec![1, 2, 3]), None);
    assert_eq!(shell.focused_virtual_output_id(), None);
}

#[test]
fn zoom_brings_the_focused_window_to_the_front() {
    let (mut shell, outputs) = one_output();
    for window in [1, 2, 3] {
        shell.add_window(window, &outputs[0], false, None);
    }
    assert_eq!(shell.zoom(1), vec![Command::Arrange { output: 1 }]);
    assert_eq!(shell.workspaces()[0].windows(), &vec![3, 2, 1]);
    assert!(shell.zoom(1).is_empty());
}

#[test]
fn zoom_passes_floating_windows_over() {
    let (mut shell, outputs) = one_output();
    shell.add_window(1, &outputs[0], true, None);
    for window in [2, 3, 4] {
        shell.add_window(window, &outputs[0], false, None);
    }
    assert_eq!(shell.zoom(1), vec![Command::Arrange { output: 1 }]);
    assert_eq!(shell.workspaces()[0].windows(), &vec![1, 4, 3, 2]);
    assert_eq!(shell.workspaces()[0].find_master(), Some(1));
    assert!(shell.zoom(1).is_empty());
    shell.set_focus(1);
    assert!(shell.zoom(1).is_empty());
    assert_eq!(shell.workspaces()[0].windows(), &vec![1, 4, 3, 2]);
}

#[test]
fn a_removed_window_leaves_every_workspace() {
    let outputs = vec![output(1, "A", 0, 800, 600), output(2, "B", 800, 800, 600)];
    let mut shell = Shell::new(None);
    shell.add_output(&outputs, 0);
    shell.add_output(&outputs, 1);
    shell.add_window_to_virtual_output(5, VirtualOutputId(1), false);
    shell.add_window_to_virtual_output(5, VirtualOutputId(2), false);
    assert!(shell.workspaces()[0].contains(5) && shell.workspaces()[1].contains(5));
    let (commands, affected) = shell.remove_window(5, &vec![]);
    assert_eq!(commands, vec![Command::Hide { window: 5 }]);
    assert_eq!(affected, vec![1, 2]);
    assert!(!shell.workspaces()[0].contains(5) && !shell.workspaces()[1].contains(5));
    assert!(shell.workspaces()[0].focus_stack().is_empty());
    assert_eq!(shell.focused_window(), None);
}

#[test]
fn the_pointer_decides_where_a_window_goes() {
    let outputs = vec![output(1, "DP-1", 0, 1000, 600)];
    let mut shell = Shell::new(None);
    shell.load_virtual_outputs(Some("DP-1:0,0,500x600;DP-1:500,0,500x600"), &outputs);
    shell.switch_workspace_on_virtual(VirtualOutputId(1), "left");
    shell.switch_workspace_on_virtual(VirtualOutputId(2), "right");
    shell.add_window(1, &outputs[0], false, Some(Point::new(700, 10)));
    shell.add_window(2, &outputs[0], false, Some(Point::new(499, 10)));
    // off both, the first is taken
    shell.add_window(3, &outputs[0], false, Some(Point::new(-1000, -1000)));
    shell.add_window(4, &outputs[0], false, None);
    assert_eq!(shell.workspaces()[0].windows(), &vec![2, 3, 4]);
    assert_eq!(shell.workspaces()[1].windows(), &vec![1]);
}

#[test]
fn a_fullscreen_window_is_not_tiled() {
    let (mut shell, outputs) = one_output();
    for window in [1, 2, 3] {
        shell.add_window(window, &outputs[0], false, None);
    }
    shell.active_workspace_mut("DP-1").unwrap().toggle_layout_mode();
    assert_eq!(shell.workspaces()[0].active_tab_index(), 2);
    shell.set_fullscreen(2, true, 1);
    assert_eq!(shell.workspaces()[0].tiled_windows(), vec![1, 3]);
    assert_eq!(shell.workspaces()[0].active_tab_index(), 1);
    shell.set_fullscreen(2, false, 1);
    assert_eq!(shell.workspaces()[0].tiled_windows(), vec![1, 2, 3]);
    shell.set_focus(3);
    shell.toggle_floating(3, 1);
    assert_eq!(shell.workspaces()[0].active_tab_index(), 1);
}

/// A shell with three windows as tabs, of which the last is active.
fn three_tabs() -> (Shell, Vec<Output>) {
    let (mut shell, outputs) = one_output();
    for window in [1, 2, 3] {
        shell.add_window(window, &outputs[0], false, None);
    }
    shell.active_workspace_mut("DP-1").unwrap().toggle_layout_mode();
    (shell, outputs)
}

#[test]
fn fullscreen_and_back_leaves_the_tab() {
    let (mut shell, _) = three_tabs();
    for window in [3, 2, 1] {
        shell.set_fullscreen(window, true, 1);
        assert_eq!(shell.workspaces()[0].active_tab_index(), 1);
        shell.set_fullscreen(window, false, 1);
        assert_eq!(shell.workspaces()[0].active_tab_index(), 2);
        assert_eq!(shell.workspaces()[0].tiled_windows(), vec![1, 2, 3]);
    }
    shell.set_focus(2);
    for _ in 0..2 {
        shell.toggle_fullscreen(1);
        assert_eq!(shell.workspaces()[0].active_tab_index(), 1);
    }
    shell.set_focus(3);
    shell.toggle_fullscreen(1);
    assert_eq!(shell.workspaces()[0].active_tab_index(), 1);
    shell.toggle_fullscreen(1);
    assert_eq!(shell.workspaces()[0].active_tab_index(), 2);
}

#[test]
fn floating_and_back_leaves_the_tab() {
    let (mut shell, _) = three_tabs();
    for window in [3, 2, 1] {
        shell.toggle_floating(window, 1);
        assert_eq!(shell.workspaces()[0].active_tab_index(), 1);
        shell.toggle_floating(window, 1);
        assert_eq!(shell.workspaces()[0].active_tab_index(), 2);
        assert_eq!(shell.workspaces()[0].tiled_windows(), vec![1, 2, 3]);
    }
}

#[test]
fn a_tab_chosen_in_between_stays() {
    let (mut shell, _) = three_tabs();
    shell.set_fullscreen(3, true, 1);
    assert_eq!(shell.active_workspace_mut("DP-1").unwrap().next_tab(), Some(1));
    shell.set_fullscreen(3, false, 1);
    assert_eq!(shell.workspaces()[0].active_tab_index(), 0);
}

#[test]
fn a_window_that_tiles_again_leaves_the_tab() {
    let (mut shell, outputs) = one_output();
    shell.add_window(1, &outputs[0], false, None);
    shell.add_window(2, &outputs[0], false, None);
    shell.active_workspace_mut("DP-1").unwrap().toggle_layout_mode();
    shell.set_focus(1);
    shell.add_window(3, &outputs[0], true, None);
    assert_eq!(shell.focused_window(), Some(3));
    shell.toggle_floating(3, 1);
    assert_eq!(shell.workspaces()[0].tiled_windows(), vec![1, 2, 3]);
    assert_eq!(shell.workspaces()[0].active_tab_index(), 0);
}

#[test]
fn fullscreen_is_toggled_where_the_focused_window_is() {
    let (mut shell, outputs) = one_output();
    shell.add_window(1, &outputs[0], false, None);
    shell.switch_to_workspace("DP-1", "2");
    assert_eq!(shell.focused_window(), Some(1));
    shell.toggle_fullscreen(1);
    assert_eq!(shell.workspaces()[0].fullscreen(), Some(1));
    assert_eq!(shell.workspaces()[1].fullscreen(), None);
    assert_eq!(shell.get_fullscreen("DP-1"), None);
    shell.toggle_fullscreen(1);
    assert_eq!(shell.workspaces()[0].fullscreen(), None);
}

#[test]
fn tabs_fill_the_bar() {
    let (mut shell, outputs) = one_output();
    shell.add_window(1, &outputs[0], false, None);
    shell.add_window(2, &outputs[0], false, None);
    shell.active_workspace_mut("DP-1").unwrap().toggle_layout_mode();
    let zone = rect(0, 0, 1003, 602);
    shell.arrange_windows_on_output(&outputs[0], zone, &vec![0], &vec![], &vec![]);
    let items = shell.render_elements(&outputs[0], &vec![], &vec![]);
    let bar: Vec<_> = items
        .iter()
        .filter_map(|item| match item {
            RenderItem::Solid { color, location, size } if size.h == 6 => {
                Some((*color, location.x, size.w))
            }
            _ => None,
        })
        .collect();
    assert_eq!(
        bar,
        vec![
            (SolidColor::Unfocused, 0, 499),
            (SolidColor::Separator, 499, 2),
            (SolidColor::Focused, 501, 502),
        ]
    );
}

#[test]
fn floating_is_toggled_back_and_forth() {
    let (mut shell, outputs) = one_output();
    shell.add_window(1, &outputs[0], false, None);
    assert_eq!(
        shell.toggle_floating(1, 1),
        vec![Command::Release { window: 1 }, Command::Arrange { output: 1 }]
    );
    assert!(shell.workspaces()[0].is_floating(1));
    assert_eq!(shell.toggle_floating(1, 1), vec![Command::Arrange { output: 1 }]);
    assert!(!shell.workspaces()[0].is_floating(1));
}

#[test]
fn tabbed_workspaces_show_one_window() {
    let (mut shell, outputs) = one_output();
    shell.add_window(1, &outputs[0], false, None);
    shell.add_window(2, &outputs[0], false, None);
    shell.active_workspace_mut("DP-1").unwrap().toggle_layout_mode();
    let zone = rect(0, 0, 1003, 602);
    let commands =
        shell.arrange_windows_on_output(&outputs[0], zone, &vec![0], &vec![], &vec![]);
    assert_eq!(
        commands,
        vec![
            Command::Hide { window: 1 },
            Command::Hide { window: 2 },
            Command::Place {
                window: 2,
                location: Point::new(0, 6),
                size: Size::new(1003, 596),
                fullscreen: false,
            },
        ]
    );
    let at = |x: i32, y: i32| Pointer {
        floor: Point::new(x, y),
        ceil: Point::new(x, y),
        round: Point::new(x, y),
    };
    assert!(!shell.handle_tab_click("DP-1", &at(10, 6)));
    assert!(shell.handle_tab_click("DP-1", &at(10, 3)));
    assert_eq!(shell.focused_window(), Some(1));
    assert_eq!(shell.workspaces()[0].active_tab_index(), 0);
}

#[test]
fn points_find_windows_and_outputs() {
    let (shell, _) = one_output();
    let elements = vec![element(1, 10, 10, 100, 100), element(2, 50, 50, 100, 100)];
    assert_eq!(shell.window_under(&elements, Point::new(60, 60)), Some(1));
    assert_eq!(shell.window_under(&elements, Point::new(120, 120)), Some(2));
    assert_eq!(shell.window_under(&elements, Point::new(5, 5)), None);
    let areas = vec![OutputArea { output: 4, geometry: rect(0, 0, 200, 200) }];
    assert_eq!(shell.output_at(&areas, Point::new(199, 0)), Some(4));
    assert_eq!(shell.output_at(&areas, Point::new(200, 0)), None);
    assert_eq!(shell.visible_output_for_surface(&areas, &elements, &vec![2]), Some(4));
    assert_eq!(shell.visible_output_for_surface(&areas, &elements, &vec![3]), None);
}

#[test]
fn layers_above_windows_are_hit_first() {
    let (shell, _) = one_output();
    let areas = vec![OutputArea { output: 4, geometry: rect(100, 0, 200, 200) }];
    let elements = vec![element(1, 110, 10, 100, 100)];
    let hit = |surface: u64| SurfaceHit { surface, location: Point::new(1, 2) };
    let layer = |surface: u64| Some(LayerHit { hit: hit(surface), layer_location: Point::new(3, 4) });
    let none = LayerHits { overlay: None, top: None, bottom: None, background: None };
    let point = Point::new(120, 20);
    let under = |layers: LayerHits, hits: Vec<Option<SurfaceHit>>, p: Point| {
        shell.surface_under(&areas, &elements, &hits, &layers, p)
    };
    assert_eq!(
        under(LayerHits { top: layer(9), ..none }, vec![Some(hit(5))], point),
        Some(SurfaceHit { surface: 9, location: Point::new(104, 6) })
    );
    assert_eq!(
        under(LayerHits { bottom: layer(9), ..none }, vec![Some(hit(5))], point),
        Some(SurfaceHit { surface: 5, location: Point::new(111, 12) })
    );
    assert_eq!(
        under(LayerHits { background: layer(9), ..none }, vec![None], point).map(|h| h.surface),
        Some(9)
    );
    assert_eq!(
        under(LayerHits { overlay: layer(9), ..none }, vec![None], Point::new(0, 0)),
        None
    );
}

#[test]
fn what_is_drawn_comes_front_to_back() {
    let (mut shell, outputs) = one_output();
    shell.add_window(1, &outputs[0], false, None);
    let zone = rect(0, 0, 1003, 602);
    shell.arrange_windows_on_output(&outputs[0], zone, &vec![0], &vec![], &vec![]);
    let elements = vec![element(1, 1, 1, 1001, 600)];
    let layers = vec![
        LayerSurface { surface: 20, layer: Layer::Background, geometry: Some(rect(0, 0, 5, 5)) },
        LayerSurface { surface: 21, layer: Layer::Overlay, geometry: Some(rect(7, 8, 5, 5)) },
        LayerSurface { surface: 22, layer: Layer::Top, geometry: None },
        LayerSurface { surface: 23, layer: Layer::Top, geometry: Some(rect(1, 1, 5, 5)) },
    ];
    assert_eq!(
        shell.render_elements(&outputs[0], &elements, &layers),
        vec![
            RenderItem::Layer { surface: 21, location: Point::new(7, 8) },
            RenderItem::Layer { surface: 23, location: Point::new(1, 1) },
            RenderItem::Window { window: 1, location: Point::new(1, 1) },
            RenderItem::Solid {
                color: SolidColor::Focused,
                location: Point::new(0, 0),
                size: Size::new(1003, 602),
            },
            RenderItem::Solid {
                color: SolidColor::Unfocused,
                location: Point::new(0, 0),
                size: Size::new(1003, 602),
            },
            RenderItem::Layer { surface: 20, location: Point::new(0, 0) },
        ]
    );
}

#[test]
fn popups_stay_on_the_output_of_their_window() {
    let (shell, _) = one_output();
    let mut window = element(1, 110, 20, 100, 100);
    window.geometry = rect(5, 6, 100, 100);
    let bounds =
        shell.unconstrain_popup(Some(window), Some(Some(rect(100, 0, 800, 600))), Point::new(2, 3));
    assert_eq!(bounds, Some(rect(-17, -29, 800, 600)));
    let unknown = shell.unconstrain_popup(Some(window), Some(None), Point::new(0, 0));
    assert_eq!(unknown, Some(rect(-115, -26, 1920, 1080)));
    assert_eq!(shell.unconstrain_popup(None, Some(None), Point::new(0, 0)), None);
    assert_eq!(shell.unconstrain_popup(Some(window), None, Point::new(0, 0)), None);
}
