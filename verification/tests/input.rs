use swl::input::devices::{touchpad_settings, TouchpadSetting};
use swl::input::events::{
    axis_frame, filter_key, handle_button, process_input_event, AxisAmount, AxisFrame, AxisSource,
    InputEvent, InputOutcome,
};
use swl::input::keybindings::{
    Action, Keybinding, Keybindings, Modifiers, KEY_0, KEY_1, KEY_E, KEY_F1, KEY_J, KEY_TAB,
};
use swl::input::launch::launch_candidates;
use swl::input::{handle_action, FocusChange, Request};
use swl::shell::hit::{Element, LayerHits, OutputArea, SurfaceHit};
use swl::shell::model::Command;
use swl::shell::output::{Output, Scale, Transform};
use swl::shell::workspace::{LayoutMode, WorkspaceId};
use swl::shell::Shell;
use swl::utils::coordinates::GlobalPoint;
use swl::utils::geometry::{Point, Rectangle, Size};

const NONE: Modifiers = Modifiers { ctrl: false, alt: false, shift: false, logo: false };

fn logo() -> Modifiers {
    Modifiers { logo: true, ..NONE }
}

fn output() -> Output {
    Output {
        id: 1,
        name: String::from("DP-1"),
        position: GlobalPoint::new(0, 0),
        mode: Some(Size::new(800, 600)),
        transform: Transform::Normal,
        scale: Scale::identity(),
    }
}

fn shell_with(windows: &[u64]) -> Shell {
    let mut shell = Shell::new(None);
    shell.add_output(&vec![output()], 0);
    for &window in windows {
        shell.add_window(window, &output(), false, None);
    }
    shell
}

fn element(window: u64) -> Element {
    Element {
        window,
        location: Some(GlobalPoint::new(0, 0)),
        bbox: Rectangle::new(Point::new(0, 0), Size::new(100, 100)),
        geometry: Rectangle::new(Point::new(0, 0), Size::new(100, 100)),
        fullscreen: false,
    }
}

#[test]
fn the_modifier_follows_the_setting() {
    let alt = Modifiers { alt: true, ..NONE };
    assert_eq!(Keybindings::get_modkey(None), logo());
    assert_eq!(Keybindings::get_modkey(Some("ALT")), alt);
    assert_eq!(Keybindings::get_modkey(Some("alt")), alt);
    assert_eq!(Keybindings::get_modkey(Some("Windows")), logo());
    assert_eq!(Keybindings::get_modkey(Some("hyper")), logo());
}

#[test]
fn keys_are_bound_as_documented() {
    let bindings = Keybindings::new(None);
    let shifted = Modifiers { shift: true, ..logo() };
    assert_eq!(bindings.check(&logo(), KEY_J, true), Some(Action::FocusNext));
    assert_eq!(bindings.check(&logo(), KEY_J, false), None);
    assert_eq!(bindings.check(&NONE, KEY_J, true), None);
    assert_eq!(bindings.check(&shifted, KEY_E, true), Some(Action::Quit));
    assert_eq!(bindings.check(&logo(), KEY_TAB, true), Some(Action::NextTab));
    assert_eq!(bindings.check(&shifted, KEY_TAB, true), Some(Action::PrevTab));
    assert_eq!(
        bindings.check(&logo(), KEY_1 + 8, true),
        Some(Action::SwitchToWorkspace(String::from("9")))
    );
    assert_eq!(
        bindings.check(&logo(), KEY_0, true),
        Some(Action::SwitchToWorkspace(String::from("10")))
    );
    assert_eq!(
        bindings.check(&shifted, KEY_0, true),
        Some(Action::MoveToWorkspace(String::from("10")))
    );
    let terminal = Modifiers { ctrl: true, alt: true, ..NONE };
    assert_eq!(bindings.check(&terminal, KEY_F1 + 11, true), Some(Action::VtSwitch(12)));
}

#[test]
fn another_modifier_moves_the_bindings() {
    let bindings = Keybindings::new(Some("Alt"));
    let alt = Modifiers { alt: true, ..NONE };
    assert_eq!(bindings.check(&alt, KEY_J, true), Some(Action::FocusNext));
    assert_eq!(bindings.check(&logo(), KEY_J, true), None);
}

#[test]
fn a_binding_wants_its_modifiers_exactly() {
    let binding = Keybinding::new(logo(), KEY_J, Action::Zoom);
    assert!(binding.matches(&logo(), KEY_J));
    assert!(!binding.matches(&Modifiers { shift: true, ..logo() }, KEY_J));
    assert!(!binding.matches(&logo(), KEY_E));
}

#[test]
fn the_unshifted_key_counts() {
    let bindings = Keybindings::new(None);
    assert_eq!(
        filter_key(&bindings, &logo(), Some(KEY_J), 0x4a, true),
        Some(Action::FocusNext)
    );
    assert_eq!(filter_key(&bindings, &logo(), None, KEY_J, true), Some(Action::FocusNext));
    assert_eq!(filter_key(&bindings, &logo(), None, 0x4a, true), None);
}

#[test]
fn a_click_focuses_the_window_under_it() {
    let mut shell = shell_with(&[1, 2]);
    let elements = vec![element(1)];
    let inside = Point::new(5, 5);
    assert_eq!(handle_button(&mut shell, &elements, inside, false), FocusChange::Keep);
    assert_eq!(shell.focused_window(), Some(2));
    assert_eq!(handle_button(&mut shell, &elements, inside, true), FocusChange::Give(1));
    assert_eq!(shell.focused_window(), Some(1));
    assert_eq!(
        handle_button(&mut shell, &elements, Point::new(500, 5), true),
        FocusChange::Keep
    );
}

#[test]
fn scrolling_stops_when_fingers_lift() {
    let still = Some(AxisAmount { is_zero: true, v120: None });
    let moved = Some(AxisAmount { is_zero: false, v120: Some(120) });
    assert!(axis_frame(still, still, AxisSource::Finger).stop);
    assert!(!axis_frame(still, still, AxisSource::Wheel).stop);
    assert!(!axis_frame(still, None, AxisSource::Finger).stop);
    assert_eq!(
        axis_frame(None, moved, AxisSource::Wheel),
        AxisFrame {
            horizontal_value: false,
            horizontal_v120: None,
            vertical_value: true,
            vertical_v120: Some(120),
            stop: false,
        }
    );
}

#[test]
fn events_are_told_apart() {
    let mut shell = shell_with(&[1]);
    let bindings = Keybindings::new(None);
    let elements = vec![element(1)];
    let areas = vec![OutputArea {
        output: 1,
        geometry: Rectangle::new(Point::new(0, 0), Size::new(800, 600)),
    }];
    let mut run = |event: InputEvent| {
        process_input_event(&mut shell, &bindings, &event, &elements, &areas)
    };
    let key = |pressed: bool| InputEvent::Key {
        modifiers: logo(),
        raw_latin: Some(KEY_J),
        typed: KEY_J,
        pressed,
    };
    assert!(matches!(run(key(true)), InputOutcome::Act(Action::FocusNext)));
    assert!(matches!(run(key(false)), InputOutcome::Forward));
    let layers = LayerHits { overlay: None, top: None, bottom: None, background: None };
    let hit = SurfaceHit { surface: 4, location: Point::new(2, 3) };
    let motion = |x: i32| InputEvent::Motion {
        point: Point::new(x, 10),
        hits: vec![Some(hit)],
        layers,
    };
    match run(motion(10)) {
        InputOutcome::Move { target, render } => {
            assert_eq!(target, Some(hit));
            assert_eq!(render, Some(1));
        }
        _ => panic!("the pointer has not moved"),
    }
    assert!(matches!(run(motion(200)), InputOutcome::Move { target: None, render: Some(1) }));
    assert!(matches!(run(motion(900)), InputOutcome::Move { target: None, render: None }));
    assert!(matches!(
        run(InputEvent::Button { point: Point::new(10, 10), pressed: true }),
        InputOutcome::Click(FocusChange::Give(1))
    ));
    assert!(matches!(run(InputEvent::Gesture), InputOutcome::Forward));
    assert!(matches!(run(InputEvent::Other), InputOutcome::Ignore));
    assert!(matches!(run(InputEvent::DeviceAdded), InputOutcome::Ignore));
}

#[test]
fn actions_without_an_output_do_little() {
    let mut shell = shell_with(&[1]);
    let r = handle_action(&mut shell, &Action::FocusNext, None, false, &vec![]);
    assert_eq!(r.focus, FocusChange::Give(1));
    let r = handle_action(&mut shell, &Action::Zoom, None, false, &vec![]);
    assert_eq!((r.render, r.request), (None, Request::Nothing));
    let r = handle_action(&mut shell, &Action::CloseWindow, None, false, &vec![]);
    assert_eq!(r.request, Request::Close(1));
    let r = handle_action(&mut shell, &Action::Quit, None, false, &vec![]);
    assert_eq!(r.request, Request::Quit);
    let r = handle_action(&mut shell, &Action::VtSwitch(3), None, false, &vec![]);
    assert_eq!(r.request, Request::SwitchTerminal(3));
}

#[test]
fn layout_actions_change_the_active_workspace() {
    let mut shell = shell_with(&[1, 2]);
    let o = output();
    let r = handle_action(&mut shell, &Action::IncreaseMasterCount, Some(&o), false, &vec![]);
    assert_eq!(r.render, Some(1));
    assert_eq!(shell.workspaces()[0].tiling().n_master(), 2);
    handle_action(&mut shell, &Action::DecreaseMasterCount, Some(&o), false, &vec![]);
    handle_action(&mut shell, &Action::DecreaseMasterCount, Some(&o), false, &vec![]);
    handle_action(&mut shell, &Action::DecreaseMasterCount, Some(&o), false, &vec![]);
    assert_eq!(shell.workspaces()[0].tiling().n_master(), 0);
    let r = handle_action(&mut shell, &Action::IncreaseMasterWidth, Some(&o), false, &vec![]);
    assert_eq!(r.request, Request::WidenMaster(WorkspaceId(1)));
    let r = handle_action(&mut shell, &Action::DecreaseMasterWidth, Some(&o), false, &vec![]);
    assert_eq!(r.request, Request::NarrowMaster(WorkspaceId(1)));
    handle_action(&mut shell, &Action::ToggleLayoutMode, Some(&o), false, &vec![]);
    assert_eq!(shell.workspaces()[0].layout_mode(), LayoutMode::Tabbed);
    let r = handle_action(&mut shell, &Action::NextTab, Some(&o), false, &vec![]);
    assert_eq!(r.focus, FocusChange::Give(1));
    let r = handle_action(&mut shell, &Action::PrevTab, Some(&o), false, &vec![]);
    assert_eq!(r.focus, FocusChange::Give(2));
}

#[test]
fn switching_to_an_empty_workspace_keeps_the_old_focus() {
    let mut shell = shell_with(&[1]);
    let o = output();
    let action = Action::SwitchToWorkspace(String::from("5"));
    let r = handle_action(&mut shell, &action, Some(&o), false, &vec![]);
    assert_eq!(r.commands, vec![Command::Hide { window: 1 }, Command::Arrange { output: 1 }]);
    assert_eq!(r.focus, FocusChange::Give(1));
    assert_eq!(shell.workspace_names_on_output("DP-1"), vec!["5"]);
}

#[test]
fn a_window_is_carried_to_its_new_workspace() {
    let mut shell = shell_with(&[1, 2]);
    let o = output();
    let action = Action::MoveToWorkspace(String::from("2"));
    let r = handle_action(&mut shell, &action, Some(&o), false, &vec![]);
    assert_eq!(r.focus, FocusChange::Give(2));
    assert_eq!(
        r.commands,
        vec![
            Command::Hide { window: 2 },
            Command::Hide { window: 1 },
            Command::Arrange { output: 1 },
            Command::Show { window: 2, location: Point::new(0, 0) },
            Command::Arrange { output: 1 },
        ]
    );
    assert_eq!(shell.workspaces()[1].windows(), &vec![2]);
    assert_eq!(shell.workspaces()[0].windows(), &vec![1]);
}

#[test]
fn a_carried_window_is_in_one_workspace() {
    let mut shell = shell_with(&[1, 2, 3]);
    let o = output();
    for name in ["7", "1", "2", "2"] {
        let action = Action::MoveToWorkspace(String::from(name));
        handle_action(&mut shell, &action, Some(&o), false, &vec![]);
        assert_eq!(shell.focused_window(), Some(3));
        assert_eq!(shell.workspace_names_on_output("DP-1"), vec![name]);
        for w in shell.workspaces() {
            assert_eq!(w.contains(3), w.name() == name);
            assert_eq!(w.contains(1), w.name() == "1");
            assert_eq!(w.contains(2), w.name() == "1");
        }
    }
}

#[test]
fn without_a_virtual_output_a_window_is_carried_to_the_first_workspace() {
    let mut shell = shell_with(&[1]);
    let other = Output { id: 2, name: String::from("DP-2"), ..output() };
    let action = Action::MoveToWorkspace(String::from("4"));
    handle_action(&mut shell, &action, Some(&other), false, &vec![]);
    assert_eq!(shell.workspaces().len(), 1);
    assert_eq!(shell.workspaces()[0].windows(), &vec![1]);
    assert_eq!(shell.workspace_names_on_output("DP-2"), vec!["1"]);
}

#[test]
fn fullscreen_and_floating_are_toggled_by_key() {
    let mut shell = shell_with(&[1]);
    let o = output();
    handle_action(&mut shell, &Action::Fullscreen, Some(&o), false, &vec![]);
    assert_eq!(shell.get_fullscreen("DP-1"), Some(1));
    handle_action(&mut shell, &Action::Fullscreen, Some(&o), false, &vec![]);
    assert_eq!(shell.get_fullscreen("DP-1"), None);
    let r = handle_action(&mut shell, &Action::ToggleFloating, Some(&o), false, &vec![]);
    assert_eq!(
        r.commands,
        vec![Command::Release { window: 1 }, Command::Arrange { output: 1 }]
    );
}

#[test]
fn touchpads_are_set_up_and_mice_are_not() {
    assert!(touchpad_settings(0, true).is_empty());
    assert_eq!(
        touchpad_settings(3, false),
        vec![
            TouchpadSetting::TapToClick(true),
            TouchpadSetting::TapDrag(true),
            TouchpadSetting::DragLock(true),
        ]
    );
    assert_eq!(touchpad_settings(1, true)[3], TouchpadSetting::DisableWhileTyping(false));
}

#[test]
fn menus_are_tried_in_order() {
    let menus = launch_candidates(Request::LaunchMenu, "wayland-1");
    assert_eq!(menus.len(), 2);
    assert_eq!(menus[0].program, "wofi");
    assert_eq!(menus[0].args, vec!["--show", "drun"]);
    assert_eq!(menus[1].program, "dmenu_run");
    assert!(menus[1].args.is_empty());
    assert_eq!(menus[1].display.as_deref(), Some("wayland-1"));
    let terminals = launch_candidates(Request::LaunchTerminal, "wayland-1");
    assert_eq!(terminals.len(), 1);
    assert_eq!(terminals[0].program, "foot");
    assert!(launch_candidates(Request::Quit, "wayland-1").is_empty());
}
