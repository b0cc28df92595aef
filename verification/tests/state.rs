use swl::shell::hit::{Element, OutputArea};
use swl::shell::model::Command;
use swl::shell::output::{Output, Scale, Transform};
use swl::shell::Shell;
use swl::state::{Commit, Effect, SessionChange, State, Tick};
use swl::utils::coordinates::GlobalPoint;
use swl::utils::geometry::{Point, Rectangle, Size};

fn output(id: u64, name: &str, x: i32) -> Output {
    Output {
        id,
        name: String::from(name),
        position: GlobalPoint::new(x, 0),
        mode: Some(Size::new(800, 600)),
        transform: Transform::Normal,
        scale: Scale(384),
    }
}

fn state() -> State {
    let mut state = State::new(Shell::new(None));
    state.add_output(output(1, "A", 0));
    state
}

fn commit(surface: u64) -> Commit {
    Commit {
        surface,
        has_buffer: true,
        fullscreen: false,
        has_parent: false,
        pointer: Point { x: 0, y: 0 },
        elements: vec![Element {
            window: 70,
            location: Some(GlobalPoint::new(0, 0)),
            bbox: Rectangle::new(Point::new(0, 0), Size::new(10, 10)),
            geometry: Rectangle::new(Point::new(0, 0), Size::new(10, 10)),
            fullscreen: false,
        }],
        areas: vec![OutputArea {
            output: 1,
            geometry: Rectangle::new(Point::new(0, 0), Size::new(800, 600)),
        }],
        owners: vec![],
        parent_owners: None,
        toplevel_changed: None,
    }
}

fn show(window: u64) -> Effect {
    Effect::Do(Command::Show { window, location: Point::new(0, 0) })
}

fn arrange(output: u64) -> Effect {
    Effect::Do(Command::Arrange { output })
}

#[test]
fn an_output_is_added_and_drawn() {
    let mut state = State::new(Shell::new(None));
    assert_eq!(state.add_output(output(1, "A", 0)), vec![arrange(1), Effect::Render(1)]);
    assert_eq!(state.outputs().len(), 1);
    assert_eq!(state.shell().workspaces().len(), 1);
}

#[test]
fn a_window_waits_for_its_contents() {
    let mut state = state();
    let configure = state.new_toplevel(7, 70, false);
    assert_eq!((configure.activated, configure.size), (true, Some(Size::new(800, 600))));
    let mut empty = commit(7);
    empty.has_buffer = false;
    assert_eq!(state.commit(&empty), vec![Effect::Refresh]);
    assert_eq!(state.find_pending(7), Some((0, 70)));
    assert_eq!(
        state.commit(&commit(7)),
        vec![
            show(70),
            arrange(1),
            Effect::FocusSurface(7),
            Effect::SendFrame { surface: 7, output: 1 },
            Effect::Render(1),
        ]
    );
    assert_eq!(state.find_pending(7), None);
    assert_eq!(state.shell().focused_window(), Some(70));
}

#[test]
fn a_fullscreen_window_is_fullscreen_from_the_start() {
    let mut state = state();
    assert_eq!(state.new_toplevel(7, 70, true).size, None);
    let mut c = commit(7);
    c.fullscreen = true;
    assert_eq!(state.commit(&c)[2], arrange(1));
    assert_eq!(state.shell().get_fullscreen("A"), Some(70));
}

#[test]
fn without_outputs_windows_go_on_waiting() {
    let mut state = State::new(Shell::new(None));
    state.new_toplevel(7, 70, false);
    state.new_toplevel(8, 80, false);
    assert_eq!(state.commit(&commit(7)), vec![Effect::Refresh]);
    assert_eq!(state.find_pending(7), Some((1, 70)));
    assert_eq!(state.find_pending(8), Some((0, 80)));
}

#[test]
fn a_window_that_changes_its_geometry_is_arranged_again() {
    let mut state = state();
    state.new_toplevel(7, 70, false);
    state.commit(&commit(7));
    state.shell_mut().active_workspace_mut("A").unwrap().set_needs_arrange(false);
    let mut c = commit(7);
    c.owners = vec![70];
    c.toplevel_changed = Some(false);
    let drawn = vec![
        Effect::SendFrame { surface: 7, output: 1 },
        Effect::Refresh,
        Effect::Render(1),
    ];
    assert_eq!(state.commit(&c), drawn);
    assert!(!state.shell().active_needs_arrange("A"));
    c.toplevel_changed = Some(true);
    assert_eq!(state.commit(&c), drawn);
    assert!(state.shell().active_needs_arrange("A"));
}

#[test]
fn a_subsurface_is_drawn_with_its_parent() {
    let mut state = state();
    let mut c = commit(9);
    assert_eq!(state.commit(&c), vec![Effect::Refresh]);
    c.parent_owners = Some(vec![70]);
    assert_eq!(state.commit(&c), vec![Effect::Refresh, Effect::Render(1)]);
}

#[test]
fn a_layer_that_moves_has_windows_arranged() {
    let mut state = state();
    assert_eq!(state.layer_output(&vec![false, true, true]), Some(1));
    assert_eq!(state.layer_output(&vec![false]), None);
    state.shell_mut().active_workspace_mut("A").unwrap().set_needs_arrange(false);
    assert_eq!(
        state.commit_layer(0, 9, false, true),
        vec![
            Effect::FocusSurface(9),
            Effect::SendFrame { surface: 9, output: 1 },
            Effect::Render(1),
        ]
    );
    assert!(!state.shell().active_needs_arrange("A"));
    assert_eq!(state.commit_layer(0, 9, true, false)[0], Effect::Render(1));
    assert!(state.shell().active_needs_arrange("A"));
}

#[test]
fn a_destroyed_layer_has_focus_refreshed() {
    let mut state = state();
    assert_eq!(state.new_layer_surface(None), Some(1));
    assert_eq!(state.new_layer_surface(Some(4)), Some(4));
    assert_eq!(State::new(Shell::new(None)).new_layer_surface(None), None);
    assert_eq!(state.tick(), Tick::Continue { refresh_focus: false });
    assert_eq!(state.layer_destroyed(0), vec![Effect::UnmapLayer(1), Effect::Render(1)]);
    assert_eq!(state.tick(), Tick::Continue { refresh_focus: true });
    assert_eq!(state.tick(), Tick::Continue { refresh_focus: false });
    state.stop();
    assert_eq!(state.tick(), Tick::Stop);
}

#[test]
fn a_destroyed_window_gives_the_focus_back() {
    let mut state = state();
    for (surface, window) in [(7, 70), (8, 80)] {
        state.new_toplevel(surface, window, false);
        state.commit(&commit(surface));
    }
    assert_eq!(
        state.toplevel_destroyed(Some(80), &vec![80]),
        vec![
            Effect::Do(Command::Hide { window: 80 }),
            Effect::ClearFocus,
            Effect::Render(1),
        ]
    );
    assert_eq!(state.tick(), Tick::Continue { refresh_focus: true });
    assert!(state.refresh_focus(true, &vec![80]).is_empty());
    assert_eq!(
        state.refresh_focus(false, &vec![80]),
        vec![Effect::FocusWindow(70), Effect::Render(1)]
    );
    assert!(state.toplevel_destroyed(None, &vec![]).is_empty());
    state.toplevel_destroyed(Some(70), &vec![70]);
    assert_eq!(state.refresh_focus(false, &vec![70]), vec![Effect::ClearFocus]);
}

#[test]
fn fullscreen_requests_ask_for_the_size_of_the_output() {
    let mut state = state();
    state.new_toplevel(7, 70, false);
    state.commit(&commit(7));
    // 800 by 600 at one and a half
    let size = Size::new(533, 400);
    assert_eq!(
        state.fullscreen_request(None, None, Some(70)),
        vec![Effect::ConfigureFullscreen(size), arrange(1)]
    );
    assert_eq!(state.shell().get_fullscreen("A"), Some(70));
    assert_eq!(
        state.fullscreen_request(Some(1), None, None),
        vec![Effect::ConfigureFullscreen(size)]
    );
    assert_eq!(
        state.unfullscreen_request(Some(70)),
        vec![Effect::ConfigureNormal(Size::new(800, 600)), arrange(1)]
    );
    assert_eq!(state.shell().get_fullscreen("A"), None);
    assert!(state.unfullscreen_request(None).is_empty());
    let mut none = State::new(Shell::new(None));
    assert!(none.fullscreen_request(None, None, Some(70)).is_empty());
}

#[test]
fn surfaces_are_told_the_scale_of_their_output() {
    let mut state = State::new(Shell::new(None));
    assert_eq!(state.new_fractional_scale(None), Scale(256));
    state.add_output(output(1, "A", 0));
    let mut second = output(2, "B", 800);
    second.scale = Scale(512);
    state.add_output(second);
    assert_eq!(state.new_fractional_scale(None), Scale(384));
    assert_eq!(state.new_fractional_scale(Some(2)), Scale(512));
}

#[test]
fn the_session_pauses_input() {
    let mut state = state();
    assert_eq!(state.session_active(true), SessionChange::ResumeInput);
    assert!(state.is_session_active());
    assert_eq!(state.session_active(false), SessionChange::SuspendInput);
    assert!(!state.is_session_active());
}
