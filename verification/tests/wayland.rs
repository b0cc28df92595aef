use swl::backend::device::OutputMode;
use swl::backend::kms::ImportError;
use swl::shell::output::{Scale, Transform};
use swl::utils::geometry::{Point, Size};
use swl::wayland::handlers::{
    dmabuf_imported, grab, GrabAction, GrabState, IdleInhibitState, ImportReply,
};
use swl::wayland::output_configuration::{
    ConfigurationError, HeadError, HeadEvent, HeadInfo, HeadRequest, ModeConfiguration,
    OutputConfiguration, OutputConfigurationState, PendingConfigurationInner,
    PendingOutputConfigurationInner, Use,
};

fn mode(w: i32, h: i32) -> OutputMode {
    OutputMode { size: Size::new(w, h), refresh: 60000 }
}

fn info(output: u64, modes: Vec<OutputMode>) -> HeadInfo {
    let current = modes.first().copied();
    HeadInfo {
        output,
        physical_size: Size::new(600, 340),
        modes,
        preferred_mode: current,
        current_mode: current,
        position: Point::new(0, 0),
        transform: Transform::Normal,
        scale: Scale::identity(),
        make: String::from("Unknown"),
        model: String::from("M27"),
        serial_number: String::from("Unknown"),
    }
}

#[test]
fn nothing_is_set_twice() {
    let mut pending = PendingOutputConfigurationInner::default();
    assert_eq!(pending.request(HeadRequest::SetScale(Scale(320))), Ok(()));
    assert_eq!(pending.request(HeadRequest::SetScale(Scale(320))), Err(HeadError::AlreadySet));
    assert_eq!(pending.request(HeadRequest::SetMode(None)), Err(HeadError::InvalidMode));
    let custom = HeadRequest::SetCustomMode { width: 640, height: 480, refresh: 0 };
    assert_eq!(pending.request(custom), Ok(()));
    assert_eq!(
        pending.request(HeadRequest::SetMode(Some(mode(1, 1)))),
        Err(HeadError::AlreadySet)
    );
    assert_eq!(
        pending.request(HeadRequest::SetTransform(None)),
        Err(HeadError::InvalidTransform)
    );
    assert_eq!(
        pending.request(HeadRequest::SetTransform(Some(Transform::Flipped))),
        Ok(())
    );
    assert_eq!(
        pending.request(HeadRequest::SetAdaptiveSync(None)),
        Err(HeadError::InvalidAdaptiveSyncState)
    );
    assert_eq!(pending.request(HeadRequest::SetAdaptiveSync(Some(true))), Ok(()));
    assert_eq!(pending.request(HeadRequest::SetPosition { x: 5, y: 6 }), Ok(()));
    assert_eq!(
        pending.request(HeadRequest::SetPosition { x: 5, y: 6 }),
        Err(HeadError::AlreadySet)
    );
    assert_eq!(
        pending.finish(),
        OutputConfiguration::Enabled {
            mode: Some(ModeConfiguration::Custom { size: Size::new(640, 480), refresh: None }),
            position: Some(Point::new(5, 6)),
            transform: Some(Transform::Flipped),
            scale: Some(Scale(320)),
            adaptive_sync: Some(true),
        }
    );
}

#[test]
fn a_refresh_rate_of_zero_is_left_open() {
    let mut pending = PendingOutputConfigurationInner::default();
    let custom = HeadRequest::SetCustomMode { width: 1, height: 2, refresh: 75000 };
    assert_eq!(pending.request(custom), Ok(()));
    assert_eq!(
        pending.mode,
        Some(ModeConfiguration::Custom { size: Size::new(1, 2), refresh: Some(75000) })
    );
}

#[test]
fn no_head_is_configured_twice() {
    let mut pending = PendingConfigurationInner::new(0);
    assert_eq!(pending.enable_head(1), Ok(()));
    assert_eq!(pending.enable_head(1), Err(ConfigurationError::AlreadyConfiguredHead));
    assert_eq!(pending.disable_head(1), Err(ConfigurationError::AlreadyConfiguredHead));
    assert_eq!(pending.disable_head(2), Ok(()));
    assert_eq!(pending.configure(2, HeadRequest::SetScale(Scale(1))), None);
    assert_eq!(pending.configure(3, HeadRequest::SetScale(Scale(1))), None);
    assert_eq!(pending.configure(1, HeadRequest::SetScale(Scale(1))), Some(Ok(())));
    assert_eq!(
        pending.configure(1, HeadRequest::SetScale(Scale(1))),
        Some(Err(HeadError::AlreadySet))
    );
}

#[test]
fn a_client_is_told_of_an_output_in_order() {
    let mut state = OutputConfigurationState::new();
    state.bind(100);
    assert!(!state.has_head(100, 7));
    let events = state.send_head_to_client(100, &info(7, vec![mode(800, 600), mode(640, 480)]), 4, Some(50), true);
    assert_eq!(
        events,
        vec![
            HeadEvent::Announce,
            HeadEvent::Name,
            HeadEvent::Description,
            HeadEvent::PhysicalSize { w: 600, h: 340 },
            HeadEvent::NewMode { mode: mode(800, 600), preferred: true },
            HeadEvent::CurrentMode(mode(800, 600)),
            HeadEvent::NewMode { mode: mode(640, 480), preferred: false },
            HeadEvent::Enabled,
            HeadEvent::Position(Point::new(0, 0)),
            HeadEvent::Transform(Transform::Normal),
            HeadEvent::Scale(Scale(256)),
            HeadEvent::Model,
            HeadEvent::AdaptiveSyncDisabled,
        ]
    );
    assert!(state.has_head(100, 7));
    let mut next = info(7, vec![mode(640, 480), mode(320, 200)]);
    next.physical_size = Size::new(0, 340);
    let events = state.send_head_to_client(100, &next, 1, None, true);
    assert_eq!(
        events,
        vec![
            HeadEvent::Name,
            HeadEvent::Description,
            HeadEvent::ModeFinished(mode(800, 600)),
            HeadEvent::CurrentMode(mode(640, 480)),
            HeadEvent::NewMode { mode: mode(320, 200), preferred: false },
            HeadEvent::Enabled,
            HeadEvent::Position(Point::new(0, 0)),
            HeadEvent::Transform(Transform::Normal),
            HeadEvent::Scale(Scale(256)),
        ]
    );
    // told again, it learns of no mode
    let events = state.send_head_to_client(100, &next, 1, None, true);
    assert_eq!(events[2], HeadEvent::CurrentMode(mode(640, 480)));
    assert_eq!(events.len(), 7);
    state.release_mode(50, mode(320, 200));
    let events = state.send_head_to_client(100, &next, 1, None, false);
    assert_eq!(events.len(), 7);
}

#[test]
fn a_client_that_is_gone_gets_no_head() {
    let mut state = OutputConfigurationState::new();
    state.bind(100);
    assert!(state.send_head_to_client(100, &info(7, vec![]), 4, None, false).is_empty());
    assert!(!state.has_head(100, 7));
}

#[test]
fn outputs_come_and_go() {
    let mut state = OutputConfigurationState::new();
    state.add_heads(&vec![1, 2]);
    state.add_heads(&vec![2, 3]);
    assert_eq!(state.outputs(), vec![1, 2, 3]);
    for (manager, head) in [(100, 50), (101, 60)] {
        state.bind(manager);
        for output in [1, 2, 3] {
            state.send_head_to_client(manager, &info(output, vec![]), 4, Some(head + output), true);
        }
    }
    assert!(state.remove_heads(&vec![]).is_empty());
    let finished = state.remove_heads(&vec![2, 3, 2]);
    let heads: Vec<(u64, u64)> = finished.iter().map(|f| (f.manager, f.head)).collect();
    assert_eq!(heads, vec![(100, 52), (101, 62), (100, 53), (101, 63)]);
    for told in &finished {
        assert_eq!(told.events, vec![HeadEvent::Finished]);
    }
    assert_eq!(state.outputs(), vec![1]);
    assert!(!state.has_head(100, 2) && !state.has_head(100, 3) && state.has_head(100, 1));
    assert_eq!(state.output_of(51), Some(1));
    state.release_head(51);
    assert_eq!(state.output_of(51), None);
    state.stop(101);
    assert_eq!(state.managers(), vec![100]);
    assert_eq!(state.output_of(61), None);
}

#[test]
fn modes_are_finished_before_their_head() {
    let mut state = OutputConfigurationState::new();
    state.add_heads(&vec![1]);
    state.bind(100);
    let modes = vec![mode(800, 600), mode(640, 480)];
    state.send_head_to_client(100, &info(1, modes), 4, Some(51), true);
    let finished = state.remove_heads(&vec![1]);
    assert_eq!(finished.len(), 1);
    assert_eq!(
        finished[0].events,
        vec![
            HeadEvent::ModeFinished(mode(800, 600)),
            HeadEvent::ModeFinished(mode(640, 480)),
            HeadEvent::Finished,
        ]
    );
    assert!(!state.has_head(100, 1));
    assert!(state.outputs().is_empty());
}

#[test]
fn a_configuration_is_used_once_and_only_while_it_is_current() {
    let mut state = OutputConfigurationState::new();
    state.bind(100);
    state.send_head_to_client(100, &info(7, vec![]), 4, Some(57), true);
    state.send_head_to_client(100, &info(8, vec![]), 4, Some(58), true);
    assert_eq!(state.update(), 1);
    assert_eq!(state.serial(), 1);
    assert!(state.create_configuration(0).1);
    let (mut pending, outdated) = state.create_configuration(1);
    assert!(!outdated);
    pending.enable_head(58).unwrap();
    pending.configure(58, HeadRequest::SetScale(Scale(512)));
    pending.disable_head(57).unwrap();
    match state.use_configuration(&mut pending) {
        Use::Ready(configs) => {
            assert_eq!(configs.len(), 2);
            assert_eq!(configs[0].0, 8);
            assert!(matches!(
                configs[0].1,
                OutputConfiguration::Enabled { scale: Some(Scale(512)), mode: None, .. }
            ));
            assert_eq!(configs[1], (7, OutputConfiguration::Disabled));
        }
        _ => panic!("the configuration is not ready"),
    }
    assert!(matches!(state.use_configuration(&mut pending), Use::AlreadyUsed));
    let (mut stale, _) = state.create_configuration(1);
    state.update();
    assert!(matches!(state.use_configuration(&mut stale), Use::Cancelled));
    assert!(matches!(state.use_configuration(&mut stale), Use::AlreadyUsed));
    let (mut unknown, _) = state.create_configuration(2);
    unknown.enable_head(99).unwrap();
    assert!(matches!(state.use_configuration(&mut unknown), Use::InvalidMode));
}

#[test]
fn the_session_idles_when_nobody_minds() {
    let mut idle = IdleInhibitState::new();
    assert!(!idle.is_inhibited());
    idle.inhibit(1);
    idle.inhibit(2);
    idle.inhibit(1);
    idle.uninhibit(1);
    assert!(idle.is_inhibited());
    idle.uninhibit(2);
    idle.uninhibit(2);
    assert!(!idle.is_inhibited());
}

#[test]
fn grabs_give_way_to_strangers() {
    let state = |is_grabbed: bool, has_grab: bool, has_previous: bool| {
        Some(GrabState { is_grabbed, has_grab, has_previous })
    };
    let free = state(false, false, false);
    let own = state(true, true, false);
    let previous = state(true, false, true);
    let taken = state(true, false, false);
    assert_eq!(grab(free, own), vec![GrabAction::TakeKeyboard, GrabAction::TakePointer]);
    assert_eq!(grab(previous, None), vec![GrabAction::TakeKeyboard]);
    assert_eq!(grab(None, previous), vec![GrabAction::TakePointer]);
    assert_eq!(grab(taken, free), vec![GrabAction::UngrabAll]);
    assert_eq!(grab(free, taken), vec![GrabAction::TakeKeyboard, GrabAction::UngrabAll]);
    assert!(grab(None, None).is_empty());
}

#[test]
fn imports_are_answered() {
    assert_eq!(dmabuf_imported(Some(Ok(5))), ImportReply::Successful);
    assert_eq!(dmabuf_imported(Some(Err(ImportError::NoDevice))), ImportReply::Failed);
    assert_eq!(dmabuf_imported(None), ImportReply::Failed);
}
